//! Work that goes in steps: advancing a plan, setting up a model, answering questions.

use std::collections::hash_map::DefaultHasher;
use std::hash::{Hash, Hasher};
use std::path::Path;

use cowboy_cli::advance::{Advance, Ask, Reply};
use cowboy_cli::container::{exec_body, stream_body};
use cowboy_cli::control::{ApprovalScope, Reply as Asked, Verdict};
use cowboy_cli::dashboard::{ranch_status_style, ws_status_style, Colour};
use cowboy_cli::models::{
    available, configured_ids, model_names, save_user_model, Defaults, Entry, ModelDef,
    ModelsConfig, Provider, ProvidersConfig, ReasoningEffort,
};
use cowboy_cli::journal::{bridge_expired, let_in, let_in_subagent, subagent_journal, Admission};
use cowboy_cli::paths::{content_hash, project_hash};
use cowboy_cli::ranch::{Ranch, RanchStatus, SessionStatus, Workstream, WorkstreamStatus};
use cowboy_cli::registry::Registry;
use cowboy_cli::secrets::EnvGrant;
use cowboy_cli::sessions::{daemon_list, replay_info, ListReply, ShortList};
use cowboy_cli::setup::{saved_lines, Answer, CatalogueReply, Question, Said, Setup, Stage};
use cowboy_cli::shell::{found_values, secret_exports, still_fresh, value_commands};
use cowboy_cli::worker::{live_status, settle};

fn workstream(id: &str, status: WorkstreamStatus) -> Workstream {
    Workstream {
        id: id.into(),
        title: id.into(),
        goal: "g".into(),
        depends_on: vec![],
        status,
        session_id: None,
        branch: None,
        worktree_path: None,
        expected_artifacts: vec![],
        acceptance: vec![],
    }
}

fn plan(workstreams: Vec<Workstream>) -> Ranch {
    Ranch {
        version: 1,
        id: "r".into(),
        title: "R".into(),
        goal: String::new(),
        status: RanchStatus::Ready,
        workstreams,
        auto_advance: true,
        created_ms: 1,
        updated_ms: 1,
    }
}

fn asked(a: &Advance) -> String {
    match a.ask() {
        Ask::Worktree { workstream, branch } => format!("worktree {workstream} {branch}"),
        Ask::Session { workstream, path } => format!("session {workstream} {path}"),
        Ask::Nothing => "nothing".into(),
    }
}

fn tree(path: &str) -> Reply {
    Reply::Worktree { path: path.into(), branch: format!("b{path}") }
}

#[test]
fn an_advance_launches_what_is_ready_and_passes_over_the_rest() {
    let r = plan(vec![
        workstream("a", WorkstreamStatus::Ready),
        workstream("w", WorkstreamStatus::WaitingForUser),
        workstream("b", WorkstreamStatus::Ready),
        workstream("c", WorkstreamStatus::Ready),
        workstream("d", WorkstreamStatus::Ready),
        workstream("z", WorkstreamStatus::Blocked),
    ]);
    let a = Advance::new(r, &vec![("w".into(), 2), ("gone".into(), 9)]);
    assert_eq!(asked(&a), "worktree a cowboy/r-a");
    let a = a.reply(tree("/a"), "").unwrap();
    assert_eq!(asked(&a), "session a /a");
    let a = a.reply(Reply::Started("s1".into()), "").unwrap();
    assert_eq!(asked(&a), "worktree b cowboy/r-b");
    let a = a.reply(Reply::Refused("exists".into()), "").unwrap();
    let a = a.reply(tree("/c"), "").unwrap().reply(Reply::LeaseDenied, "").unwrap();
    let a = a.reply(tree("/d"), "").unwrap().reply(Reply::Refused("busy".into()), "").unwrap();
    assert_eq!(asked(&a), "nothing");
    let (r, log) = a.finish(false, 7);
    assert_eq!(
        log,
        [
            "w finished a first attempt — promoted 2 artifact(s) for review",
            "  attach with `cowboy ranch attach r w`, then `/accept` in-session (or `cowboy ranch accept r w`) to sign off and unblock dependents",
            "skip b: worktree: exists",
            "skip c: worktree already in use",
            "skip d: busy",
            "started 1 workstream(s):",
            "  a  → session s1  on b/a",
            "awaiting sign-off: w",
            "still blocked: z",
            "re-run `cowboy ranch start r` as workstreams complete.",
        ]
    );
    assert_eq!(r.status, RanchStatus::Running);
    assert_eq!(r.updated_ms, 7);
    assert_eq!(r.workstreams[0].status, WorkstreamStatus::Running);
    assert_eq!(r.workstreams[0].session_id.as_deref(), Some("s1"));
    assert_eq!(r.workstreams[0].branch.as_deref(), Some("b/a"));
    assert_eq!(r.workstreams[0].worktree_path.as_deref(), Some("/a"));
    for w in &r.workstreams[1..] {
        assert!(w.session_id.is_none());
    }
    assert_eq!(r.workstreams[2].status, WorkstreamStatus::Ready);
}

#[test]
fn an_answer_to_nothing_that_was_asked_ends_the_advance() {
    let start = || Advance::new(plan(vec![workstream("a", WorkstreamStatus::Ready)]), &vec![]);
    let message = "unexpected daemon response: Pong";
    for odd in [Reply::Started("s".into()), Reply::LeaseDenied, Reply::Other] {
        assert_eq!(start().reply(odd, "Pong").unwrap_err(), message);
    }
    let a = start().reply(tree("/a"), "").unwrap();
    assert_eq!(a.reply(tree("/a"), "Pong").unwrap_err(), message);
    let none = Advance::new(plan(vec![]), &vec![]);
    assert_eq!(asked(&none), "nothing");
    assert!(none.reply(Reply::Refused("x".into()), "").is_err());
}

fn known() -> Defaults {
    Defaults {
        name: "fast".into(),
        temperature_bits: 7,
        max_tokens: 100,
        context_window: 1000,
        reasoning_effort: Some(ReasoningEffort::Low),
        input_cost_bits: Some(1),
        output_cost_bits: None,
        cached_input_cost_bits: None,
    }
}

fn model(id: &str) -> ModelDef {
    ModelDef {
        provider: "p".into(),
        model: id.into(),
        temperature_bits: 0,
        max_tokens: 1,
        context_window: 1,
        reasoning_effort: None,
        top_p_bits: None,
        stop: vec![],
        extra: vec![],
        headers: vec![],
        input_cost_bits: None,
        output_cost_bits: None,
        cached_input_cost_bits: None,
        anthropic_cache: false,
        stream_idle_timeout_seconds: None,
    }
}

fn models(entries: &[(&str, &str)]) -> ModelsConfig {
    let mut all = Registry::new();
    for (name, id) in entries {
        all = all.insert(name.to_string(), model(id));
    }
    ModelsConfig { default: None, models: all }
}

fn providers(name: &str) -> ProvidersConfig {
    let p = Provider { base_url: "u".into(), api_key: "k".into(), headers: vec![] };
    ProvidersConfig { providers: Registry::new().insert(name.to_string(), p) }
}

/// Plays a dialogue, and gives what was said.
fn play(mut s: Setup, answers: Vec<Answer>, m: &ModelsConfig) -> (Setup, Vec<String>) {
    let p = providers("old");
    let mut said = vec![];
    for a in answers {
        let (next, what) = s.answer(a, &p, m);
        match what {
            Said::Nothing => {}
            Said::Warning(w) => said.push(w),
            Said::Lines(l) => said.extend(l),
        }
        s = next;
    }
    (s, said)
}

fn text(s: &str) -> Answer {
    Answer::Text(s.into())
}

fn url(s: &str) -> Answer {
    Answer::Url { value: "$BASE".into(), expanded: Ok(s.into()) }
}

#[test]
fn a_setup_asks_until_it_has_what_it_needs() {
    let none = models(&[]);
    let entries = vec![("m-b".to_string(), true), ("x".to_string(), false), ("m-a".to_string(), true)];
    let (s, said) = play(
        Setup::new(),
        vec![
            text(" "),
            text("mine"),
            Answer::Url { value: "$NO".into(), expanded: Err("no $NO".into()) },
            url("ftp://host"),
            url("https://host/v1"),
            text(" "),
            text(" key \n"),
            Answer::Catalogue(CatalogueReply::Entries(entries)),
            text("3"),
            text(""),
            text("2"),
            Answer::Known(known()),
            text(""),
            text("quick"),
            Answer::Confirmed(true),
            Answer::Temperature(Err("temperature must be a number".into())),
            Answer::Temperature(Ok(9)),
            text("0"),
            text("200"),
            text("many"),
            text("2000"),
            text("huge"),
            text("HIGH"),
        ],
        &none,
    );
    assert_eq!(
        said,
        [
            "a value is required; try again",
            "no $NO; try again",
            "the endpoint URL must use http or https; try again",
            "an API key is required; try again",
            "Choose a model, or enter its provider id manually:",
            "   1. m-a",
            "   2. m-b",
            "that catalogue number is not available; try again",
            "a model id is required; try again",
            "a value is required; try again",
            "temperature must be a number; try again",
            "enter a positive whole number; try again",
            "enter a positive whole number; try again",
            "invalid reasoning effort \"huge\" (none|minimal|low|medium|high); try again",
        ]
    );
    assert_eq!(s.stage, Stage::Save);
    let p = s.plan();
    assert_eq!(p.provider_name, "mine");
    assert_eq!(p.provider.base_url, "$BASE");
    assert_eq!(p.provider.api_key, "key");
    assert_eq!(p.model_name, "quick");
    assert_eq!(p.model.provider, "mine");
    assert_eq!(p.model.model, "m-b");
    assert_eq!(p.model.temperature_bits, 9);
    assert_eq!(p.model.max_tokens, 200);
    assert_eq!(p.model.context_window, 2000);
    assert_eq!(p.model.reasoning_effort, Some(ReasoningEffort::High));
    assert_eq!(p.model.input_cost_bits, Some(1));
}

fn up_to_catalogue(provider: &str) -> Vec<Answer> {
    vec![text(provider), url("https://host/v1"), text("key")]
}

#[test]
fn without_a_catalogue_a_model_is_entered() {
    for (reply, warning) in [
        (CatalogueReply::Failed, "the endpoint did not provide a usable catalogue; enter a model id manually"),
        (CatalogueReply::TimedOut, "catalogue lookup timed out; enter a model id manually"),
        (
            CatalogueReply::Entries(vec![("embed".into(), false)]),
            "the endpoint returned no chat models; enter a model id manually",
        ),
    ] {
        let mut answers = up_to_catalogue("mine");
        answers.push(Answer::Catalogue(reply));
        answers.push(text("own"));
        let (s, said) = play(Setup::new(), answers, &models(&[]));
        assert_eq!(said, [warning]);
        assert_eq!(s.stage, Stage::Known);
        assert_eq!(s.model_id, "own");
    }
}

#[test]
fn nothing_is_replaced_unless_the_user_agrees() {
    let there = models(&[("quick", "q")]);
    let to_the_end = || {
        let mut answers = up_to_catalogue("old");
        answers.push(Answer::Catalogue(CatalogueReply::Failed));
        answers.push(text("own"));
        answers.push(Answer::Known(known()));
        answers.push(text("quick"));
        answers.push(Answer::Confirmed(false));
        answers
    };
    let (s, _) = play(Setup::new(), to_the_end(), &there);
    assert!(matches!(
        s.question(&providers("old"), &there),
        Question::Destroy { text } if text == "Replace existing provider `old` and model `quick`?"
    ));
    let (yes, _) = play(s, vec![Answer::Confirmed(true)], &there);
    assert_eq!(yes.stage, Stage::Save);
    assert_eq!(yes.plan().model.temperature_bits, 7);
    let (s, _) = play(Setup::new(), to_the_end(), &there);
    let (no, _) = play(s, vec![Answer::Confirmed(false)], &there);
    assert_eq!(no.stage, Stage::Declined);
}

#[test]
fn the_questions_of_a_setup() {
    let (p, m) = (providers("old"), models(&[]));
    let label = |s: &Setup| match s.question(&p, &m) {
        Question::Text { label, default } => format!("{label} [{}]", default.unwrap_or_default()),
        Question::Secret { label } => label,
        Question::Confirm { text } => text.into(),
        Question::Temperature { default_bits } => format!("temperature {default_bits}"),
        other => format!("{other:?}"),
    };
    let mut s = Setup::new();
    s.provider_name = "mine".into();
    s.model_id = "m".into();
    s.known = known();
    let mut seen = vec![];
    for stage in [
        Stage::ProviderName,
        Stage::BaseUrl,
        Stage::ApiKey,
        Stage::Catalogue,
        Stage::PickId,
        Stage::ManualId,
        Stage::Known,
        Stage::ModelName,
        Stage::Advanced,
        Stage::Temperature,
        Stage::MaxTokens,
        Stage::ContextWindow,
        Stage::Reasoning,
        Stage::Save,
        Stage::Declined,
    ] {
        s.stage = stage;
        seen.push(label(&s));
    }
    assert_eq!(
        seen,
        [
            "Provider name [default]",
            "Endpoint base URL (e.g. https://host/v1) []",
            "API key for mine",
            "Catalogue",
            "Model number or id []",
            "Model id []",
            "Known { id: \"m\" }",
            "Model name [fast]",
            "Configure advanced model tuning?",
            "temperature 7",
            "Max output tokens [100]",
            "Context window [1000]",
            "Reasoning effort [low]",
            "Save",
            "Nothing",
        ]
    );
    assert_eq!(
        saved_lines("p", "m", "/p.yaml", "/m.yaml"),
        [
            "saved provider `p` and model `m`",
            "  credentials: /p.yaml (mode 0600)",
            "  models: /m.yaml",
            "\nDone — you can run `cowboy` now.",
            "  review it with `cowboy models`, or verify the host with `cowboy doctor`",
        ]
    );
}

#[test]
fn what_there_is_is_listed_in_order() {
    let user = Some(models(&[("b", "id-b"), ("a", "id-a")]));
    let project = Some(models(&[("c", "id-c"), ("a", "id-x")]));
    assert_eq!(model_names(&user, &project), ["a", "b", "c"]);
    assert!(model_names(&None, &None).is_empty());
    let mut ids = configured_ids(&user, &project);
    ids.sort();
    assert_eq!(ids, ["id-a", "id-b", "id-c", "id-x"]);
    let entry = |id: &str, is_chat: bool| Entry {
        id: id.into(),
        is_chat,
        suggested: "s".into(),
    };
    let entries = vec![entry("z", true), entry("embed", false), entry("id-a", true)];
    assert_eq!(
        available(&entries, &ids, false),
        [format!("  {:<50} s  [configured]", "id-a"), format!("  {:<50} s", "z")]
    );
    assert_eq!(available(&entries, &ids, true).len(), 3);
    assert_eq!(
        available(&vec![entry("embed", false)], &ids, false),
        ["  (no chat models; pass --all to see everything)"]
    );
}

#[test]
fn questions_about_the_network_are_settled() {
    let s = settle("x:443", Some(Asked::Answered(Verdict::Allow, ApprovalScope::Project)));
    assert_eq!((s.verdict, s.scope, s.kept), (Verdict::Allow, ApprovalScope::Project, true));
    assert_eq!(s.reason, "user decision");
    assert_eq!(s.shown.as_deref(), Some("allow x:443 (you decided)"));
    let s = settle("x:443", Some(Asked::Dropped));
    assert_eq!((s.verdict, s.scope, s.kept), (Verdict::Deny, ApprovalScope::Once, false));
    let s = settle("x:443", None);
    assert_eq!((s.verdict, s.scope, s.kept), (Verdict::Deny, ApprovalScope::Once, false));
    assert_eq!(s.reason, "fail-closed (no approver)");
    assert!(s.shown.is_none());
}

#[test]
fn commands_are_handed_over() {
    let b = stream_body("4-2", "/w", "", "make all");
    assert_eq!(b.cmd[..2], ["sh", "-c"]);
    assert_eq!(
        b.cmd[2],
        "setsid sh -c 'echo $$ > /tmp/cowboy-exec-4-2.pgid; sh -c \"$COWBOY_CMD\"; r=$?; rm -f /tmp/cowboy-exec-4-2.pgid; exit $r' 2>&1"
    );
    assert_eq!(b.env, ["COWBOY_CMD=make all", "COWBOY_EXEC_TAG=4-2"]);
    assert_eq!(b.working_dir.as_deref(), Some("/w"));
    assert!(b.user.is_none() && !b.attach_stdin);
    let b = exec_body("", "root", &vec!["ls".into()], true);
    assert_eq!(b.cmd, ["ls"]);
    assert!(b.env.is_empty() && b.working_dir.is_none() && b.attach_stdin);
    assert_eq!(b.user.as_deref(), Some("root"));
}

#[test]
fn secrets_that_commands_give() {
    let grant = |name: &str, cmd: Option<&str>| EnvGrant {
        name: name.into(),
        source_env: name.into(),
        source_command: cmd.map(String::from),
        required: false,
        approval: None,
    };
    let commands =
        value_commands(&vec![grant("A", Some(" gh auth token ")), grant("B", None), grant("C", Some(" ")), grant("D", Some("d"))]);
    assert_eq!(
        commands,
        [("A".to_string(), "gh auth token".to_string()), ("D".to_string(), "d".to_string())]
    );
    let found = found_values(&commands, &vec![Some("it's".into()), None]);
    assert_eq!(found, [("A".to_string(), "it's".to_string())]);
    assert_eq!(secret_exports(&found), "export A='it'\\''s'; ");
    assert!(still_fresh(59) && !still_fresh(60));
}

#[test]
fn hashes_are_those_of_the_standard_hasher() {
    let mut h = DefaultHasher::new();
    Path::new("/home/dev/proj").hash(&mut h);
    assert_eq!(project_hash("/home/dev/proj"), h.finish() as u32);
    assert_eq!(project_hash("/home/dev/proj"), project_hash("/home/dev/proj/"));
    let mut h = DefaultHasher::new();
    b"FROM x".to_vec().hash(&mut h);
    assert_eq!(content_hash(&b"FROM x".to_vec()), h.finish() as u32);
}

#[test]
fn a_replay_tells_how_its_session_ended() {
    let bare = replay_info(None, "s1", SessionStatus::Failed);
    assert_eq!((bare.id.as_str(), bare.status, bare.turn), ("s1", SessionStatus::Failed, 0));
    let mut full = replay_info(None, "s2", SessionStatus::Running);
    full.turn = 4;
    full.pid = Some(9);
    full.session_name = Some("n".into());
    full.worker_sock = Some("/w.sock".into());
    full.journal_path = Some("/j".into());
    full.lease_mode = Some("exclusive".into());
    full.last_heartbeat_ms = 5;
    full.tokens = (7, 8);
    full.attached_clients = 1;
    let full = replay_info(Some(full), "other", SessionStatus::Completed);
    assert_eq!((full.id.as_str(), full.status, full.turn), ("s2", SessionStatus::Completed, 4));
    assert_eq!((full.pid, full.tokens, full.attached_clients), (Some(9), (7, 8), 1));
    assert_eq!((full.worker_sock.as_deref(), full.last_heartbeat_ms), (Some("/w.sock"), 5));
    assert_eq!((bare.pid, bare.tokens, bare.lease_mode), (None, (0, 0), None));
    assert!(!bridge_expired(19999) && bridge_expired(20000));
    assert_eq!(ws_status_style(WorkstreamStatus::MergeReady), Colour::LightGreen);
    assert_eq!(ranch_status_style(RanchStatus::Paused), Colour::Yellow);
}

#[test]
fn the_daemons_sessions_in_short() {
    assert!(matches!(
        daemon_list(ListReply::Unreachable),
        Ok(ShortList::Line("no sessions (cowboyd not running)"))
    ));
    assert!(matches!(daemon_list(ListReply::Sessions(vec![])), Ok(ShortList::Line("no sessions"))));
    assert_eq!(
        daemon_list(ListReply::Other("Pong".into())).unwrap_err(),
        "unexpected daemon response: Pong"
    );
    let mut one = replay_info(None, "1-2", SessionStatus::Running);
    one.root = "/src/project".into();
    one.task = Some("fix it".into());
    let Ok(ShortList::Table { head, rows }) = daemon_list(ListReply::Sessions(vec![one])) else {
        panic!("a table");
    };
    assert_eq!(
        head,
        format!("{:<22} {:<11} {:<18} {:<34} TASK", "ID", "STATUS", "BRANCH", "WORKTREE")
    );
    assert_eq!(rows[0].before, format!("{:<22} ", "1-2"));
    assert_eq!(rows[0].status, format!("{:<11}", "running"));
    assert_eq!(rows[0].behind, format!(" {:<18} {:<34} fix it", "-", "/src/project"));
    let mut planned = replay_info(None, "1-3", SessionStatus::Idle);
    planned.ranch_id = Some("r".into());
    let Ok(ShortList::Table { head, .. }) = daemon_list(ListReply::Sessions(vec![planned])) else {
        panic!("a table");
    };
    assert!(head.contains("RANCH/WORKSTREAM"));
}

#[test]
fn a_model_is_saved_from_a_form() {
    let save = |reasoning: &str| {
        save_user_model(&providers("p"), models(&[]), "fast", "id", 5, 10, 20, reasoning, &known())
    };
    let cfg = save("Low").unwrap();
    assert_eq!(cfg.default.as_deref(), Some("fast"));
    let m = cfg.models.get("fast").unwrap();
    assert_eq!((m.temperature_bits, m.context_window, m.max_tokens), (5, 10, 20));
    assert_eq!(m.reasoning_effort, Some(ReasoningEffort::Low));
    assert_eq!(m.provider, "p");
    assert!(save("huge").unwrap_err().starts_with("invalid reasoning effort \"huge\""));
    let nobody = ProvidersConfig { providers: Registry::new() };
    assert_eq!(
        save_user_model(&nobody, models(&[]), "f", "i", 0, 1, 1, "none", &known()).unwrap_err(),
        "no providers configured; run `cowboy models setup`"
    );
}

#[test]
fn only_who_shows_the_token_watches() {
    assert_eq!(let_in(false, true), Admission::Unauthorized);
    assert_eq!(let_in(true, false), Admission::NoSuchSession);
    assert_eq!(let_in(true, true), Admission::Admitted);
    assert_eq!(let_in_subagent(false, true, "../x"), Admission::Unauthorized);
    assert_eq!(let_in_subagent(true, true, "../x"), Admission::BadSubagent);
    assert_eq!(let_in_subagent(true, true, ""), Admission::BadSubagent);
    assert_eq!(let_in_subagent(true, true, "sub1"), Admission::Admitted);
    assert_eq!(subagent_journal("sub1"), ".cowboy/sessions/sub1/events.jsonl");
    assert_eq!(live_status(&None), SessionStatus::Running);
    assert_eq!(live_status(&Some("waiting".into())), SessionStatus::Blocked);
}
