use cowboy_cli::control::{ApprovalScope, Verdict};
use cowboy_cli::firstrun::Mark;
use cowboy_cli::harnesses::{list as list_harnesses, AuthExposure, Colours, Harness};
use cowboy_cli::patch::{
    applied_line, check_patch, git_result, not_a_repository, revert, saved_line, show, Revert,
};
use cowboy_cli::process::{
    def, is_running, list as list_processes, log_file, logs_command, pid_file, proc_dir,
    running_script, start, stop_script, stopped_line,
};
use cowboy_cli::registry::Registry;
use cowboy_cli::review::{
    render_branch, render_session, review_record, ArtifactRow, DecisionRow, SessionRecord,
};
use cowboy_cli::secrets::{env_present, EnvGrant, FileGrant};
use cowboy_cli::session::{handoff, memory_list, no_memory, resolve_task, session_or_latest};
use cowboy_cli::skill::{run as run_skill, Skill, SkillCommand};
use cowboy_cli::worker::{
    any_pending, env_question, file_question, gate_env, gate_files, is_kept, network_line,
    registers_again, resume_notice, session_id, socket_name, switch_notice, verdict_str, Action,
    DaemonReply, Event, GatedEnv, GatedFile, InterruptKind, Phase, Server, WorkerArgs,
};
use cowboy_cli::worktree::{
    create_slug, diff_stat, fork_point, git_output, is_dirty, list, list_lines, mergeability, plan,
    range_of, repo_root, resolve_branch, lowered_slug, slugify, status, status_lines, BranchReply, WorktreeInfo,
    WorktreeStatus,
};

#[test]
fn slugify_is_clean_and_bounded() {
    assert_eq!(slugify(Some("Fix the Tests!")), "fix-the-tests");
    assert_eq!(slugify(Some("  --weird-- ")), "weird");
    assert_eq!(slugify(None), "work");
    assert_eq!(lowered_slug("fix: it"), "fix-it");
    assert_eq!(slugify(Some("")), "work");
    assert_eq!(slugify(Some("a".repeat(100).as_str())).len(), 40);
}

fn names(v: &[&str]) -> Vec<String> {
    v.iter().map(|s| s.to_string()).collect()
}

#[test]
fn create_then_list_includes_the_new_worktree() {
    let slug = create_slug(Some("cowboy/feature-x"));
    let (branch, dir) = plan(&Some("repo".into()), &slug, &names(&["main"]), &names(&["repo"]));
    assert_eq!(branch, "cowboy/feature-x");
    assert_eq!(dir, "repo-cowboy-feature-x");

    let text = "worktree /src/repo\nHEAD abc\nbranch refs/heads/main\n\nworktree /src/repo-cowboy-feature-x\nHEAD def\nbranch refs/heads/cowboy/feature-x\n\nworktree /src/loose\nHEAD 123\ndetached\n";
    let worktrees = list(text);
    assert!(
        worktrees.iter().any(|w| w.branch == "cowboy/feature-x"),
        "list should include the new branch: {worktrees:?}"
    );
    assert_eq!(worktrees.len(), 3);
    assert_eq!(worktrees[0], WorktreeInfo { path: "/src/repo".into(), branch: "main".into() });
    assert_eq!(worktrees[2].branch, "(detached)");
    assert!(list("").is_empty());
}

#[test]
fn create_suffixes_on_collision() {
    let slug = create_slug(Some("cowboy/dup"));
    let mut branches = names(&["main"]);
    let mut entries = names(&["repo"]);
    let (b1, d1) = plan(&Some("repo".into()), &slug, &branches, &entries);
    branches.push(b1.clone());
    entries.push(d1);
    let (b2, d2) = plan(&Some("repo".into()), &slug, &branches, &entries);
    assert_eq!(b1, "cowboy/dup");
    assert_eq!(b2, "cowboy/dup-2");
    // A directory in the way is enough.
    entries.push(d2);
    assert_eq!(plan(&Some("repo".into()), &slug, &branches, &entries).0, "cowboy/dup-3");
    assert_eq!(plan(&None, "x", &vec![], &vec![]).1, "repo-cowboy-x");
    assert_eq!(create_slug(Some("own")), "own");
    assert_eq!(create_slug(None), "work");
}

fn changed() -> WorktreeStatus {
    status(
        "cowboy/feat",
        true,
        &Ok("0123456789abcdef0123\n".trim().to_string()),
        &Ok("A\tnew.txt\n\nM\tsrc/lib.rs".into()),
        &Ok("2\t0\tnew.txt\n-\t-\tlogo.png\n3\t4\tsrc/lib.rs".into()),
        Some(0),
    )
    .unwrap()
}

#[test]
fn status_and_diff_summarize_a_branch() {
    let s = changed();
    assert_eq!(s.files, ["A\tnew.txt", "M\tsrc/lib.rs"]);
    assert_eq!(s.insertions, 5);
    assert_eq!(s.deletions, 4);
    assert_eq!(s.base, "0123456789ab");
    assert_eq!(s.mergeable, Some(true));
    assert_eq!(range_of(&s.base, &s.branch), "0123456789ab..cowboy/feat");

    let stat = diff_stat("cowboy/feat", true, &Ok(" new.txt | 2 ++".into())).unwrap();
    assert!(stat.contains("new.txt"), "diff stat names the file: {stat}");

    // Unknown branch errors.
    let none = || Err::<String, String>("x".into());
    assert_eq!(
        status("cowboy/nope", false, &none(), &none(), &none(), None).unwrap_err(),
        "no such branch: cowboy/nope"
    );
    assert_eq!(diff_stat("cowboy/nope", false, &none()).unwrap_err(), "no such branch: cowboy/nope");
    // A failure of git is handed on.
    let fine = || Ok::<String, String>(String::new());
    assert_eq!(status("b", true, &fine(), &none(), &fine(), None).unwrap_err(), "x");
    assert_eq!(status("b", true, &fine(), &fine(), &none(), None).unwrap_err(), "x");
    assert_eq!(status("b", true, &none(), &fine(), &fine(), None).unwrap().base, "HEAD");
    assert_eq!(fork_point(&fine()), "HEAD");
    assert_eq!(mergeability(Some(1)), Some(false));
    assert_eq!(mergeability(Some(128)), None);
    assert_eq!(mergeability(None), None);
}

#[test]
fn dirty_base_is_detected() {
    assert!(!is_dirty(true, &vec![]));
    assert!(is_dirty(true, &b" M README\n".to_vec()));
    assert!(!is_dirty(false, &b" M README\n".to_vec()));
    assert_eq!(git_output("diff", true, &b" out \n".to_vec(), &vec![]).unwrap(), "out");
    assert_eq!(
        git_output("diff --stat", false, &vec![], &b" bad \n".to_vec()).unwrap_err(),
        "git diff --stat failed: bad"
    );
    assert_eq!(repo_root("/x", true, &b"/repo\n".to_vec()).unwrap(), "/repo");
    assert_eq!(repo_root("/x", false, &vec![]).unwrap_err(), "/x is not inside a git repository");
}

#[test]
fn branches_and_worktrees_are_shown() {
    assert_eq!(
        status_lines(&changed()),
        [
            "branch:     cowboy/feat",
            "forked at:  0123456789ab",
            "changes:    2 file(s), +5 -4",
            "merges:     clean (vs HEAD)",
            "  A\tnew.txt",
            "  M\tsrc/lib.rs",
        ]
    );
    let w = WorktreeInfo { path: "/src/repo".into(), branch: "main".into() };
    let lines = list_lines(&vec![(w, None)]);
    assert_eq!(lines[1], format!("{:<24} {:<28} -", "main", "/src/repo"));
    assert_eq!(list_lines(&vec![]), ["no worktrees"]);
    assert_eq!(resolve_branch(Some("b".into()), &None, None).unwrap(), "b");
    assert!(resolve_branch(None, &None, None).is_err());
    let reply = |r: BranchReply| resolve_branch(None, &Some("s1".into()), Some(r));
    assert_eq!(reply(BranchReply::Session(Some("b".into()))).unwrap(), "b");
    assert_eq!(reply(BranchReply::Session(None)).unwrap_err(), "session s1 has no branch");
    assert_eq!(reply(BranchReply::Refused("gone".into())).unwrap_err(), "gone");
    assert_eq!(
        render_branch(&changed()),
        "forked at 0123456789ab; 2 file(s), +5 -4; merges clean vs HEAD\n  A\tnew.txt\n  M\tsrc/lib.rs\n"
    );
}

#[test]
fn render_session_bundles_handoff_and_artifacts() {
    let bundle = render_session(&SessionRecord {
        id: "s1".into(),
        handoff: Some("# Handoff\n\n## Goal\nbuild it\n".into()),
        artifacts: vec![ArtifactRow {
            id: "a0001".into(),
            kind: "contract".into(),
            title: "API".into(),
        }],
        decisions: vec![DecisionRow { id: "d1".into(), question: "why".into(), selected: None }],
        events: 2,
        diff_bytes: Some(9),
    });
    assert!(bundle.contains("Review of session s1"));
    assert!(bundle.contains("build it"));
    assert!(bundle.contains("[contract] API"));
    assert!(bundle.ends_with(
        "\n## Decisions (1)\n- d1: why → (none)\n\n## Lifecycle (2 events)\n\n## Diff\ndiff.patch (9 bytes)\n"
    ));
    let bare = render_session(&SessionRecord {
        id: "s2".into(),
        handoff: None,
        artifacts: vec![],
        decisions: vec![],
        events: 0,
        diff_bytes: Some(0),
    });
    assert_eq!(bare, "# Review of session s2\n\n## Handoff\n(no handoff)\n\n## Artifacts (0)\n");
    assert!(review_record(&bare).ends_with("\n## Findings\n(add review findings here)\n"));
}

fn started(actions: &[Action]) -> Vec<String> {
    actions
        .iter()
        .filter_map(|a| match a {
            Action::StartTurn(m) => Some(m.clone()),
            _ => None,
        })
        .collect()
}

#[test]
fn messages_get_their_turns_in_order() {
    let (mut s, first) = Server::new(Some("task".into()));
    assert_eq!(started(&first), ["task"]);
    assert!(s.step(Event::Message("one".into())).is_empty());
    assert!(s.step(Event::Message("two".into())).is_empty());
    assert_eq!(started(&s.step(Event::TurnDone)), ["one"]);
    // Another model: the turn is cancelled, and what waits still gets its turn.
    assert!(matches!(s.step(Event::SwitchModel("big".into()))[..], [Action::Cancel { notice: false }]));
    let after = s.step(Event::TurnDone);
    assert!(matches!(&after[0], Action::SwitchModel(n) if n == "big"));
    assert_eq!(started(&after), ["two"]);
    assert!(s.step(Event::TurnDone).is_empty());
    assert!(matches!(s.phase, Phase::Idle));
    assert!(s.step(Event::Interrupt(InterruptKind::Turn)).is_empty());
    assert_eq!(started(&s.step(Event::Message("three".into()))), ["three"]);
}

#[test]
fn an_interruption_forgets_what_waits_and_an_end_ends() {
    let (mut s, _) = Server::new(Some("task".into()));
    s.step(Event::Message("later".into()));
    assert!(matches!(
        s.step(Event::Interrupt(InterruptKind::Turn))[..],
        [Action::Cancel { notice: true }]
    ));
    assert!(s.step(Event::TurnDone).is_empty());
    assert!(s.queue.is_empty());
    assert!(matches!(s.phase, Phase::Idle));

    for end in [Event::End, Event::Closed, Event::Interrupt(InterruptKind::End)] {
        let (mut s, _) = Server::new(Some("task".into()));
        s.step(Event::Message("later".into()));
        assert!(matches!(s.step(end)[..], [Action::Cancel { .. }]));
        assert!(matches!(s.step(Event::TurnDone)[..], [Action::Finish]));
        assert!(matches!(s.phase, Phase::Ended));
    }
    let (mut s, none) = Server::new(None);
    assert!(none.is_empty());
    assert!(matches!(s.step(Event::End)[..], [Action::Finish]));
}

fn gated(target: &str, needs_approval: bool) -> GatedFile {
    GatedFile {
        grant: FileGrant {
            source: "/src".into(),
            target: target.into(),
            read_only: true,
            required: false,
            approval: if needs_approval { Some("required".into()) } else { None },
        },
        present: true,
    }
}

#[test]
fn credential_answers_gate_grants() {
    let files = || vec![gated("/approved", true), gated("/denied", true), gated("/free", false)];
    assert!(any_pending(&vec![], &files()));
    assert!(!any_pending(&vec![], &vec![gated("/free", false)]));
    assert_eq!(
        file_question(&files()[0]).unwrap(),
        "credential: mount /src → /approved (read-only) into the container?"
    );
    assert!(file_question(&files()[2]).is_none());
    let (kept, said) =
        gate_files(files(), &vec![Some(Verdict::Allow), Some(Verdict::Deny), None]);
    let targets: Vec<&str> = kept.iter().map(|f| f.target.as_str()).collect();
    assert_eq!(targets, ["/approved", "/free"]);
    assert_eq!(said, ["credential denied: /src not mounted"]);
    // No answer is a refusal.
    assert_eq!(gate_files(files(), &vec![None, None, None]).0.len(), 1);

    let env = |present: bool| GatedEnv {
        grant: EnvGrant {
            name: "TOKEN".into(),
            source_env: "SRC".into(),
            source_command: None,
            required: false,
            approval: Some("required".into()),
        },
        present,
    };
    assert_eq!(
        env_question(&env(true)).unwrap(),
        "credential: inject env TOKEN (from $SRC) into the container?"
    );
    assert!(env_question(&env(false)).is_none());
    let by_command = EnvGrant { source_command: Some("gh".into()), ..env(true).grant };
    assert!(env_present(&by_command, false, true) && !env_present(&by_command, true, false));
    assert!(env_present(&env(true).grant, true, false) && !env_present(&env(true).grant, false, true));
    let other = EnvGrant { approval: Some("never".into()), ..env(true).grant };
    assert!(!other.needs_approval() && by_command.needs_approval());
    assert_eq!(
        env_question(&GatedEnv { grant: by_command, present: true }).unwrap(),
        "credential: inject env TOKEN (from `gh`) into the container?"
    );
    let (kept, said) = gate_env(vec![env(true), env(false)], &vec![Some(Verdict::Ask), None]);
    assert_eq!(kept.len(), 1);
    assert_eq!(said, ["credential denied: env TOKEN not injected"]);
}

#[test]
fn a_worker_tells_of_itself() {
    let args = WorkerArgs {
        root: "/p".into(),
        task: None,
        sock: None,
        id: Some("given".into()),
        register: true,
        resume: None,
    };
    assert_eq!(session_id(&Some("logged".into()), &args.id, 5, 9), "logged");
    assert_eq!(session_id(&None, &args.id, 5, 9), "given");
    assert_eq!(session_id(&None, &None, 5, 9), "5-9");
    assert_eq!(socket_name("1-2"), "s-1-2.sock");
    assert!(registers_again(DaemonReply::Refused));
    assert!(!registers_again(DaemonReply::Unreachable));
    assert!(!registers_again(DaemonReply::Fine));
    assert!(is_kept(Verdict::Allow, ApprovalScope::Project));
    assert!(is_kept(Verdict::Allow, ApprovalScope::Global));
    assert!(!is_kept(Verdict::Allow, ApprovalScope::Session));
    assert!(!is_kept(Verdict::Deny, ApprovalScope::Project));
    assert_eq!(verdict_str(Verdict::Ask), "ask");
    assert_eq!(network_line(Verdict::Deny, "x:443", "you decided"), "deny x:443 (you decided)");
    assert_eq!(resume_notice("s1", &Ok(3)), "continuing session s1 (3 prior messages)");
    assert_eq!(resume_notice("s1", &Err("gone".into())), "could not resume s1: gone");
    assert_eq!(switch_notice("big", &None), "switched to model big");
    assert_eq!(switch_notice("big", &Some("no".into())), "model switch failed: no");
}

#[test]
fn changes_are_shown_applied_and_undone() {
    assert_eq!(show(""), "(no uncommitted changes)\n");
    assert_eq!(show("diff"), "diff");
    assert_eq!(saved_line("/d.patch", "é"), "saved /d.patch (2 bytes)");
    assert!(check_patch("  \n").is_err());
    assert!(check_patch("diff").is_ok());
    assert_eq!(applied_line(true), "patch applies cleanly");
    assert_eq!(applied_line(false), "patch applied");
    assert_eq!(revert("", true, "y"), Revert::Nothing);
    assert_eq!(revert("d", false, " yes \n"), Revert::Discard);
    assert_eq!(revert("d", false, "Y\n"), Revert::Discard);
    assert_eq!(revert("d", false, "no\n"), Revert::Abort);
    assert_eq!(revert("d", true, ""), Revert::Discard);
    assert_eq!(git_result("git diff", true, &b"x \n".to_vec(), &vec![]).unwrap(), "x \n");
    assert_eq!(
        git_result("git apply", false, &vec![], &b"bad\n".to_vec()).unwrap_err(),
        "git apply failed: bad"
    );
    assert!(not_a_repository("/p").starts_with("not a git repository: /p\n"));
}

#[test]
fn processes_are_looked_up_and_shown() {
    let procs = Registry::new()
        .insert("web".to_string(), "npm run dev".to_string())
        .insert("db".to_string(), "postgres".to_string());
    assert_eq!(def(&procs, "web").unwrap(), "npm run dev");
    assert_eq!(
        def(&procs, "x").unwrap_err(),
        "no process named \"x\"; defined: [\"db\", \"web\"]"
    );
    assert_eq!(
        list_processes(&procs, &vec![true, false]),
        [
            format!("{:<16} {:<8} COMMAND", "NAME", "STATUS"),
            format!("{:<16} {:<8} postgres", "db", "running"),
            format!("{:<16} {:<8} npm run dev", "web", "stopped"),
        ]
    );
    assert_eq!(list_processes(&Registry::new(), &vec![]).len(), 1);
    let dir = proc_dir("/workspace");
    assert_eq!(pid_file(&dir, "web"), "/workspace/.cowboy/proc/web.pid");
    assert_eq!(log_file(&dir, "web"), "/workspace/.cowboy/proc/web.log");
    assert!(running_script(&dir, "web").contains("[ -n \"$p\" ]"));
    assert!(is_running(&Some("up\n".into())));
    assert!(!is_running(&Some(String::new())) && !is_running(&None));
    assert!(start(&procs, "web").contains("`npm run dev`"));
    assert!(start(&procs, "x").starts_with("no process named"));
    assert!(stop_script(&dir, "web").ends_with("rm -f /workspace/.cowboy/proc/web.pid; echo stopped"));
    assert_eq!(stopped_line("web", " stopped\n"), "web: stopped");
    assert_eq!(logs_command(&dir, "web")[2], "tail -n 200 -f /workspace/.cowboy/proc/web.log");
}

#[test]
fn skills_tasks_and_memories_are_found_or_not() {
    let skill = |name: &str, global: bool| Skill {
        name: name.into(),
        description: "does".into(),
        global,
        instructions: "steps".into(),
    };
    let all = vec![skill("a", false), skill("b", true)];
    assert_eq!(
        run_skill(&SkillCommand::List, &all, None).unwrap(),
        [format!("{:<20} does", "a"), format!("{:<20} does (global)", "b")]
    );
    assert!(run_skill(&SkillCommand::List, &vec![], None).unwrap()[0].starts_with("no skills found"));
    let ask = SkillCommand::Show { name: "a".into() };
    assert_eq!(run_skill(&ask, &all, Some(skill("a", false))).unwrap(), ["steps"]);
    assert_eq!(
        run_skill(&ask, &all, None).unwrap_err(),
        "no skill named \"a\"; available: [\"a\", \"b\"]"
    );
    assert_eq!(resolve_task(Some("t".into()), "").as_deref(), Some("t"));
    assert_eq!(resolve_task(None, " typed \n").as_deref(), Some("typed"));
    assert_eq!(resolve_task(None, " \n"), None);
    assert_eq!(handoff("s1", Some("b".into())).unwrap(), "b");
    assert!(handoff("s1", None).unwrap_err().contains("s1"));
    assert_eq!(session_or_latest(None, Some("l".into()), "none").unwrap(), "l");
    assert_eq!(session_or_latest(None, None, "none").unwrap_err(), "none");
    assert_eq!(memory_list(""), "no memories stored\n");
    assert_eq!(no_memory("x"), "no memory named \"x\"");
}

#[test]
fn harnesses_are_listed() {
    let mark = || Mark { before: "<".into(), after: ">".into() };
    let c = Colours { bold: mark(), dim: mark(), red: mark(), green: mark() };
    let h = Harness {
        name: "grok".into(),
        kind: "grok".into(),
        model: Some("g2".into()),
        binary: Ok("/bin/grok".into()),
        version: None,
        logged_in: false,
        command: "grok".into(),
        auth: AuthExposure::AuthFile,
        hosts: vec!["a".into(), "b".into()],
    };
    assert_eq!(
        list_harnesses(&c, &vec![h], &None),
        [
            "<grok>  (grok CLI, model g2)",
            "  binary   /bin/grok <(version unknown)>",
            "  login    <missing — run `grok login`>",
            "  exposes  the login file only",
            "  hosts    a, b",
            "",
        ]
    );
    assert!(list_harnesses(&c, &vec![], &None)[0].contains("~/.config/cowboy/harnesses.yaml"));
}
