use cowboy_cli::dashboard::{draw_dashboard, on_press, Colour, Dashboard, Press, Step};
use cowboy_cli::depths::{dep_depths, layout_order};
use cowboy_cli::ranch::{
    add_workstream, apply_change, attach_session, check_plan, decide, keep_added, proposal_change,
    ws_status,
    ProposalStatus, Ranch, RanchStatus, ScopeChange, ScopeProposal, SessionStatus, Workstream,
    WorkstreamStatus,
};
use cowboy_cli::ranch_text::{
    compose_task, list_proposals, new_plan, plan_task, show_one, status_table, truncate, Artifact,
    ProposalRow,
};
use cowboy_cli::roundup::{
    advance_summary, branch_name, close_if_done, launched, mark_done, pick_ready, reconcile,
    settle, sign_off_report, skip_line, with_status, Launch, Started,
};

fn ws(id: &str, deps: &[&str], status: WorkstreamStatus, session: Option<&str>) -> Workstream {
    Workstream {
        id: id.into(),
        title: id.to_uppercase(),
        goal: format!("do {id}"),
        depends_on: deps.iter().map(|s| s.to_string()).collect(),
        status,
        session_id: session.map(|s| s.to_string()),
        branch: None,
        worktree_path: None,
        expected_artifacts: vec![],
        acceptance: vec![],
    }
}

fn ranch(ws: Vec<Workstream>) -> Ranch {
    Ranch {
        version: 1,
        id: "r".into(),
        title: "R".into(),
        goal: String::new(),
        status: RanchStatus::Running,
        workstreams: ws,
        auto_advance: true,
        created_ms: 1,
        updated_ms: 1,
    }
}

fn status_of(r: &Ranch, id: &str) -> WorkstreamStatus {
    r.workstreams.iter().find(|w| w.id == id).unwrap().status
}

/// Work that has not started is ready where all that it depends on is complete.
fn recompute_readiness(r: &mut Ranch) {
    let done: Vec<String> = r
        .workstreams
        .iter()
        .filter(|w| w.status == WorkstreamStatus::Complete)
        .map(|w| w.id.clone())
        .collect();
    for w in &mut r.workstreams {
        if matches!(
            w.status,
            WorkstreamStatus::Planned | WorkstreamStatus::Blocked | WorkstreamStatus::Ready
        ) {
            w.status = if w.depends_on.iter().all(|d| done.contains(d)) {
                WorkstreamStatus::Ready
            } else {
                WorkstreamStatus::Blocked
            };
        }
    }
}

/// What a round finds: the work to start, and the work that waits to be signed off.
fn round(r: &mut Ranch, sessions: &[(&str, SessionStatus)]) -> (Vec<String>, Vec<String>) {
    let known: Vec<(String, SessionStatus)> =
        sessions.iter().map(|(id, s)| (id.to_string(), *s)).collect();
    let awaiting = reconcile(r, &known);
    recompute_readiness(r);
    (pick_ready(r), awaiting)
}

#[test]
fn dep_depths_layer_the_graph_in_execution_order() {
    let r = ranch(vec![
        ws("schema", &[], WorkstreamStatus::Planned, None),
        ws("api", &["schema"], WorkstreamStatus::Planned, None),
        ws("ui", &["api"], WorkstreamStatus::Planned, None),
        ws("integration", &["api", "ui"], WorkstreamStatus::Planned, None),
    ]);
    let d = dep_depths(&r);
    assert_eq!(d.get("schema"), Some(0));
    assert_eq!(d.get("api"), Some(1));
    assert_eq!(d.get("ui"), Some(2));
    assert_eq!(d.get("integration"), Some(3)); // max(api=1, ui=2) + 1
}

#[test]
fn a_stray_cycle_yields_zeros() {
    let r = ranch(vec![
        ws("a", &["b"], WorkstreamStatus::Planned, None),
        ws("b", &["a", "elsewhere"], WorkstreamStatus::Planned, None),
        ws("c", &["a"], WorkstreamStatus::Planned, None),
        ws("d", &["c", "d"], WorkstreamStatus::Planned, None),
    ]);
    let d = dep_depths(&r);
    assert_eq!(d.get("a"), Some(0));
    assert_eq!(d.get("b"), Some(0));
    assert_eq!(d.get("c"), Some(1));
    assert_eq!(d.get("d"), Some(0));
    assert_eq!(d.get("elsewhere"), Some(0));
    assert_eq!(d.get("nowhere"), None);
}

#[test]
fn a_plan_is_laid_out_by_depth() {
    let r = ranch(vec![
        ws("ui", &["api"], WorkstreamStatus::Planned, None),
        ws("api", &["schema"], WorkstreamStatus::Planned, None),
        ws("schema", &[], WorkstreamStatus::Planned, None),
    ]);
    assert_eq!(layout_order(&r, &dep_depths(&r)), [2, 1, 0]);
}

#[test]
fn add_workstream_appends_with_its_defaults_and_refuses_a_duplicate() {
    let mut r = ranch(vec![ws("schema", &[], WorkstreamStatus::Planned, None)]);
    add_workstream(&mut r, "r", "api", "build the api", None, vec!["schema".into()], vec![], vec![])
        .unwrap();
    let api = r.workstreams.iter().find(|w| w.id == "api").expect("api was added");
    assert_eq!(api.depends_on, vec!["schema".to_string()]);
    assert_eq!(api.goal, "build the api");
    assert_eq!(api.title, "api"); // defaults to the id
    assert!(
        add_workstream(&mut r, "r", "api", "dup", None, vec![], vec![], vec![]).is_err(),
        "duplicate workstream id must be rejected"
    );
    assert_eq!(r.workstreams.len(), 2, "only schema + api persisted");

    // Dependencies that make no sense keep the plan from being kept, or advanced.
    let wrong = Err("unknown dependency `nope`".to_string());
    assert_eq!(check_plan("r", &wrong).unwrap_err(), "invalid ranch r: unknown dependency `nope`");
    assert!(check_plan("r", &Ok(())).is_ok());
    let kept = keep_added(r, "api", &Ok(()), 9).unwrap();
    assert_eq!(kept.updated_ms, 9);
    assert_eq!(
        keep_added(kept, "ui", &wrong, 10).unwrap_err(),
        "adding `ui` would break the plan: unknown dependency `nope`"
    );
}

#[test]
fn reconcile_holds_finished_workstream_for_signoff() {
    // schema is Running on session s1; api waits on schema; ui waits on api.
    let mut r = ranch(vec![
        ws("schema", &[], WorkstreamStatus::Running, Some("s1")),
        ws("api", &["schema"], WorkstreamStatus::Planned, None),
        ws("ui", &["api"], WorkstreamStatus::Planned, None),
    ]);
    // s1 has Completed → a workstream is never auto-completed, so schema parks
    // at WaitingForUser and api stays blocked until the user signs off.
    let (ready, awaiting) = round(&mut r, &[("s1", SessionStatus::Completed)]);
    assert!(ready.is_empty());
    assert_eq!(awaiting, vec!["schema"]);
    assert_eq!(status_of(&r, "schema"), WorkstreamStatus::WaitingForUser);
    assert_eq!(status_of(&r, "api"), WorkstreamStatus::Blocked);
    assert_eq!(status_of(&r, "ui"), WorkstreamStatus::Blocked);
}

fn cache(goal: &str) -> Workstream {
    Workstream {
        id: "cache".into(),
        title: "Cache".into(),
        goal: goal.into(),
        depends_on: vec!["api".into()],
        status: WorkstreamStatus::Planned,
        session_id: None,
        branch: None,
        worktree_path: None,
        expected_artifacts: vec![],
        acceptance: vec![],
    }
}

#[test]
fn apply_change_adds_removes_and_guards() {
    let mk = || {
        ranch(vec![
            ws("schema", &[], WorkstreamStatus::Complete, Some("s1")),
            ws("api", &["schema"], WorkstreamStatus::Planned, None),
        ])
    };
    let has = |r: &Ranch, id: &str| r.workstreams.iter().any(|w| w.id == id);

    // Add a new workstream → present.
    let mut r = mk();
    let msg = apply_change(
        &mut r,
        ScopeChange::AddWorkstream { workstream: cache("add caching") },
    )
    .unwrap();
    assert!(msg.contains("cache"));
    assert!(has(&r, "cache"));
    // Duplicate add is rejected.
    assert!(apply_change(
        &mut r,
        ScopeChange::AddWorkstream { workstream: cache("add caching") }
    )
    .is_err());

    // Remove a not-started workstream → gone. But api is depended on by cache,
    // so removing api is refused; remove cache first.
    let mut r = mk();
    apply_change(&mut r, ScopeChange::AddWorkstream { workstream: cache("") }).unwrap();
    assert!(
        apply_change(&mut r, ScopeChange::RemoveWorkstream { id: "api".into() }).is_err(),
        "can't remove a dependency of another workstream"
    );
    apply_change(&mut r, ScopeChange::RemoveWorkstream { id: "cache".into() }).unwrap();
    assert!(!has(&r, "cache"));

    // Can't remove a completed (done) workstream.
    let mut r = mk();
    assert!(
        apply_change(&mut r, ScopeChange::RemoveWorkstream { id: "schema".into() }).is_err(),
        "can't remove completed work"
    );

    // Note is a no-op that succeeds.
    let mut r = mk();
    assert!(apply_change(&mut r, ScopeChange::Note).is_ok());
    assert_eq!(r.workstreams.len(), 2);
}

#[test]
fn finished_workstream_holds_for_signoff_regardless_of_criteria() {
    // Whether or not it declares acceptance criteria or expected artifacts, a
    // finished workstream parks for sign-off — sign-off is always explicit.
    for with_criteria in [false, true] {
        let mut schema = ws("schema", &[], WorkstreamStatus::Running, Some("s1"));
        if with_criteria {
            schema.acceptance = vec!["migrations apply cleanly".into()];
        }
        let mut r =
            ranch(vec![schema, ws("api", &["schema"], WorkstreamStatus::Planned, None)]);
        let (ready, awaiting) = round(&mut r, &[("s1", SessionStatus::Completed)]);
        assert_eq!(awaiting, vec!["schema"]);
        assert_eq!(status_of(&r, "schema"), WorkstreamStatus::WaitingForUser);
        // api stays blocked (its dep isn't signed off) and nothing is ready.
        assert!(ready.is_empty());
        assert_eq!(status_of(&r, "api"), WorkstreamStatus::Blocked);
    }
}

#[test]
fn reconcile_leaves_running_workstream_alone() {
    let mut r = ranch(vec![ws("schema", &[], WorkstreamStatus::Running, Some("s1"))]);
    // Session still running → no change, nothing new to start.
    let (ready, awaiting) = round(&mut r, &[("s1", SessionStatus::Running)]);
    assert!(ready.is_empty());
    assert!(awaiting.is_empty());
    assert_eq!(status_of(&r, "schema"), WorkstreamStatus::Running);
}

#[test]
fn reconciling_a_second_time_changes_nothing() {
    let mut r = ranch(vec![
        ws("a", &[], WorkstreamStatus::Running, Some("s1")),
        ws("b", &[], WorkstreamStatus::Running, Some("s2")),
    ]);
    let known = vec![
        ("s1".to_string(), SessionStatus::Completed),
        ("s2".to_string(), SessionStatus::Failed),
    ];
    reconcile(&mut r, &known);
    let once: Vec<WorkstreamStatus> = r.workstreams.iter().map(|w| w.status).collect();
    reconcile(&mut r, &known);
    let twice: Vec<WorkstreamStatus> = r.workstreams.iter().map(|w| w.status).collect();
    assert_eq!(once, twice);
    assert!(!once.contains(&WorkstreamStatus::Complete));
}

#[test]
fn signing_off_completes_and_unblocks_dependents() {
    let mut r = ranch(vec![
        ws("schema", &[], WorkstreamStatus::Running, Some("s1")),
        ws("api", &["schema"], WorkstreamStatus::Planned, None),
    ]);
    mark_done(&mut r, "r", "schema").unwrap();
    recompute_readiness(&mut r);
    assert_eq!(status_of(&r, "schema"), WorkstreamStatus::Complete);
    assert_eq!(status_of(&r, "api"), WorkstreamStatus::Ready);
    assert!(mark_done(&mut r, "r", "nothing").is_err());
    assert_eq!(with_status(&r, WorkstreamStatus::Ready), ["api"]);
    let lines = sign_off_report(&r, "r", "schema", "completed", 1, &vec!["api".into()]);
    assert!(lines.iter().any(|l| l.contains("api")), "{lines:?}");
}

#[test]
fn compose_task_includes_goal_rules_and_dependency_artifacts() {
    let r = ranch(vec![]);
    // A dependency (schema) already put a contract forward.
    let artifacts = vec![Artifact {
        dependency: "schema".into(),
        name: "a0001-contract.md".into(),
        body: "# Schema\nTABLE users".into(),
    }];
    let mut w = ws("api", &["schema"], WorkstreamStatus::Ready, None);
    w.acceptance = vec!["tests pass".into()];
    let task = compose_task(&r, &w, &artifacts);

    assert!(task.contains("Your workstream: API (api)"));
    assert!(task.contains("Depends on (complete): schema"));
    assert!(task.contains("tests pass"));
    assert!(task.contains("Coordination rules"));
    // What the dependency put forward is handed on.
    assert!(task.contains("Artifacts from your dependencies"));
    assert!(task.contains("schema/a0001-contract.md"));
    assert!(task.contains("TABLE users"));
}

/// The dashboard as text: its panes one below the other.
fn shown(d: &Dashboard) -> String {
    let mut out = d.head.join("\n");
    out.push_str(&d.titles.join(" "));
    for r in &d.rows {
        out.push_str(&format!("{} {} {} {}\n", r.workstream, r.status, r.session, r.depends_on));
    }
    if d.log_height > 0 {
        out.push_str(" log \n");
        out.push_str(&d.log.join("\n"));
    }
    out.push_str(d.keys);
    out
}

#[test]
fn draw_dashboard_renders_header_table_and_keys() {
    let r = ranch(vec![
        ws("schema", &[], WorkstreamStatus::Complete, Some("s1")),
        ws("api", &["schema"], WorkstreamStatus::Running, Some("s2")),
        ws("ui", &["api"], WorkstreamStatus::Blocked, None),
    ]);
    let live = vec![("s2".to_string(), SessionStatus::Running)];
    let log = vec!["api → session s2 on cowboy/r-api".to_string()];
    let d = draw_dashboard(&r, &live, &log);
    let text = shown(&d);
    assert!(text.contains("ranch r"));
    assert!(text.contains("WORKSTREAM"));
    assert!(text.contains("schema"));
    assert!(text.contains("blocked")); // ui's status
    assert!(text.contains("s2 (running)")); // api session + live session status
    assert!(text.contains("q quit"));
    assert!(text.contains("cowboy/r-api")); // the advance log line
    assert_eq!(d.rows[0].session, "s1");
    assert_eq!(d.rows[1].depends_on, "schema");
    assert_eq!(d.rows[2].session, "-");
    assert_eq!(d.rows[0].colour, Colour::Green);
    assert_eq!(d.status_colour, Colour::Cyan);
    assert_eq!(d.log_height, 8);
    // Only the last lines of a long log are shown.
    let long: Vec<String> = (0..9).map(|i| format!("line {i}")).collect();
    let d = draw_dashboard(&r, &live, &long);
    assert_eq!(d.log.len(), 6);
    assert_eq!(d.log[0], "line 3");
}

#[test]
fn draw_dashboard_hides_empty_log_pane() {
    let r = ranch(vec![ws("only", &[], WorkstreamStatus::Planned, None)]);
    let d = draw_dashboard(&r, &vec![], &vec![]);
    let text = shown(&d);
    assert!(text.contains("only"));
    assert!(!text.contains(" log ")); // no log pane title when empty
    assert_eq!(d.log_height, 0);
}

#[test]
fn the_keys_of_the_dashboard() {
    assert_eq!(on_press(Press::Key('q')), Step::Quit);
    assert_eq!(on_press(Press::Escape), Step::Quit);
    assert_eq!(on_press(Press::Key('s')), Step::Advance);
    assert_eq!(on_press(Press::Key('r')), Step::Refresh);
    assert_eq!(on_press(Press::Idle), Step::Refresh);
    assert_eq!(on_press(Press::Key('x')), Step::Nothing);
    assert_eq!(on_press(Press::Other), Step::Nothing);
}

#[test]
fn proposals_are_made_decided_and_listed() {
    let r = ranch(vec![ws("api", &[], WorkstreamStatus::Planned, None)]);
    let none = || (None, None, vec![]);
    let (t, g, d) = none();
    assert!(matches!(
        proposal_change(&r, "r", Some("ui".into()), None, false, t, g, d),
        Ok(ScopeChange::AddWorkstream { workstream }) if workstream.title == "ui"
    ));
    let (t, g, d) = none();
    assert!(proposal_change(&r, "r", Some("api".into()), None, false, t, g, d).is_err());
    let (t, g, d) = none();
    assert!(proposal_change(&r, "r", None, Some("ghost".into()), false, t, g, d).is_err());
    let (t, g, d) = none();
    assert!(matches!(
        proposal_change(&r, "r", None, None, true, t, g, d),
        Ok(ScopeChange::Note)
    ));
    let (t, g, d) = none();
    assert!(proposal_change(&r, "r", None, None, false, t, g, d).is_err());

    let mut p = ScopeProposal {
        id: "p1".into(),
        ranch_id: "r".into(),
        from: "user".into(),
        summary: "s".into(),
        rationale: None,
        change: ScopeChange::Note,
        status: ProposalStatus::Pending,
        created_ms: 1,
        decided_ms: None,
        decision_reason: None,
    };
    decide(&mut p, "p1", true, 9, None).unwrap();
    assert_eq!(p.status, ProposalStatus::Approved);
    assert_eq!(p.decided_ms, Some(9));
    // A decision stands.
    assert!(decide(&mut p, "p1", false, 10, None).is_err());
    assert_eq!(p.status, ProposalStatus::Approved);

    let rows = vec![ProposalRow {
        id: "p1".into(),
        status: ProposalStatus::Pending,
        from: "user".into(),
        label: "note".into(),
        summary: "why not".into(),
        rationale: None,
    }];
    assert!(list_proposals("r", &rows, false).contains("why not"));
}

#[test]
fn an_advance_launches_and_closes() {
    let mut r = ranch(vec![ws("api", &[], WorkstreamStatus::Ready, None)]);
    assert_eq!(pick_ready(&r), ["api"]);
    assert_eq!(branch_name("r", "api"), "cowboy/r-api");
    assert!(launched(&mut r, "api", "s1".into(), "cowboy/r-api".into(), "/wt".into()));
    assert_eq!(status_of(&r, "api"), WorkstreamStatus::Running);
    assert!(pick_ready(&r).is_empty());
    assert!(skip_line("api", &Launch::InUse).contains("api"));
    let started = vec![Started {
        workstream: "api".into(),
        session: "s1".into(),
        branch: "cowboy/r-api".into(),
    }];
    assert!(!advance_summary(&r, &started).is_empty());
    settle(&mut r, false, 5);
    assert_eq!(r.updated_ms, 5);
    close_if_done(&mut r, true, 6);
    assert_eq!(r.status, RanchStatus::Complete);
    assert_eq!(attach_session(&r, "r", "api").unwrap(), "s1");
    assert!(attach_session(&r, "r", "ghost").is_err());
}

#[test]
fn plans_are_shown() {
    let r = ranch(vec![
        ws("schema", &[], WorkstreamStatus::Complete, None),
        ws("api", &["schema"], WorkstreamStatus::Ready, None),
    ]);
    let out = show_one(&r, "/p/ranch.yaml", &vec!["api".into()]);
    assert!(out.contains("schema") && out.contains("api"), "{out}");
    assert!(status_table(&vec![r]).contains("r"));
    assert!(new_plan("r", "R", &None, 7).contains("r"));
    assert!(plan_task("ship it").contains("ship it"));
    assert_eq!(truncate("héllo", 2), "h\n…(truncated)");
    assert_eq!(ws_status(WorkstreamStatus::WaitingForUser), "waiting");
}
