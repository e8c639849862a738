use base64::Engine;
use sha2::{Digest, Sha256};

use cowboy_cli::journal::{
    bridge_step, event_frame, record_bytes, reports_done, valid_subagent, watch_ends, BridgeStep,
    LineTail, Lookup, ParentEvent, Stream, Watch,
};
use cowboy_cli::ranch::SessionStatus;
use cowboy_cli::sessions::{
    any_ranch, browse, cleanup_lines, cleanup_report, id_started_ms, list_cells, merge_rows,
    status_tint, truncate, BrowserRow, CleanupReply, DiskSession, ListReply, SessionInfo, ShortList,
    Tint,
};
use cowboy_cli::web::{
    authed, csp, ct_eq, guard_bind, hardening, hash_inline_scripts, is_loopback, is_tailscale,
    mime, strip_html_comments, web_on, Ip, WebConfig,
};

fn daemon_session(root: &str, id: &str, status: SessionStatus) -> SessionInfo {
    SessionInfo {
        id: id.into(),
        root: root.into(),
        task: Some("daemon task".into()),
        status,
        pid: None,
        branch: None,
        session_name: None,
        worker_sock: None,
        journal_path: None,
        lease_mode: None,
        started_ms: id_started_ms(id),
        last_heartbeat_ms: 0,
        turn: 2,
        tokens: (0, 0),
        attached_clients: 0,
        diffstat: String::new(),
        running_command: None,
        blocked_reason: None,
        ranch_id: None,
        workstream_id: None,
    }
}

fn disk_session(id: &str) -> DiskSession {
    DiskSession {
        id: id.into(),
        started_ms: id_started_ms(id),
        activity: "3 msg · 1 cmd".into(),
        attention: "incomplete".into(),
        summary: "disk summary".into(),
    }
}

#[test]
fn merged_rows_deduplicate_by_root_and_id_with_daemon_authoritative() {
    let root = "/tmp/x";
    let mut live = daemon_session(root, "200-1", SessionStatus::AwaitingInput);
    live.turn = 7;
    let rows = merge_rows(&vec![live], &vec![disk_session("200-1")], root);

    assert_eq!(rows.len(), 1);
    assert_eq!(rows[0].daemon.as_ref().unwrap().status, SessionStatus::AwaitingInput);
    assert!(rows[0].disk.is_some());
    assert_eq!(rows[0].activity, "turn 7");
    assert_eq!(rows[0].attention, "input needed");
    assert_eq!(rows[0].source_action(), "daemon+disk → attach");
}

#[test]
fn merged_rows_keep_same_id_from_different_roots_and_sort_newest_first() {
    let current = "/tmp/current";
    let other = "/tmp/other";
    let rows = merge_rows(
        &vec![
            daemon_session(other, "100-1", SessionStatus::Completed),
            daemon_session(other, "300-1", SessionStatus::Running),
        ],
        &vec![disk_session("100-1"), disk_session("200-1")],
        current,
    );

    assert_eq!(
        rows.iter().take(2).map(|row| row.id.as_str()).collect::<Vec<_>>(),
        ["300-1", "200-1"]
    );
    assert_eq!(rows[1].source_action(), "current disk → replay");
    assert!(rows[1].project_task().ends_with(" · disk summary"));
    let mut duplicate_sources: Vec<_> = rows
        .iter()
        .filter(|row| row.id == "100-1")
        .map(BrowserRow::source_action)
        .collect();
    duplicate_sources.sort();
    assert_eq!(duplicate_sources, ["current disk → replay", "daemon → replay"]);
}

#[test]
fn sessions_are_listed_in_cells() {
    assert_eq!(id_started_ms("1700-3"), 1700);
    assert_eq!(id_started_ms("odd"), 0);
    assert_eq!(truncate("abcdef", 4), "abc…");
    assert_eq!(truncate("abc", 4), "abc");
    assert_eq!(status_tint(SessionStatus::Failed), Tint::Red);
    let s = daemon_session("/p", "1-1", SessionStatus::Running);
    let (head, tail) = list_cells(&s, false);
    assert!(head.contains("1-1"), "{head}");
    assert!(tail.contains("daemon task"), "{tail}");
    assert!(!any_ranch(&vec![s]));
}

#[test]
fn stale_sessions_are_reported() {
    let v = |s: &[&str]| s.iter().map(|x| x.to_string()).collect::<Vec<_>>();
    assert_eq!(cleanup_lines(false, &v(&[]), &v(&["k"])), ["no stale sessions to reap"]);
    assert_eq!(
        cleanup_lines(true, &v(&["a", "b"]), &v(&["k"])),
        [
            "would reap 2 stale session(s):",
            "  a",
            "  b",
            "would free 1 worktree lease(s):",
            "  k",
            "\nworktrees and branches are left untouched; end orphaned sessions with `cowboy down`.",
        ]
    );
    assert_eq!(cleanup_lines(false, &v(&["a"]), &v(&[]))[0], "reaped 1 stale session(s):");
    let cleaned = CleanupReply::Cleaned { reclaimed: v(&[]), released: v(&[]) };
    assert_eq!(cleanup_report(false, &cleaned).unwrap(), ["no stale sessions to reap"]);
    assert_eq!(
        cleanup_report(true, &CleanupReply::Unreachable).unwrap(),
        ["nothing to clean up (cowboyd not running)"]
    );
    assert_eq!(
        cleanup_report(true, &CleanupReply::Other("Pong".into())).unwrap_err(),
        "unexpected daemon response: Pong"
    );
}

#[test]
fn all_sessions_are_browsed() {
    let scope = "daemon scope: all known projects · disk history: current project only (/p)";
    let none = browse(ListReply::Unreachable, &vec![], "/p").unwrap();
    assert_eq!(
        none.notes,
        [scope, "cowboyd unavailable; showing current-project disk history"]
    );
    assert!(matches!(none.list, ShortList::Line("no sessions")));
    assert_eq!(
        browse(ListReply::Other("Pong".into()), &vec![], "/p").unwrap_err(),
        "unexpected daemon response: Pong"
    );
    let mut live = daemon_session("/q", "300-1", SessionStatus::AwaitingInput);
    live.task = Some("t".repeat(60));
    let all = browse(ListReply::Sessions(vec![live]), &vec![disk_session("200-1")], "/p").unwrap();
    assert_eq!(all.notes, [scope]);
    let ShortList::Table { head, rows } = all.list else { panic!("no table") };
    assert_eq!(
        head,
        format!(
            "{:<22} {:<11} {:<20} {:<18} {:<22} PROJECT / TASK",
            "ID", "STATUS", "ACTIVITY", "ATTENTION", "SOURCE / ACTION"
        )
    );
    assert_eq!(rows.len(), 2);
    assert_eq!(rows[0].before, format!("{:<22} ", "300-1"));
    assert_eq!((rows[0].status.as_str(), rows[0].tint), ("input      ", Tint::Yellow));
    assert_eq!(
        rows[0].behind,
        format!(
            " {:<20} {:<18} {:<22} /q · {}…",
            "turn 2",
            "input needed",
            "daemon → attach",
            "t".repeat(40)
        )
    );
    assert_eq!((rows[1].status.as_str(), rows[1].tint), ("saved      ", Tint::Dim));
    assert!(rows[1].behind.ends_with(" current disk → replay  /p · disk summary"));
}

#[test]
fn a_watch_ends_with_its_parent() {
    let mut w = Watch::new(true, 0);
    // However long it is quiet, a live parent keeps it open.
    assert!(!w.asks(999) && w.asks(1000));
    assert!(!w.step(5000, false, false, true));
    assert!(!w.asks(5999));
    // Once reported done it is drained, and a line starts the quiet anew.
    assert!(!w.step(5100, true, true, false));
    assert!(w.parent_live && !w.step(5699, false, false, false));
    assert!(w.step(5700, false, false, false));
    let mut gone = Watch::new(true, 0);
    assert!(gone.step(1000, false, false, false));
    assert!(!gone.parent_live);
}

#[test]
fn inline_script_hashing_ignores_comments_and_external_scripts() {
    // A comment explaining the policy legitimately contains the markup it warns
    // about; hashing that would mint an allowance for text no browser executes.
    let hashes = hash_inline_scripts(
        r#"<!-- an inline <script>evil()</script> would need unsafe-inline -->
               <script src="viewport.js"></script>
               <script type="module">boot()</script>"#,
    );
    assert_eq!(hashes.len(), 1, "only the real inline body: {hashes:?}");
    // Pinned against a known value so a change in digest or encoding is visible.
    assert_eq!(
        hashes[0],
        format!(
            "'sha256-{}'",
            base64::engine::general_purpose::STANDARD.encode(Sha256::digest(b"boot()"))
        )
    );
}

#[test]
fn the_policy_allows_what_is_hashed_and_nothing_inline() {
    let hashes = hash_inline_scripts("<script>a()</script><script>b()</script>");
    assert_eq!(hashes.len(), 2);
    let policy = csp(&hashes);
    for h in &hashes {
        assert!(policy.contains(h.as_str()), "{h} missing from: {policy}");
    }
    let script_src =
        policy.split("script-src").nth(1).and_then(|s| s.split(';').next()).unwrap_or_default();
    assert!(!script_src.contains("'unsafe-inline'"), "script-src must stay strict: {script_src}");
    let headers = hardening(policy.clone());
    assert!(headers.iter().any(|(_, v)| *v == policy));
    assert_eq!(strip_html_comments("a<!-- b -->c<!-- open"), "ac");
    assert_eq!(mime("app.wasm"), "application/wasm");
}

/// The address that a text writes: four numbers, or groups with one gap.
fn ip(s: &str) -> Ip {
    if !s.contains(':') {
        let v: Vec<u8> = s.split('.').map(|n| n.parse().unwrap()).collect();
        return Ip::V4([v[0], v[1], v[2], v[3]]);
    }
    let (a, b) = s.split_once("::").unwrap();
    let groups = |t: &str| -> Vec<u16> {
        t.split(':').filter(|g| !g.is_empty()).map(|g| u16::from_str_radix(g, 16).unwrap()).collect()
    };
    let (head, tail) = (groups(a), groups(b));
    let mut all = [0u16; 8];
    for (i, g) in head.iter().enumerate() {
        all[i] = *g;
    }
    for (i, g) in tail.iter().enumerate() {
        all[8 - tail.len() + i] = *g;
    }
    Ip::V6(all)
}

fn guard(s: &str, allow_lan: bool) -> Result<(), String> {
    guard_bind(&ip(s), s, allow_lan)
}

#[test]
fn bind_guard_allows_loopback_and_tailscale_refuses_lan() {
    // loopback
    assert!(guard("127.0.0.1", false).is_ok());
    assert!(guard("::1", false).is_ok());
    // tailscale v4 (100.64.0.0/10) + v6 ULA
    assert!(guard("100.101.102.103", false).is_ok());
    assert!(guard("fd7a:115c:a1e0::1", false).is_ok());
    // a non-tailscale 100.x outside the /10 is NOT tailscale (100.128.x is /9-ish)
    assert!(guard("100.128.0.1", false).is_err());
    // plain LAN refused without the opt-in, allowed with it
    assert!(guard("192.168.1.50", false).is_err());
    assert!(guard("192.168.1.50", true).is_ok());
    assert!(guard("0.0.0.0", false).is_err());
    assert!(is_loopback(&ip("127.8.8.8")) && !is_loopback(&ip("128.0.0.1")));
    assert!(is_tailscale(&ip("100.64.0.0")) && !is_tailscale(&ip("fd7a:115c:a1e1::1")));
}

#[test]
fn auth_accepts_header_or_query_constant_time() {
    let token = "secret-token";
    // no creds
    assert!(!authed(token, &None, &None));
    // query param
    assert!(authed(token, &None, &Some("secret-token".into())));
    assert!(!authed(token, &None, &Some("wrong".into())));
    // bearer header
    assert!(authed(token, &Some("Bearer secret-token".into()), &None));
    assert!(!authed(token, &Some("Bearer wrong".into()), &None));
    assert!(ct_eq("é", "é") && !ct_eq("a", "ab") && !ct_eq("a", "b"));
}

#[test]
fn turning_the_page_on_keeps_its_token() {
    let cfg = |token: &str| WebConfig {
        enabled: false,
        bind: "127.0.0.1:7070".into(),
        allow_lan: false,
        token: token.into(),
    };
    let on = web_on(cfg(""), None, false, "fresh".into());
    assert!(on.enabled);
    assert_eq!(on.token, "fresh");
    assert_eq!(on.bind, "127.0.0.1:7070");
    let on = web_on(cfg("old"), Some("0.0.0.0:1".into()), true, "fresh".into());
    assert_eq!(on.token, "old");
    assert_eq!(on.bind, "0.0.0.0:1");
    assert!(on.allow_lan);
}

fn json(s: &str) -> serde_json::Value {
    serde_json::from_str(s).unwrap()
}

#[test]
fn journal_lines_always_yield_a_frame_at_their_seq() {
    let known = json(&event_frame(
        3,
        &br#"{"notice":"hi"}"#.to_vec(),
        &Some(r#"{"event":{"seq":3,"event":{"notice":"hi"}}}"#.to_string()),
    ));
    assert_eq!(known, json(r#"{"event":{"seq":3,"event":{"notice":"hi"}}}"#));
    let raw = json(&event_frame(3, &br#"{"notice":"hi"}"#.to_vec(), &None));
    assert_eq!(raw, known);
    // A newer build's variant: forwarded raw, for the client to skip by seq.
    let unknown = json(&event_frame(4, &br#"{"from_the_future":{"x":1}}"#.to_vec(), &None));
    assert_eq!(unknown, json(r#"{"event":{"seq":4,"event":{"from_the_future":{"x":1}}}}"#));
    // Not JSON: a notice, still at its seq.
    let garbage = json(&event_frame(5, &b"not json{".to_vec(), &None));
    assert_eq!(garbage, json(r#"{"event":{"seq":5,"event":{"notice":"(unreadable journal line)"}}}"#));
}

#[test]
fn a_stream_resumes_where_it_was_left_without_gaps() {
    let seqs = |frames: &Vec<String>| -> Vec<u64> {
        frames.iter().map(|f| json(f)["event"]["seq"].as_u64().unwrap()).collect()
    };
    let ls: Vec<Vec<u8>> = vec![b"{}".to_vec(), b"not json{".to_vec(), b"{\"a\":1}".to_vec()];
    let none = vec![None, None, None];
    let mut s = Stream::new(None);
    assert_eq!(seqs(&s.frames(&ls, &none)), [0, 1, 2]);
    assert_eq!(seqs(&s.frames(&ls, &none)), [3, 4, 5]);
    let mut s = Stream::new(Some(2));
    assert_eq!(seqs(&s.frames(&ls, &none)), [2]);
}

#[test]
fn lines_do_not_depend_on_how_they_are_read() {
    let feed = |parts: &[&[u8]]| {
        let mut t = LineTail::new();
        let mut out: Vec<Vec<u8>> = Vec::new();
        for p in parts {
            out.extend(t.feed(p));
        }
        out
    };
    assert_eq!(feed(&[b"a\nbb\nc"]), feed(&[b"a", b"\nb", b"b\n", b"c"]));
    assert_eq!(feed(&[b"a\nbb\nc"]), [b"a".to_vec(), b"bb".to_vec()]);
    assert_eq!(record_bytes(&b"a\r".to_vec()), b"a".to_vec());
}

#[test]
fn a_bridge_replays_retries_or_ends() {
    let step = |l: Lookup, expired: bool| bridge_step(l, "refused", "/s.sock".into(), expired);
    assert!(matches!(step(Lookup::Unknown, false), BridgeStep::Ended(m) if m == "worker unreachable: refused"));
    assert!(matches!(
        step(Lookup::Over { status: SessionStatus::Completed, has_journal: true }, false),
        BridgeStep::Replay
    ));
    assert!(matches!(
        step(Lookup::Live { worker_sock: None }, false),
        BridgeStep::Retry(s) if s == "/s.sock"
    ));
    assert!(matches!(step(Lookup::Live { worker_sock: None }, true), BridgeStep::Close));
    assert!(valid_subagent("sub-1"));
    assert!(!valid_subagent("../x"));
    assert!(reports_done(&ParentEvent::SubagentDone("a".into()), "a"));
    assert!(!reports_done(&ParentEvent::SubagentDone("b".into()), "a"));
    assert!(!reports_done(&ParentEvent::Other, "a"));
    assert!(!watch_ends(true, false, 1_000_000));
    assert!(watch_ends(false, false, 1_000_000));
    assert!(!watch_ends(false, true, 0));
}
