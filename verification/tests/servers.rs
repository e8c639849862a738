use cowboy_cli::mcp::{
    add, allowed, check_call, connected_servers, host_lines, list_one, list_one_compact,
    new_server, overview, parse_kv, remove, render_result, review_of, server, server_names,
    set_enabled, test_outcome, test_server, with_project, Arguments, Asked, McpAddArgs, McpConfig, McpServer, McpTransport,
    Tool, Transport,
};
use cowboy_cli::registry::Registry;
use cowboy_cli::trust::{
    pending_heading, project_lines, project_trust, record_file, trust, trusted_lines,
    trusted_servers, untrust, untrust_line, ProjectFile, TrustRecord, TrustState,
};

#[test]
fn parse_kv_splits_pairs() {
    let m = parse_kv(&vec!["A=1".into(), "B=x=y".into()]).unwrap();
    assert_eq!(m.get("A").unwrap(), "1");
    assert_eq!(m.get("B").unwrap(), "x=y"); // only the first `=` splits
    assert!(parse_kv(&vec!["bad".into()]).is_err());
    assert!(parse_kv(&vec!["=v".into()]).is_err());
}

#[test]
fn pairs_are_refused_by_name_and_the_last_counts() {
    assert_eq!(
        parse_kv(&vec!["A=1".into(), "bad".into(), "=v".into()]).unwrap_err(),
        "expected KEY=VALUE, got `bad`"
    );
    assert_eq!(parse_kv(&vec!["=v".into()]).unwrap_err(), "empty key in `=v`");
    let m = parse_kv(&vec!["A=1".into(), "A=2".into()]).unwrap();
    assert_eq!(m.get("A").unwrap(), "2");
    assert_eq!(m.len(), 1);
}

fn stdio(command: &str, args: &[&str], tools: &[&str]) -> McpServer {
    McpServer {
        description: "files".into(),
        enabled: true,
        transport: McpTransport::Stdio {
            command: command.into(),
            args: args.iter().map(|s| s.to_string()).collect(),
            env: Registry::new().insert("TOKEN".to_string(), "${SECRET}".to_string()),
        },
        tools: tools.iter().map(|s| s.to_string()).collect(),
    }
}

fn config(names: &[&str]) -> McpConfig {
    let mut servers = Registry::new();
    for n in names {
        servers = servers.insert(n.to_string(), stdio(n, &[], &["read"]));
    }
    McpConfig { servers }
}

fn fs() -> Registry<McpServer> {
    Registry::new().insert("fs".to_string(), stdio("server-fs", &["/w"], &[]))
}

fn record(servers: Registry<McpServer>) -> Option<TrustRecord> {
    Some(TrustRecord { servers, approved_ms: 1 })
}

#[test]
fn trust_lifecycle_nofile_untrusted_trusted_stale() {
    // No file yet.
    assert_eq!(project_trust(&ProjectFile::Absent, &None), TrustState::NoFile);

    // File present, not trusted.
    assert_eq!(project_trust(&ProjectFile::Servers(fs()), &None), TrustState::Untrusted);

    // Trust it → trusted, and the servers are now returned.
    let approved = trust(ProjectFile::Servers(fs()), 1).unwrap();
    assert!(approved.servers.contains("fs"));
    let kept = Some(approved);
    assert_eq!(project_trust(&ProjectFile::Servers(fs()), &kept), TrustState::Trusted);
    assert!(trusted_servers(ProjectFile::Servers(fs()), &kept).contains("fs"));

    // Change the file → stale (a new server appears).
    let changed = || fs().insert("git".to_string(), stdio("server-git", &[], &[]));
    assert_eq!(project_trust(&ProjectFile::Servers(changed()), &kept), TrustState::Stale);
    assert_eq!(trusted_servers(ProjectFile::Servers(changed()), &kept).len(), 0);

    // Re-trust picks up the new set.
    let kept = Some(trust(ProjectFile::Servers(changed()), 2).unwrap());
    assert_eq!(project_trust(&ProjectFile::Servers(changed()), &kept), TrustState::Trusted);

    // Untrust → back to untrusted; the record is gone.
    let (kept, was) = untrust(kept);
    assert!(was);
    assert_eq!(project_trust(&ProjectFile::Servers(changed()), &kept), TrustState::Untrusted);
    assert!(!untrust(kept).1);
    assert_eq!(untrust_line(true), "revoked trust for this repo's .mcp.json servers");
    assert_eq!(untrust_line(false), "this repo's .mcp.json was not trusted");
    assert_eq!(pending_heading(2, "/r/.mcp.json"), "2 server(s) declared by /r/.mcp.json");
    assert_eq!(trusted_lines(2)[0], "trusted 2 server(s) from .mcp.json");
}

#[test]
fn a_server_is_tried_out_where_it_is_known() {
    let none = || McpConfig { servers: Registry::new() };
    assert_eq!(
        test_server(none(), Registry::new(), "fs").unwrap_err(),
        "no MCP server `fs` (host config, or a trusted .mcp.json)"
    );
    let name = fs().name_at(0).clone();
    let (cfg, said) = test_server(none(), fs(), &name).unwrap();
    assert_eq!(cfg.servers.len(), fs().len());
    assert_eq!(said, format!("connecting to `{name}`…"));
    assert_eq!(test_outcome("fs", Ok("tools".into())).unwrap(), "tools");
    assert_eq!(
        test_outcome("fs", Err("refused".into())).unwrap_err(),
        "could not reach `fs`: refused"
    );
}

#[test]
fn trust_errors_without_a_file() {
    assert!(trust(ProjectFile::Absent, 1).is_err());
    assert_eq!(trusted_servers(ProjectFile::Absent, &None).len(), 0);
    assert_eq!(
        trust(ProjectFile::Unreadable("bad json".into()), 1).unwrap_err(),
        "reading .mcp.json: bad json"
    );
    assert_eq!(
        project_trust(&ProjectFile::Unreadable("bad json".into()), &record(fs())),
        TrustState::Untrusted
    );
}

#[test]
fn any_change_to_a_server_makes_trust_stale() {
    let with = |s: McpServer| ProjectFile::Servers(Registry::new().insert("fs".to_string(), s));
    for changed in [
        stdio("other", &["/w"], &[]),
        stdio("server-fs", &["/"], &[]),
        stdio("server-fs", &["/w"], &["read"]),
        McpServer { enabled: false, ..stdio("server-fs", &["/w"], &[]) },
        McpServer { description: String::new(), ..stdio("server-fs", &["/w"], &[]) },
        McpServer {
            transport: McpTransport::Http { url: "https://x".into(), headers: Registry::new() },
            ..stdio("server-fs", &["/w"], &[])
        },
    ] {
        assert_eq!(project_trust(&with(changed), &record(fs())), TrustState::Stale);
    }
    assert_eq!(
        project_trust(&with(stdio("server-fs", &["/w"], &[])), &record(fs())),
        TrustState::Trusted
    );
}

#[test]
fn trust_is_labelled_and_kept_by_project() {
    assert_eq!(TrustState::NoFile.label(), "none");
    assert_eq!(TrustState::Untrusted.label(), "untrusted");
    assert_eq!(TrustState::Stale.label(), "stale — re-run `cowboy mcp trust`");
    assert_eq!(TrustState::Trusted.label(), "trusted");
    let a = record_file("/a");
    assert_eq!(a.len(), 13);
    assert!(a.ends_with(".json"));
    assert_ne!(a, record_file("/b"));
    let lines =
        project_lines(TrustState::Stale, &fs(), &vec!["stdio: server-fs".into()], &fs());
    assert_eq!(
        lines,
        [
            "\nProject servers (.mcp.json) — stale — re-run `cowboy mcp trust`:",
            "  fs  stdio: server-fs  (shadowed by host config)",
            "  → review and enable with `cowboy mcp trust`",
        ]
    );
}

fn args(transport: Transport) -> McpAddArgs {
    McpAddArgs {
        name: "fs".into(),
        transport,
        description: None,
        command: Some("server-fs".into()),
        args: vec![],
        env: vec!["A=1".into()],
        url: Some("https://x".into()),
        header: vec![],
        tools: vec![],
    }
}

#[test]
fn a_server_needs_what_its_transport_needs() {
    assert!(new_server(args(Transport::Stdio)).unwrap().1.enabled);
    assert_eq!(
        new_server(McpAddArgs { command: None, ..args(Transport::Stdio) }).unwrap_err(),
        "`--command` is required for a stdio server"
    );
    assert_eq!(
        new_server(McpAddArgs { url: None, ..args(Transport::Http) }).unwrap_err(),
        "`--url` is required for an http server"
    );
    assert_eq!(
        new_server(McpAddArgs { env: vec!["x".into()], ..args(Transport::Stdio) }).unwrap_err(),
        "parsing --env: expected KEY=VALUE, got `x`"
    );
    assert_eq!(
        new_server(McpAddArgs { header: vec!["=y".into()], ..args(Transport::Http) }).unwrap_err(),
        "parsing --header: empty key in `=y`"
    );
}

#[test]
fn servers_are_added_removed_and_switched() {
    let (cfg, said) = add(config(&["a"]), "b".into(), stdio("b", &[], &[]));
    assert_eq!(said, "added MCP server `b`");
    let (cfg, said) = add(cfg, "a".into(), stdio("a2", &[], &[]));
    assert_eq!(said, "updated MCP server `a`");
    let cfg = set_enabled(cfg, "a", false).unwrap();
    assert!(!cfg.servers.get("a").unwrap().enabled);
    assert!(cfg.servers.get("b").unwrap().enabled);
    assert_eq!(server_names(&cfg), ["b"]);
    assert_eq!(connected_servers(&cfg), [("b".to_string(), "files".to_string())]);
    assert_eq!(server(&cfg, "a").unwrap_err(), "MCP server `a` is disabled");
    assert_eq!(server(&cfg, "z").unwrap_err(), "no MCP server `z` (configured: b)");
    assert!(server(&cfg, "b").is_ok());
    let cfg = remove(cfg, "b").unwrap();
    assert_eq!(remove(cfg, "b").unwrap_err(), "no MCP server `b`");
    assert!(set_enabled(config(&[]), "a", true).is_err());
}

#[test]
fn the_users_servers_go_before_the_projects() {
    let host = McpConfig { servers: Registry::new().insert("fs".to_string(), stdio("mine", &[], &[])) };
    let project = fs().insert("git".to_string(), stdio("server-git", &[], &[]));
    let all = with_project(host, project);
    assert_eq!(all.servers.len(), 2);
    assert!(matches!(
        &all.servers.get("fs").unwrap().transport,
        McpTransport::Stdio { command, .. } if command == "mine"
    ));
    assert!(all.servers.contains("git"));
}

#[test]
fn a_review_names_settings_and_never_shows_them() {
    let shown = review_of(&stdio("npx", &["-y", "pkg"], &["read", "write"]));
    assert_eq!(
        shown,
        [
            ("purpose".to_string(), "files".to_string()),
            ("runs (stdio)".to_string(), "npx -y pkg".to_string()),
            ("env".to_string(), "TOKEN".to_string()),
            ("tools".to_string(), "read, write".to_string()),
        ]
    );
    assert!(!shown.iter().any(|(_, v)| v.contains("SECRET")));
    let lines = host_lines(&config(&["fs"]), &vec!["stdio: fs".into()]);
    assert_eq!(
        lines,
        [
            "Host servers (~/.config/cowboy/mcp.yaml):",
            "  fs  [enabled]  stdio: fs  tools: read",
            "      files",
        ]
    );
    assert_eq!(host_lines(&config(&[]), &vec![]).len(), 3);
}

fn tool(name: &str, description: Option<&str>) -> Tool {
    Tool {
        name: name.into(),
        description: description.map(String::from),
        schema: "{}".into(),
    }
}

#[test]
fn tools_are_listed_as_far_as_they_are_allowed() {
    assert!(allowed(&vec![], "anything"));
    assert!(allowed(&vec!["read".into()], "read"));
    assert!(!allowed(&vec!["read".into()], "write"));
    let tools = vec![tool("read", Some("  Reads.\nMore.")), tool("write", None)];
    assert_eq!(
        list_one("fs", &vec!["read".into()], &tools),
        "# MCP server `fs` tools\n\n## read\n  Reads.\nMore.\ninput schema:\n{}\n\nCall one with: mcp { \"action\": \"call\", \"server\": \"fs\", \"tool\": \"<name>\", \"arguments\": { … } }\n"
    );
    assert!(list_one("fs", &vec!["none".into()], &tools).contains("(no tools exposed)"));
    assert_eq!(
        list_one_compact("fs", &vec![], &tools),
        "## fs\n  - read: Reads.\n  - write: \n"
    );
    let asked = vec![
        Asked { name: "a".into(), answer: Ok("## a\n".into()) },
        Asked { name: "b".into(), answer: Err("refused".into()) },
    ];
    assert_eq!(overview(&asked), "## a\n## b\n  (unreachable: refused)\n");
    assert_eq!(overview(&vec![]), "no MCP servers are enabled.");
}

#[test]
fn only_an_allowed_call_with_an_object_goes_out() {
    let cfg = config(&["fs"]);
    assert_eq!(
        check_call(&cfg, "fs", "read", Some(Arguments::Object("{}".into()))).unwrap(),
        Some("{}".to_string())
    );
    assert_eq!(check_call(&cfg, "fs", "read", Some(Arguments::Null)).unwrap(), None);
    assert_eq!(check_call(&cfg, "fs", "read", None).unwrap(), None);
    assert_eq!(
        check_call(&cfg, "fs", "write", None).unwrap_err(),
        "tool `write` is not in `fs`'s allowlist (read)"
    );
    assert_eq!(
        check_call(&cfg, "fs", "read", Some(Arguments::Other("[1]".into()))).unwrap_err(),
        "`arguments` must be a JSON object, got: [1]"
    );
    assert!(check_call(&cfg, "nope", "read", None).is_err());
}

#[test]
fn results_become_one_text() {
    assert_eq!(render_result(&vec!["a".into(), "b".into()], &Some("{}".into()), None), "a\nb");
    assert_eq!(render_result(&vec![], &Some("{}".into()), None), "{}");
    assert_eq!(render_result(&vec![], &None, None), "(tool returned no textual content)");
    assert_eq!(
        render_result(&vec!["a".into()], &None, Some(true)),
        "[tool reported an error]\na"
    );
    assert_eq!(render_result(&vec!["a".into()], &None, Some(false)), "a");
}
