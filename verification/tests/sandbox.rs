use cowboy_cli::approvals::{
    append, approvals_file, merge_into, Approval, DefaultVerdict, DnsPolicy, NetworkAttempt,
    NetworkPolicy, RuleSet,
};
use cowboy_cli::control::{
    decision, receive, Action, ApprovalScope, Connection, GatewayMessage, Reply, Verdict,
};
use cowboy_cli::grant::{granted_lines, list as list_grants, removed_lines, request, GrantArgs, Request, SavedGrant};
use cowboy_cli::localsock::{
    ensure_private_dir, peer_is_ours, readable, verify_ours, Distrust, FileFacts,
};
use cowboy_cli::sandbox::{describe, egress_section, summary};
use cowboy_cli::secrets::{
    add, collect, list as list_secrets, preset, repo_lines, written_lines, EnvGrant, FileGrant,
    SecretsAddArgs, Source, UserSecrets,
};

fn attempt(host: &str) -> NetworkAttempt {
    NetworkAttempt { host: Some(host.to_string()), ip: None, port: 443 }
}

#[test]
fn append_and_load_roundtrip() {
    let mut all: Vec<Approval> = Vec::new();
    assert!(append(&mut all, &attempt("example.com")));
    assert!(!append(&mut all, &attempt("example.com"))); // dedup
    assert_eq!(all.len(), 1);
    assert_eq!(all[0].host.as_deref(), Some("example.com"));
}

#[test]
fn an_address_is_approved_alone_and_only_without_a_host() {
    let mut all: Vec<Approval> = Vec::new();
    append(&mut all, &NetworkAttempt { host: None, ip: Some("9.9.9.9".into()), port: 53 });
    append(
        &mut all,
        &NetworkAttempt { host: Some("a.test".into()), ip: Some("9.9.9.9".into()), port: 53 },
    );
    append(&mut all, &NetworkAttempt { host: None, ip: Some("9.9.9.9".into()), port: 54 });
    assert_eq!(
        all,
        [
            Approval { host: None, cidr: Some("9.9.9.9/32".into()), port: 53 },
            Approval { host: Some("a.test".into()), cidr: None, port: 53 },
            Approval { host: None, cidr: Some("9.9.9.9/32".into()), port: 54 },
        ]
    );
    assert!(approvals_file("/p").ends_with(".json"));
}

fn rules(domains: &[&str], ports: &[u16]) -> RuleSet {
    RuleSet {
        domains: domains.iter().map(|s| s.to_string()).collect(),
        cidrs: vec![],
        ports: ports.to_vec(),
    }
}

fn policy() -> NetworkPolicy {
    NetworkPolicy {
        default_external: DefaultVerdict::Ask,
        default_private_lan: DefaultVerdict::Deny,
        default_host: DefaultVerdict::Deny,
        allow: rules(&[], &[]),
        deny: rules(&[], &[]),
        dns: DnsPolicy {
            enforce: true,
            allowed_qtypes: vec!["A".into(), "AAAA".into()],
            tunnel_detection: true,
        },
        approved: vec![],
    }
}

fn two_approvals() -> Vec<Approval> {
    vec![
        Approval { host: Some("a.test".into()), cidr: None, port: 443 },
        Approval { host: None, cidr: Some("9.9.9.9/32".into()), port: 53 },
    ]
}

#[test]
fn approvals_merge_as_scoped_endpoints_not_into_the_allow_rules() {
    let mut policy = policy();
    policy.allow = rules(&["github.com"], &[443]);
    let approvals = two_approvals();
    merge_into(&mut policy, &approvals);

    // Merging approvals must not rewrite the policy's own allow rules.
    assert_eq!(policy.allow.domains, ["github.com"]);
    assert_eq!(policy.allow.ports, [443]);
    assert!(policy.allow.cidrs.is_empty());
    assert_eq!(policy.approved, approvals);
}

#[test]
fn merging_the_same_approvals_twice_is_idempotent() {
    let mut policy = policy();
    let approvals = vec![Approval { host: Some("a.test".into()), cidr: None, port: 443 }];
    merge_into(&mut policy, &approvals);
    merge_into(&mut policy, &approvals);
    assert_eq!(policy.approved.len(), 1);
}

#[test]
fn the_boundary_is_shown_as_it_is() {
    let mut p = policy();
    let names: Vec<String> = (0..14).map(|i| format!("h{i}.test")).collect();
    p.allow = RuleSet { domains: names, cidrs: vec!["10.0.0.0/8".into()], ports: vec![80, 443] };
    let out = egress_section(&p, &two_approvals());
    assert_eq!(
        out,
        "\negress\n  external      ask (prompts you; denies with no answer)\n  private lan   deny\n  host          deny\n  allow         14 domain(s) · 1 cidr(s) · ports [80, 443]\n                  h0.test\n                  h1.test\n                  h2.test\n                  h3.test\n                  h4.test\n                  h5.test\n                  h6.test\n                  h7.test\n                  h8.test\n                  h9.test\n                  h10.test\n                  h11.test\n                  … 2 more\n  approved      2 endpoint(s) you allowed for this project\n  dns           allowlist enforced · qtypes A,AAAA · tunnel detection on\n  the session netns holds no host-connected device: egress exists only\n  through the relay, so a transport that fails to install leaves no egress\n"
    );
    assert_eq!(summary(DefaultVerdict::Allow), "🔒 egress open");
    assert_eq!(summary(DefaultVerdict::Ask), "🔒 egress ask");
    assert_eq!(describe("plan\n", false, false, "e"), "plan\ne");
    assert_eq!(describe("plan\n", true, true, "e"), "plan\ne");
    assert!(describe("plan\n", true, false, "e").contains("NOT ENFORCED"));
}

#[test]
fn authenticated_ask_gets_routed_and_decision_returned() {
    let hello = |t: &str| Some(GatewayMessage::Hello { token: t.to_string() });
    let ask = || {
        Some(GatewayMessage::Ask { id: 42, attempt: attempt("example.com"), reason: None })
    };
    let (c, a) = receive(Connection::New, "s3cret", hello("s3cret"));
    assert_eq!(c, Connection::Open);
    assert!(matches!(a, Action::Ignore));
    let (c, a) = receive(c, "s3cret", ask());
    assert!(matches!(
        a,
        Action::Route { id: 42, attempt, .. } if attempt.host.as_deref() == Some("example.com")
    ));
    let event = GatewayMessage::Event {
        attempt: attempt("x"),
        verdict: Verdict::Deny,
        reason: "metadata".into(),
    };
    let (c, a) = receive(c, "s3cret", Some(event));
    assert!(matches!(
        a,
        Action::Report { verdict: Verdict::Deny, reason, .. } if reason == "metadata"
    ));
    let (c, a) = receive(c, "s3cret", Some(GatewayMessage::Malformed));
    assert!(matches!(a, Action::Ignore));
    let (c, _) = receive(c, "s3cret", None);
    assert_eq!(c, Connection::Closed);
    assert_eq!(
        decision(Reply::Answered(Verdict::Allow, ApprovalScope::Session)),
        (Verdict::Allow, ApprovalScope::Session)
    );
    // Nobody to ask: fail closed.
    assert_eq!(decision(Reply::Nobody), (Verdict::Deny, ApprovalScope::Once));
    assert_eq!(decision(Reply::Dropped), (Verdict::Deny, ApprovalScope::Once));
}

#[test]
fn wrong_token_is_dropped_without_a_decision() {
    let hello = GatewayMessage::Hello { token: "wrong".into() };
    let (c, a) = receive(Connection::New, "right", Some(hello));
    assert_eq!(c, Connection::Closed);
    assert!(matches!(a, Action::Drop));
    let ask = GatewayMessage::Ask { id: 1, attempt: attempt("x"), reason: None };
    let (c, a) = receive(c, "right", Some(ask));
    assert_eq!(c, Connection::Closed);
    assert!(matches!(a, Action::Ignore));
    let ask = GatewayMessage::Ask { id: 1, attempt: attempt("x"), reason: None };
    let (c, a) = receive(Connection::New, "right", Some(ask));
    assert_eq!(c, Connection::Closed);
    assert!(matches!(a, Action::Drop));
}

fn dir(uid: u32, mode: u32) -> FileFacts {
    FileFacts { is_symlink: false, is_dir: true, is_socket: false, uid, mode }
}

#[test]
fn control_directories_are_ours_alone() {
    assert_eq!(ensure_private_dir("/run", &dir(7, 0o40700), 7), Ok(None));
    // One that others can read is tightened.
    assert_eq!(ensure_private_dir("/run", &dir(7, 0o40755), 7), Ok(Some(0o700)));
    let link = FileFacts { is_symlink: true, ..dir(7, 0o40700) };
    let err = ensure_private_dir("/run", &link, 7).expect_err("a link must be refused");
    assert!(err.contains("not a real directory"), "{err}");
    assert_eq!(
        ensure_private_dir("/run", &dir(8, 0o40700), 7).unwrap_err(),
        "/run is owned by uid 8, not by you; refusing to put a control socket there"
    );
    let sock = FileFacts { is_dir: false, is_socket: true, ..dir(7, 0o600) };
    assert!(verify_ours("/s", &sock, 7).is_ok());
    assert!(verify_ours("/s", &sock, 8).unwrap_err().contains("owned by uid 7"));
    assert_eq!(
        verify_ours("/s", &dir(7, 0), 7).unwrap_err(),
        "/s is not a socket; refusing to talk to it"
    );
    assert!(peer_is_ours(Some(7), 7));
    assert!(!peer_is_ours(Some(0), 7));
    assert!(!peer_is_ours(None, 7));
}

#[test]
fn what_others_could_write_is_not_believed() {
    assert_eq!(readable(false, &None, 7), Ok(()));
    assert_eq!(readable(true, &Some(dir(7, 0o40755)), 7), Ok(()));
    assert_eq!(readable(true, &None, 7), Err(Distrust::Unknown));
    assert_eq!(readable(true, &Some(dir(8, 0o40700)), 7), Err(Distrust::Foreign));
    assert_eq!(readable(true, &Some(dir(7, 0o40775)), 7), Err(Distrust::WritableByOthers));
    assert_eq!(readable(true, &Some(dir(7, 0o40702)), 7), Err(Distrust::WritableByOthers));
    let link = FileFacts { is_symlink: true, ..dir(7, 0o40700) };
    assert_eq!(readable(true, &Some(link), 7), Err(Distrust::NotReal));
    assert_eq!(Distrust::Foreign.why(), "owned by another user");
}

fn asked(preset: Option<&str>, env: &[&str], file: &[&str]) -> SecretsAddArgs {
    SecretsAddArgs {
        preset: preset.map(String::from),
        env: env.iter().map(|s| s.to_string()).collect(),
        file: file.iter().map(|s| s.to_string()).collect(),
    }
}

#[test]
fn grants_are_collected_from_presets_and_flags() {
    let c = collect(&asked(Some("gh"), &["A", "B=HOST_B"], &["~/x/key.pem", "/k:/tmp/k:z"])).unwrap();
    let pair = |a: &str, b: &str| (a.to_string(), b.to_string());
    assert_eq!(c.env, [pair("A", "A"), pair("B", "HOST_B")]);
    assert_eq!(c.env_cmd, [pair("GH_TOKEN", "gh auth token")]);
    assert_eq!(
        c.files,
        [
            pair("~/.config/gh", "/tmp/.config/gh"),
            pair("~/x/key.pem", "/tmp/key.pem"),
            pair("/k", "/tmp/k:z"),
        ]
    );
    assert_eq!(c.domains, ["api.github.com", "github.com"]);
    assert!(c.notes[0].starts_with("gh: your GitHub CLI auth"));
    assert_eq!(collect(&asked(None, &[], &["/"])).unwrap().files, [pair("/", "/tmp/cred")]);
    assert_eq!(
        collect(&asked(Some("nope"), &[], &[])).unwrap_err(),
        "unknown preset \"nope\"; try: gh, gcloud, kubectl, aws, git, ssh"
    );
    assert_eq!(
        collect(&asked(None, &[], &[])).unwrap_err(),
        "nothing to add; give a preset (gh, gcloud, kubectl, aws, git, ssh) or --env/--file"
    );
    for name in ["gh", "gcloud", "kubectl", "aws", "git", "ssh"] {
        assert!(preset(name).is_some());
    }
    assert!(preset("svn").is_none());
}

#[test]
fn adding_a_grant_twice_adds_it_once() {
    let allow = RuleSet { domains: vec![], cidrs: vec!["10.0.0.0/8".into()], ports: vec![443] };
    let mut us = UserSecrets { env: vec![], files: vec![], allow };
    let c = collect(&asked(Some("gh"), &["A=B"], &[])).unwrap();
    add(&mut us, &c);
    add(&mut us, &c);
    assert_eq!(us.env.len(), 2);
    assert_eq!(us.files.len(), 1);
    assert!(us.files[0].read_only && !us.files[0].required);
    assert_eq!(us.allow.domains.len(), 2);
    assert_eq!((us.allow.cidrs.len(), us.allow.ports.len()), (1, 1));
    assert!(us.env.iter().all(|e| e.approval.is_none()) && us.files[0].approval.is_none());
    // A variable that is granted stays as it is.
    add(&mut us, &collect(&asked(None, &["A=OTHER"], &[])).unwrap());
    assert_eq!(us.env[0].source_env, "B");
    assert_eq!(us.env[1].source_command.as_deref(), Some("gh auth token"));
    // So does the answer that it needs.
    us.env[0].approval = Some("required".into());
    us.files[0].approval = Some("required".into());
    add(&mut us, &collect(&asked(Some("gh"), &["A=B", "C=D"], &[])).unwrap());
    assert_eq!(us.env.len(), 3);
    assert!(us.env[0].needs_approval() && us.files[0].needs_approval());
    assert!(!us.env[2].needs_approval());
}

#[test]
fn grants_are_shown() {
    let c = collect(&asked(Some("gh"), &["A=B"], &[])).unwrap();
    assert_eq!(
        repo_lines(&c),
        [
            "# Add the following to .cowboy/security.yaml (host-owned, never mounted).\n",
            "# Under `secrets:` —",
            "  env:",
            "    - name: A",
            "      source_env: B",
            "    - name: GH_TOKEN",
            "      source_command: \"gh auth token\"",
            "  files:",
            "    - source: ~/.config/gh",
            "      target: /tmp/.config/gh",
            "      read_only: true",
            "\n# Under `network_policy.allow.domains:` —",
            "    - api.github.com",
            "    - github.com",
            "\n# gh: your GitHub CLI auth (config read-only + GH_TOKEN from the keyring).",
        ]
    );
    assert_eq!(
        written_lines("/g.yaml", true, &vec!["n".into()]),
        [
            "✓ wrote credential grant to /g.yaml",
            "  applies to all projects (merged with the repo's security.yaml at session start)",
            "  n",
        ]
    );
    let env = |cmd: Option<&str>| EnvGrant {
        name: "T".into(),
        source_env: "S".into(),
        source_command: cmd.map(String::from),
        required: false,
        approval: None,
    };
    let file = FileGrant {
        source: "/k".into(),
        target: "/t".into(),
        read_only: false,
        required: false,
        approval: None,
    };
    let sources = vec![Source {
        label: "repo".into(),
        env: vec![(env(None), true), (env(Some("cmd")), false)],
        files: vec![(file, false)],
    }];
    assert_eq!(
        list_secrets(&sources),
        [
            "  env   T ← $S  [repo] [set]",
            "  env   T ← `cmd`  [repo] [FAILED on host]",
            "  file  /k → /t  [repo] [rw] [MISSING on host]",
        ]
    );
    assert_eq!(list_secrets(&vec![]).len(), 2);
}

#[test]
fn paths_are_granted_listed_and_forgotten() {
    let args = |path: Option<&str>, list: bool, remove: bool| GrantArgs {
        path: path.map(String::from),
        ro: false,
        global: false,
        list,
        remove,
    };
    assert!(matches!(request(&args(None, true, true)), Ok(Request::List)));
    assert!(matches!(request(&args(Some("p"), false, true)), Ok(Request::Remove(p)) if p == "p"));
    assert!(matches!(request(&args(Some("p"), false, false)), Ok(Request::Grant(p)) if p == "p"));
    assert!(request(&args(None, false, false)).is_err());
    assert_eq!(
        granted_lines("/w", true, "this project", true)[0],
        "granted read-only access to /w for this project"
    );
    assert_eq!(
        granted_lines("/w", false, "all projects", false),
        ["/w was already granted read-write for all projects"]
    );
    assert_eq!(removed_lines("/w", false), ["no saved grant for /w"]);
    assert_eq!(removed_lines("/w", true).len(), 2);
    let saved = |refused: Option<&str>, present: bool| SavedGrant {
        path: "/w".into(),
        read_only: true,
        scope: "project".into(),
        refused: refused.map(String::from),
        present,
    };
    assert_eq!(
        list_grants("/p", &vec![saved(None, true), saved(None, false), saved(Some("keys"), false)]),
        [
            "saved grants for /p\n",
            "  ro  project       /w",
            "  ro  project       /w  (path no longer exists)",
            "  ro  project       /w  REFUSED: keys",
        ]
    );
    assert_eq!(list_grants("/p", &vec![])[0], "no saved grants for /p");
}
