use cowboy_cli::compose::{detect, find, plain_name, sanitize_project_name, RawCompose};
use cowboy_cli::container::{
    build_create, exec_pidfile, exec_timeout, exec_wrapper, kill_exec_script, parse_memory,
    split_ref, BindMount, ContainerSpec, ContainerState, ExecResult, Memory,
};
use cowboy_cli::gateway::{
    gateway_image, network_names, pick_token, policy_file, proxy_ready, ready_step, sidecar_action,
    GatewayNetwork, ReadyStep, SidecarAction,
};
use cowboy_cli::output::{interrupt_code, Interrupt, OutputSplitter};
use cowboy_cli::paths::{
    container_name_for, content_hash, hexadecimal, mount_source, name_slug, parent, project_hash,
    repo_key,
};
use cowboy_cli::runtime::{
    build_spec, bundled_action, capture_argv, capture_limit, captured, default_image,
    git_common_dir, image_action, may_run, overlay_root, pick_source_root, resolve_image,
    resolve_memory, run_action, stop_script, timeout_note, total_mib, AgentConfig, Grant, ImageAction, Mount, RunAction, SecretEnv, VersionLabel,
};
use cowboy_cli::shell::{command_value, secret_exports, sh_quote};

#[test]
fn bind_mount_args() {
    assert_eq!(BindMount::rw("/a", "/b").to_arg(), "/a:/b");
    assert_eq!(BindMount::ro("/a", "/b").to_arg(), "/a:/b:ro");
}

#[test]
fn kill_script_targets_group_and_tag_then_cleans_up() {
    let script = kill_exec_script("/tmp/cowboy-exec-42-7.pgid", "42-7");
    // Reads the per-exec pidfile (not a shared one) and signals its group.
    assert!(script.contains("cat /tmp/cowboy-exec-42-7.pgid"));
    assert!(script.contains("kill -TERM -\"$p\""));
    assert!(script.contains("kill -KILL -\"$p\""));
    // Sweeps /proc for the escapee marker, TERM then KILL.
    assert!(script.contains("COWBOY_EXEC_TAG=42-7"));
    assert!(script.contains("kill -TERM \"$(basename"));
    assert!(script.contains("kill -KILL \"$(basename"));
    // Cleans up the pidfile so /tmp doesn't accumulate.
    assert!(script.contains("rm -f /tmp/cowboy-exec-42-7.pgid"));
}

#[test]
fn split_ref_extracts_tag_not_registry_port() {
    let split = |r: &str| -> (String, String) { split_ref(r) };
    let pair = |a: &str, b: &str| (a.to_string(), b.to_string());
    assert_eq!(split("alpine"), pair("alpine", "latest"));
    assert_eq!(split("alpine:3.20"), pair("alpine", "3.20"));
    assert_eq!(
        split("ghcr.io/koshea/cowboy/gateway:0.1.0"),
        pair("ghcr.io/koshea/cowboy/gateway", "0.1.0")
    );
    // registry host:port with no tag → repo unchanged, default tag.
    assert_eq!(split("localhost:5000/img"), pair("localhost:5000/img", "latest"));
    assert_eq!(split("localhost:5000/img:v2"), pair("localhost:5000/img", "v2"));
}

/// The bytes of a size that is a whole number.
fn bytes(s: &str) -> Option<i64> {
    match parse_memory(s) {
        Some(Memory::Bytes(b)) => Some(b),
        Some(Memory::Number { number, .. }) => panic!("{number} is no whole number"),
        None => None,
    }
}

#[test]
fn parse_memory_handles_suffixes() {
    assert_eq!(bytes("1024"), Some(1024));
    assert_eq!(bytes("512m"), Some(512 * 1024 * 1024));
    assert_eq!(bytes("2g"), Some(2 * 1024 * 1024 * 1024));
    assert_eq!(bytes("8G"), Some(8 * 1024 * 1024 * 1024));
    assert_eq!(bytes("nonsense"), None);
    assert_eq!(bytes(""), None);
}

#[test]
fn a_size_with_a_fraction_is_left_to_be_scaled() {
    assert!(matches!(
        parse_memory("1.5g"),
        Some(Memory::Number { number, multiplier }) if number == "1.5" && multiplier == 1024 * 1024 * 1024
    ));
}

#[test]
fn build_create_maps_spec_to_host_config() {
    let spec = ContainerSpec {
        name: "c".into(),
        image: "img:1".into(),
        workdir: "/w".into(),
        mounts: vec![BindMount::ro("/h", "/c")],
        env: vec![("K".into(), "V".into())],
        network: Some("net".into()),
        ip: Some("10.0.0.5".into()),
        memory: Some("256m".into()),
        nano_cpus: Some((2.0 * 1e9) as i64),
        cap_drop: vec!["ALL".into()],
        pids_limit: Some(4096),
        ..Default::default()
    };
    let config = build_create(&spec, None, "1.2.3");
    let host = config.host;
    assert_eq!(host.binds, Some(vec!["/h:/c:ro".to_string()]));
    assert_eq!(host.memory, Some(256 * 1024 * 1024));
    assert_eq!(host.nano_cpus, Some(2_000_000_000));
    assert_eq!(host.pids_limit, Some(4096));
    assert_eq!(host.network_mode.as_deref(), Some("net"));
    assert_eq!(config.image, "img:1");
    assert_eq!(config.working_dir.as_deref(), Some("/w"));
    assert_eq!(config.env, Some(vec!["K=V".to_string()]));
    // Labels: discovery marker + the creating version (so an upgraded binary can
    // detect and recreate a stale-version container).
    let label = |k: &str| config.labels.iter().find(|(n, _)| n == k).map(|(_, v)| v.as_str());
    assert_eq!(label("cowboy"), Some("1"));
    assert_eq!(label("cowboy.version"), Some("1.2.3"));
    // static IP recorded on the endpoint config for `net`.
    assert_eq!(config.endpoint, Some(("net".to_string(), "10.0.0.5".to_string())));
}

fn fixture(isolated: bool) -> AgentConfig {
    AgentConfig {
        container_name: "cowboy-agent-x".into(),
        image: "test/img:local".into(),
        workdir: "/workspace".into(),
        user: None,
        mounts: vec![Mount {
            source: "/p".into(),
            target: "/workspace".into(),
            mode: "rw".into(),
        }],
        git_common: None,
        mask: "/tmp/cowboy-mask-empty".into(),
        has_security: true,
        has_models: true,
        secrets: vec![],
        grants: vec![],
        mise_cache: Some("/home/u/.cache/cowboy/mise".into()),
        gateway: if isolated {
            Some(GatewayNetwork::for_project(7, true, "/policy.json".into(), "tok".into()))
        } else {
            None
        },
        memory: None,
        nano_cpus: None,
        jobs: None,
    }
}

#[test]
fn build_spec_masks_host_owned_config() {
    let spec = build_spec(&fixture(false)).unwrap();

    // The project is mounted rw at /workspace.
    assert!(spec.mounts.iter().any(|m| m.target == "/workspace" && !m.read_only));

    // security.yaml and models.yaml are masked read-only by the empty file.
    let sec = spec
        .mounts
        .iter()
        .find(|m| m.target == "/workspace/.cowboy/security.yaml")
        .expect("security.yaml must be masked");
    assert!(sec.read_only, "mask must be read-only");
    assert!(sec.source.contains("cowboy-mask-empty"));
    assert!(spec
        .mounts
        .iter()
        .any(|m| m.target == "/workspace/.cowboy/models.yaml" && m.read_only));

    // agent.yaml is NOT masked — the agent may read/edit it.
    assert!(!spec.mounts.iter().any(|m| m.target.ends_with("agent.yaml")));

    // The toolchain store is persisted via a writable host cache mount.
    assert!(
        spec.mounts
            .iter()
            .any(|m| m.source == "/home/u/.cache/cowboy/mise" && !m.read_only),
        "mise data dir should be a writable cache mount"
    );
}

#[test]
fn build_spec_isolated_drops_caps_and_wires_sidecar_netns() {
    let spec = build_spec(&fixture(true)).unwrap();

    // Agent is on its egress-capable network with NET_ADMIN/NET_RAW dropped
    // (the gateway sidecar enforces policy in the shared netns).
    assert!(spec.network.as_deref().unwrap().starts_with("cowboy-net-"));
    assert!(spec.cap_drop.contains(&"NET_ADMIN".to_string()));
    assert!(spec.cap_drop.contains(&"NET_RAW".to_string()));
    // host.docker.internal is mapped so the sidecar can dial the host control
    // server; route_localnet lets the REDIRECT reach the loopback proxy.
    assert!(spec.extra_hosts.iter().any(|h| h.starts_with("host.docker.internal:")));
    assert!(spec
        .sysctls
        .iter()
        .any(|(k, v)| k == "net.ipv4.conf.all.route_localnet" && v == "1"));
    // IPv6 disabled.
    assert!(spec
        .sysctls
        .iter()
        .any(|(k, v)| k == "net.ipv6.conf.all.disable_ipv6" && v == "1"));
}

#[test]
fn build_spec_injects_present_secrets_and_skips_missing() {
    let secret = |name: &str, value: Option<&str>| SecretEnv {
        name: name.into(),
        source_env: format!("SRC_{name}"),
        source_command: None,
        required: false,
        value: value.map(String::from),
    };
    let spec = build_spec(&AgentConfig {
        secrets: vec![secret("DB_URL", Some("s3cr3t")), secret("MISSING", None)],
        ..fixture(false)
    })
    .unwrap();
    assert!(spec.env.iter().any(|(k, v)| k == "DB_URL" && v == "s3cr3t"));
    assert!(!spec.env.iter().any(|(k, _)| k == "MISSING"));
}

#[test]
fn source_command_secret_resolves_per_exec_not_at_creation() {
    // Not injected at container creation (refreshed per shell command instead).
    let spec = build_spec(&AgentConfig {
        secrets: vec![SecretEnv {
            name: "TOK".into(),
            source_env: String::new(),
            source_command: Some("printf 'tok-123'".into()),
            required: false,
            value: None,
        }],
        ..fixture(false)
    })
    .unwrap();
    assert!(!spec.env.iter().any(|(k, _)| k == "TOK"));
    // Resolved on demand, as a shell-safe export prefix.
    let value = command_value(true, &b"tok-123".to_vec()).unwrap();
    assert_eq!(secret_exports(&vec![("TOK".into(), value)]), "export TOK='tok-123'; ");
}

#[test]
fn sh_quote_escapes_single_quotes() {
    assert_eq!(sh_quote("plain"), "'plain'");
    assert_eq!(sh_quote("a'b"), "'a'\\''b'");
}

#[test]
fn run_value_command_trims_success_and_drops_failures() {
    assert_eq!(command_value(true, &b"  tok-123  ".to_vec()).as_deref(), Some("tok-123"));
    assert_eq!(command_value(false, &b"".to_vec()), None); // nonzero exit
    assert_eq!(command_value(true, &b"".to_vec()), None); // success, no output
    assert_eq!(command_value(false, &b"tok".to_vec()), None);
}

fn grant(source: &str, target: &str, required: bool, exists: bool) -> Grant {
    Grant {
        configured: source.into(),
        source: Ok(source.into()),
        target: target.into(),
        read_only: true,
        required,
        exists,
    }
}

#[test]
fn build_spec_mounts_credential_grants_read_only_and_skips_absent() {
    let spec = build_spec(&AgentConfig {
        grants: vec![
            grant("/home/u/gh-config", "/tmp/.config/gh", false, true),
            grant("/no/such/optional/cred", "/tmp/.config/absent", false, false),
        ],
        ..fixture(false)
    })
    .unwrap();
    let m = spec
        .mounts
        .iter()
        .find(|m| m.target == "/tmp/.config/gh")
        .expect("granted credential should be mounted");
    assert!(m.read_only, "credential mounts default read-only");
    assert!(m.source.contains("gh-config"));
    // An absent optional grant is silently skipped.
    assert!(!spec.mounts.iter().any(|m| m.target == "/tmp/.config/absent"));
}

#[test]
fn build_spec_caps_build_jobs_to_cpus() {
    // No cpu limit → no build-jobs env (keep host parallelism), no cpus on spec.
    let spec = build_spec(&fixture(false)).unwrap();
    assert!(!spec.env.iter().any(|(k, _)| k == "MAKEFLAGS"));
    assert!(spec.nano_cpus.is_none());

    // cpus: 2 → -j2 across the native-build env, and the spec carries cpus=2.
    let spec = build_spec(&AgentConfig {
        nano_cpus: Some(2_000_000_000),
        jobs: Some(2),
        memory: resolve_memory(&Some("8g".into()), None),
        ..fixture(false)
    })
    .unwrap();
    let get = |k: &str| spec.env.iter().find(|(n, _)| n == k).map(|(_, v)| v.clone());
    assert_eq!(get("MAKEFLAGS").as_deref(), Some("-j2"));
    assert_eq!(get("MAKE_OPTS").as_deref(), Some("-j2"));
    assert_eq!(get("MISE_JOBS").as_deref(), Some("2"));
    assert_eq!(get("CARGO_BUILD_JOBS").as_deref(), Some("2"));
    assert_eq!(spec.nano_cpus, Some(2_000_000_000));
    assert_eq!(spec.memory.as_deref(), Some("8g")); // explicit value passes through
}

#[test]
fn build_spec_errors_on_missing_required_credential() {
    let with = |g: Grant| build_spec(&AgentConfig { grants: vec![g], ..fixture(false) });
    assert!(with(grant("/no/such/required/cred", "/tmp/.config/x", true, false)).is_err());
    // One whose path cannot be made out is an error as well, where it is required.
    let broken = Grant {
        source: Err("no home".into()),
        ..grant("~/cred", "/tmp/.config/x", true, false)
    };
    assert!(with(broken).is_err());
}

#[test]
fn a_container_is_started_recreated_or_created() {
    let ours = VersionLabel::Found("1.0".into());
    assert_eq!(run_action(ContainerState::Stopped, &ours, "1.0"), RunAction::Start);
    assert_eq!(run_action(ContainerState::Running, &ours, "1.0"), RunAction::Nothing);
    assert_eq!(
        run_action(ContainerState::Running, &VersionLabel::Found("0.0.1-old".into()), "1.0"),
        RunAction::Recreate
    );
    assert_eq!(run_action(ContainerState::Absent, &ours, "1.0"), RunAction::Create);
    assert_eq!(
        run_action(ContainerState::Running, &VersionLabel::Unknown, "1.0"),
        RunAction::Nothing
    );
}

#[test]
fn resolve_image_precedence_and_content_hash() {
    let root = "/p";
    // 1. Nothing custom → the configured image, no local build.
    let (img, derived) = resolve_image(root, "cowboy/agent:local", &None, &None);
    assert_eq!(img, "cowboy/agent:local");
    assert!(derived.is_none());

    // 2. A committed .cowboy/Dockerfile → a per-repo derived image (base-first).
    let file = Some(b"FROM cowboy/agent:local\n".to_vec());
    let (img2, derived2) = resolve_image(root, "cowboy/agent:local", &None, &file);
    assert!(img2.starts_with("cowboy/agent-"), "derived tag: {img2}");
    let d2 = derived2.expect("derived build");
    assert!(d2.ensure_base);
    assert_eq!(d2.dockerfile, "/p/.cowboy/Dockerfile");
    assert_eq!(d2.context, root);

    // 2b. Editing the Dockerfile changes the tag (→ rebuild); same content, same tag.
    let (img2_again, _) = resolve_image(root, "cowboy/agent:local", &None, &file);
    assert_eq!(img2, img2_again, "unchanged file → stable tag (cache hit)");
    let edited = Some(b"FROM cowboy/agent:local\nRUN true\n".to_vec());
    let (img3, _) = resolve_image(root, "cowboy/agent:local", &None, &edited);
    assert_ne!(img2, img3, "edited file → new tag (rebuild)");

    // 3. An explicit container.dockerfile wins over auto-detect, keeps the
    //    configured image tag, and does NOT force a base build.
    let (img4, derived4) =
        resolve_image(root, "myorg/custom:dev", &Some("/p/Custom.Dockerfile".into()), &edited);
    assert_eq!(img4, "myorg/custom:dev");
    let d4 = derived4.expect("derived build");
    assert!(!d4.ensure_base);

    // What is to be done for an image.
    assert_eq!(
        image_action(false, &Some(d2), &img2, "1.0"),
        ImageAction::BuildDerived { base_first: true }
    );
    assert_eq!(image_action(true, &None, "x", "1.0"), ImageAction::Nothing);
    assert_eq!(image_action(false, &None, "x", "1.0"), ImageAction::Pull);
    assert_eq!(image_action(false, &None, &default_image("1.0"), "1.0"), ImageAction::Bundled);
}

#[test]
fn a_bundled_image_is_used_built_or_pulled() {
    assert_eq!(bundled_action(true, true), ImageAction::Nothing);
    assert_eq!(bundled_action(false, true), ImageAction::BuildSource);
    assert_eq!(bundled_action(false, false), ImageAction::Pull);
}

#[test]
fn container_name_is_stable_and_sanitized() {
    let a = container_name_for("/home/dev/projects/My App");
    let b = container_name_for("/home/dev/projects/My App");
    assert_eq!(a, b, "name must be stable for a path");
    assert!(a.starts_with("cowboy-agent-myapp-"));
    // No spaces or uppercase leak into the docker name.
    assert!(!a.contains(' '));
    assert_eq!(a, a.to_lowercase());
    assert_eq!(name_slug("my app, and much more of it than fits"), "myappandmuchmoreofitthan");
}

#[test]
fn worktrees_share_one_root() {
    let out = b"/repo/main/.git\n".to_vec();
    assert_eq!(overlay_root("/repo/wt", true, &out), "/repo/main");
    assert_eq!(overlay_root("/repo/wt", false, &out), "/repo/wt");
    assert_eq!(overlay_root("/repo/wt", true, &b"\n".to_vec()), "/repo/wt");
    assert_eq!(overlay_root("/repo/wt", true, &b".git\n".to_vec()), "/repo/wt");
    assert_eq!(overlay_root("/repo/wt", true, &b"/.git".to_vec()), "/");
    assert_eq!(parent("a/b").as_deref(), Some("a"));
    assert_eq!(parent("/"), None);
}

#[test]
fn mounts_are_found_below_the_root() {
    assert_eq!(mount_source("/repo", "."), "/repo/.");
    assert_eq!(mount_source("/repo/", "data"), "/repo/data");
    assert_eq!(mount_source("/repo", "/data"), "/data");
    assert_eq!(mount_source("", "data"), "data");
}

#[test]
fn captured_commands_end_in_time_or_not() {
    assert_eq!(capture_argv("ls | wc"), ["sh", "-lc", "ls | wc"]);
    assert_eq!((capture_limit(0), capture_limit(5)), (None, Some(5)));
    let (res, out) = captured(Some((ExecResult { exit_code: 3 }, "out".into())), 5);
    assert_eq!((res.exit_code, out.as_str()), (3, "out"));
    let (res, out) = captured(None, 5);
    assert_eq!((res.exit_code, out.as_str()), (124, "[command timed out after 5s]"));
}

#[test]
fn distinct_paths_get_distinct_names() {
    let a = container_name_for("/a/project");
    let b = container_name_for("/b/project");
    assert_ne!(a, b);
    assert_ne!(repo_key("/a"), repo_key("/b"));
    assert_eq!(repo_key("/a"), hexadecimal(project_hash("/a")));
    assert_ne!(content_hash(&b"a".to_vec()), content_hash(&b"b".to_vec()));
    assert_eq!(hexadecimal(0xab), "000000ab");
}

#[test]
fn git_common_dir_only_set_for_worktrees() {
    let out = b"/repo/main/.git\n".to_vec();
    // A normal repo: `.git` is a directory → no extra mount needed.
    assert!(git_common_dir("/repo/main", false, true, &out, true).is_none());
    // A linked worktree: `.git` is a file → mount the main repo's git dir.
    let common = git_common_dir("/repo/wt", true, true, &out, true)
        .expect("worktree → common git dir");
    assert!(common.ends_with(".git"));
    assert!(!common.starts_with("/repo/wt"));
    // Nothing where git fails, says nothing, or names what is inside or not there.
    assert!(git_common_dir("/repo/wt", true, false, &out, true).is_none());
    assert!(git_common_dir("/repo/wt", true, true, &b"\n".to_vec(), true).is_none());
    assert!(git_common_dir("/repo/main", true, true, &out, true).is_none());
    assert!(git_common_dir("/repo/wt", true, true, &out, false).is_none());
}

#[test]
fn default_images_are_version_pinned_ghcr() {
    let v = "0.4.2";
    assert_eq!(default_image(v), format!("ghcr.io/koshea/cowboy/agent:{v}"));
    assert_eq!(gateway_image(v), format!("ghcr.io/koshea/cowboy/gateway:{v}"));
}

#[test]
fn pick_source_root_prefers_explicit_then_excludes_cargo_cache() {
    let cargo = Some("/home/u/.cargo".to_string());
    let cached = "/home/u/.cargo/git/checkouts/cowboy-abc/deadbeef".to_string();
    let checkout = "/home/u/dev/cowboy".to_string();

    // Explicit COWBOY_SRC always wins, even under the cargo cache.
    assert_eq!(pick_source_root(Some(cached.clone()), None, &cargo), Some(cached.clone()));
    // No explicit: a compile root inside the cargo cache is rejected (end user
    // installed via `cargo install --git` → pull, don't build).
    assert_eq!(pick_source_root(None, Some(cached), &cargo), None);
    // A real checkout outside the cargo cache is trusted (contributor → build).
    assert_eq!(pick_source_root(None, Some(checkout.clone()), &cargo), Some(checkout));
    // A name that only begins alike is not inside.
    let beside = "/home/u/.cargo-like/cowboy".to_string();
    assert_eq!(pick_source_root(None, Some(beside.clone()), &cargo), Some(beside));
}

#[test]
fn sanitizes_project_names() {
    assert_eq!(sanitize_project_name("My App!"), "myapp");
    assert_eq!(sanitize_project_name("my_proj-1"), "my_proj-1");
    assert_eq!(plain_name("my app!"), "myapp");
}

#[test]
fn compose_files_are_found_in_their_order() {
    let names = |v: &[&str]| v.iter().map(|s| s.to_string()).collect::<Vec<_>>();
    assert_eq!(find(&names(&["docker-compose.yml", "compose.yml"])), Some("compose.yml"));
    assert_eq!(find(&names(&["compose.yml", "compose.yaml"])), Some("compose.yaml"));
    assert_eq!(find(&names(&["docker-compose.yml", "docker-compose.yaml"])), Some("docker-compose.yaml"));
    assert_eq!(find(&names(&["Dockerfile"])), None);
    let raw = |name: Option<&str>| RawCompose {
        name: name.map(String::from),
        services: names(&["db", "web"]),
        networks: names(&["back"]),
    };
    let p = detect("/src/My App", "/src/My App/compose.yaml", raw(None));
    assert_eq!(p.default_network, "myapp_default");
    assert_eq!(p.services, ["db", "web"]);
    assert_eq!(p.declared_networks, ["back"]);
    assert_eq!(detect("/src/x", "f", raw(Some("Shop 1"))).default_network, "shop1_default");
    assert_eq!(detect("/", "f", raw(None)).default_network, "compose_default");
}

#[test]
fn a_gateway_belongs_to_its_project() {
    let (net, gw) = network_names(0xdead);
    assert_eq!(net, "cowboy-net-0000dead");
    assert_eq!(gw, "cowboy-gw-0000dead");
    let g = GatewayNetwork::for_project(7, true, "/policy.json".into(), "tok".into());
    assert_eq!(g.subnet, "10.88.27.0/24");
    assert_eq!(g.control_addr(), "10.88.27.1:9007");
    assert_eq!(g.control_bind_addr(), "10.88.27.1:9007");
    let subnet = |h: u32| GatewayNetwork::for_project(h, true, "p".into(), "t".into()).subnet;
    assert_eq!(subnet(0), "10.88.20.0/24");
    assert_eq!(subnet(200), "10.89.20.0/24");
    assert_eq!(subnet(33599), "10.255.219.0/24");
    assert_eq!(subnet(33600), subnet(0));
    let mac = GatewayNetwork::for_project(7, false, "/policy.json".into(), "tok".into());
    assert_eq!(mac.control_addr(), "host.docker.internal:9007");
    assert_eq!(mac.control_bind_addr(), "127.0.0.1:9007");
    assert_eq!(mac.control_token(), "tok");
    let spec = g.gateway_spec("cowboy-agent-x", "1.0");
    assert_eq!(spec.network.as_deref(), Some("container:cowboy-agent-x"));
    assert_eq!(spec.image, gateway_image("1.0"));
    assert_eq!(g.network_spec().name, g.agent_net());
    assert_eq!(sidecar_action(ContainerState::Running), SidecarAction::Nothing);
    assert_eq!(sidecar_action(ContainerState::Stopped), SidecarAction::Replace);
    assert_eq!(sidecar_action(ContainerState::Absent), SidecarAction::Run);
    assert!(proxy_ready(0, "LISTEN 0 0 0.0.0.0:8443 0.0.0.0:*\n"));
    assert!(!proxy_ready(0, "LISTEN 0 0 0.0.0.0:80\n"));
    assert!(!proxy_ready(1, ":8443"));
    assert_eq!(ready_step(100, true), ReadyStep::Done);
    assert_eq!(ready_step(99, false), ReadyStep::Again);
    assert_eq!(
        ready_step(100, false),
        ReadyStep::Refuse(
            "gateway proxy never bound its listener; refusing to run the agent unsandboxed".into()
        )
    );
    assert_eq!(policy_file("/tmp", 0xdead), "/tmp/cowboy-policy-0000dead.json");
    assert_eq!(pick_token(Some("given".into()), "fresh".into()), "given");
    assert_eq!(pick_token(Some("".into()), "fresh".into()), "fresh");
    assert_eq!(pick_token(None, "fresh".into()), "fresh");
}

#[test]
fn commands_are_wrapped_timed_and_stopped() {
    assert_eq!(exec_pidfile("42-7"), "/tmp/cowboy-exec-42-7.pgid");
    assert!(exec_wrapper("/tmp/x").starts_with("setsid sh -c 'echo $$ > /tmp/x;"));
    assert_eq!(exec_timeout(0), 86400);
    assert_eq!(exec_timeout(5), 5);
    assert_eq!(interrupt_code(Interrupt::Cancelled).exit_code, 130);
    assert_eq!(interrupt_code(Interrupt::TimedOut).exit_code, 124);
    assert_eq!(timeout_note(9), "[command timed out after 9s]");
    assert!(stop_script("/w").contains("/w/.cowboy/proc/*.pid"));
    assert!(may_run(true, 0).is_err());
    assert!(may_run(true, 1000).is_ok());
    assert!(may_run(false, 0).is_ok());
    assert_eq!(total_mib("MemFree: 1 kB\nMemTotal:       2048 kB\n"), Some(2));
    assert_eq!(total_mib("nothing"), None);
    assert_eq!(resolve_memory(&Some("AUTO".into()), Some(512)).as_deref(), Some("512m"));
    assert_eq!(resolve_memory(&Some("auto".into()), None), None);
}

#[test]
fn output_does_not_depend_on_how_it_is_cut() {
    let run = |parts: &[&[u8]]| {
        let mut s = OutputSplitter::new();
        for p in parts {
            s.feed(p);
        }
        s.finish();
        s.accumulated()
    };
    let whole = run(&[b"one\r\ntwo \xc3\xa9\n10%\r20%\rdone"]);
    let cut = run(&[b"one\r", b"\ntwo \xc3", b"\xa9\n10%\r2", b"0%\rdone"]);
    assert_eq!(whole, cut);
    assert!(whole.starts_with("one\ntwo é\n"), "{whole:?}");
    assert!(whole.ends_with("done"), "{whole:?}");
    // Bytes that are no text are replaced.
    assert!(run(&[b"\xff\n"]).contains('\u{fffd}'));
}

#[test]
fn quoting_survives_a_shell() {
    for s in ["", "a b", "it's", "''", "$x `y` \"z\""] {
        let q = sh_quote(s);
        let inner = q.strip_prefix('\'').unwrap().strip_suffix('\'').unwrap();
        assert_eq!(inner.replace("'\\''", "'"), s);
    }
}
