//! The agent's container: what it is made from, and what is done to bring it up.

use crate::choice::{ascending, lemma_one_more};
use crate::container::{copied_opt, BindMount, ContainerSpec, ContainerState, ExecResult};
use crate::gateway::GatewayNetwork;
use crate::output::{from_utf8_lossy, lossy};
use crate::paths::{ascii_lower, bytes_hash, content_hash, hex8, hexadecimal, lies_under, low_half,
    parent, parent_path, path_hash, project_hash, starts_with_path};
use crate::search::{starts_with, strip_prefix};
use crate::text::{chars_of, is_digit, lines, split_lines, strs, trim, trimmed};
use crate::words::{dec, decimal, split_whitespace, words};
use vstd::prelude::*;

verus! {

broadcast use vstd::string::group_string_axioms;

/// Where the image keeps its toolchains.
pub open spec fn mise_data_dir() -> Seq<char> {
    "/usr/local/share/mise"@
}

/// The image that an agent runs where none is configured, pinned to a version.
pub fn default_image(version: &str) -> (r: String)
    ensures
        r@ == "ghcr.io/koshea/cowboy/agent:"@ + version@,
{
    let mut out = "ghcr.io/koshea/cowboy/agent:".to_owned();
    out.push_str(version);
    out
}

// ---------------------------------------------------------------------------
// What goes into a container
// ---------------------------------------------------------------------------

/// A configured mount, its source resolved.
#[derive(Debug)]
pub struct Mount {
    pub source: String,
    pub target: String,
    pub mode: String,
}

/// A secret that reaches the container as a variable.
#[derive(Debug)]
pub struct SecretEnv {
    pub name: String,
    pub source_env: String,
    pub source_command: Option<String>,
    pub required: bool,
    /// The value of the host's variable, where it is set.
    pub value: Option<String>,
}

/// A credential of the host that the container sees.
#[derive(Debug)]
pub struct Grant {
    /// The source as configured.
    pub configured: String,
    /// The source expanded, or why it could not be.
    pub source: Result<String, String>,
    pub target: String,
    pub read_only: bool,
    pub required: bool,
    /// Whether the host has it.
    pub exists: bool,
}

/// Everything that decides what an agent's container is made from.
#[derive(Debug)]
pub struct AgentConfig {
    pub container_name: String,
    pub image: String,
    pub workdir: String,
    pub user: Option<String>,
    pub mounts: Vec<Mount>,
    /// The shared git directory, where the project is a linked worktree.
    pub git_common: Option<String>,
    /// An empty file.
    pub mask: String,
    /// Whether the project has the two files that are masked.
    pub has_security: bool,
    pub has_models: bool,
    pub secrets: Vec<SecretEnv>,
    pub grants: Vec<Grant>,
    /// The host's cache of toolchains, where there is one.
    pub mise_cache: Option<String>,
    pub gateway: Option<GatewayNetwork>,
    pub memory: Option<String>,
    pub nano_cpus: Option<i64>,
    /// Build jobs, where processors are limited.
    pub jobs: Option<u32>,
}

/// A mount by what it holds.
pub struct MountView {
    pub source: Seq<char>,
    pub target: Seq<char>,
    pub read_only: bool,
}

/// Mounts by what they hold.
pub open spec fn mount_views(ms: Seq<BindMount>) -> Seq<MountView> {
    Seq::new(
        ms.len(),
        |i: int| MountView {
            source: ms[i].source@,
            target: ms[i].target@,
            read_only: ms[i].read_only,
        },
    )
}

/// Pairs of texts by what they hold.
pub open spec fn pair_views(ps: Seq<(String, String)>) -> Seq<(Seq<char>, Seq<char>)> {
    Seq::new(ps.len(), |i: int| (ps[i].0@, ps[i].1@))
}

/// The first `n` configured mounts.
pub open spec fn configured_mounts(ms: Seq<Mount>, n: int) -> Seq<MountView>
    decreases n,
{
    if n <= 0 {
        seq![]
    } else {
        configured_mounts(ms, n - 1).push(
            MountView {
                source: ms[n - 1].source@,
                target: ms[n - 1].target@,
                read_only: ms[n - 1].mode@ == "ro"@,
            },
        )
    }
}

/// A mount that hides a file of the project's configuration.
pub open spec fn mask_mount(c: AgentConfig, file: Seq<char>) -> MountView {
    MountView {
        source: c.mask@,
        target: c.workdir@ + "/"@ + ".cowboy"@ + "/"@ + file,
        read_only: true,
    }
}

/// The mounts of the project: those configured, the shared git directory at its own
/// path, and the masks over what the agent must not read.
pub open spec fn project_mounts(c: AgentConfig) -> Seq<MountView> {
    let a = configured_mounts(c.mounts@, c.mounts@.len() as int);
    let b = match c.git_common {
        Some(g) => a.push(MountView { source: g@, target: g@, read_only: false }),
        None => a,
    };
    let d = if c.has_security {
        b.push(mask_mount(c, "security.yaml"@))
    } else {
        b
    };
    if c.has_models {
        d.push(mask_mount(c, "models.yaml"@))
    } else {
        d
    }
}

/// The mounts with those of the first `n` credentials behind them: those that the
/// host has.
pub open spec fn with_grants(ms: Seq<MountView>, gs: Seq<Grant>, n: int) -> Seq<MountView>
    decreases n,
{
    if n <= 0 {
        ms
    } else {
        let before = with_grants(ms, gs, n - 1);
        if gs[n - 1].exists && gs[n - 1].source is Ok {
            before.push(
                MountView {
                    source: gs[n - 1].source->Ok_0@,
                    target: gs[n - 1].target@,
                    read_only: gs[n - 1].read_only,
                },
            )
        } else {
            before
        }
    }
}

/// Every mount of the container.
pub open spec fn all_mounts(c: AgentConfig) -> Seq<MountView> {
    let a = with_grants(project_mounts(c), c.grants@, c.grants@.len() as int);
    match c.mise_cache {
        Some(m) => a.push(
            MountView { source: m@, target: mise_data_dir(), read_only: false },
        ),
        None => a,
    }
}

/// A secret that is put into the container when it is made: one of a host variable.
/// Those of a command are put in front of each command instead.
pub open spec fn static_secret(s: SecretEnv) -> bool {
    s.source_command is None && s.source_env@.len() > 0
}

/// The variables of the first `n` secrets that have a value.
pub open spec fn secret_env(ss: Seq<SecretEnv>, n: int) -> Seq<(Seq<char>, Seq<char>)>
    decreases n,
{
    if n <= 0 {
        seq![("HOME"@, "/tmp"@)]
    } else if static_secret(ss[n - 1]) && ss[n - 1].value is Some {
        secret_env(ss, n - 1).push((ss[n - 1].name@, (ss[n - 1].value->0)@))
    } else {
        secret_env(ss, n - 1)
    }
}

/// Every variable of the container: its home, the secrets, and the number of build
/// jobs for every tool that asks for one.
pub open spec fn all_env(c: AgentConfig) -> Seq<(Seq<char>, Seq<char>)> {
    let a = secret_env(c.secrets@, c.secrets@.len() as int);
    match c.jobs {
        Some(n) => {
            let j = dec(n as nat);
            a.push(("MAKEFLAGS"@, "-j"@ + j)).push(("MAKE_OPTS"@, "-j"@ + j)).push(
                ("CARGO_BUILD_JOBS"@, j),
            ).push(("npm_config_jobs"@, j)).push(("CMAKE_BUILD_PARALLEL_LEVEL"@, j)).push(
                ("MISE_JOBS"@, j),
            )
        },
        None => a,
    }
}

/// What is wrong with the first of the secrets from `from` on that is required and
/// has no value.
pub open spec fn secret_fault(ss: Seq<SecretEnv>, from: int) -> Option<Seq<char>>
    decreases ss.len() - from,
{
    if from < 0 || from >= ss.len() {
        None
    } else if static_secret(ss[from]) && ss[from].value is None && ss[from].required {
        Some(
            "required secret "@ + ss[from].name@ + " missing (set $"@ + ss[from].source_env@
                + " on the host)"@,
        )
    } else {
        secret_fault(ss, from + 1)
    }
}

/// What is wrong with the first of the credentials from `from` on that cannot be
/// found, or that is required and missing.
pub open spec fn grant_fault(gs: Seq<Grant>, from: int) -> Option<Seq<char>>
    decreases gs.len() - from,
{
    if from < 0 || from >= gs.len() {
        None
    } else {
        match gs[from].source {
            Err(why) => Some("credential grant "@ + gs[from].configured@ + ": "@ + why@),
            Ok(s) => if !gs[from].exists && gs[from].required {
                Some("required credential "@ + s@ + " is missing on the host"@)
            } else {
                grant_fault(gs, from + 1)
            },
        }
    }
}

/// Why no container can be made, if none can.
pub open spec fn spec_fault(c: AgentConfig) -> Option<Seq<char>> {
    match secret_fault(c.secrets@, 0) {
        Some(e) => Some(e),
        None => grant_fault(c.grants@, 0),
    }
}

/// The container is the one for this configuration.
pub open spec fn spec_matches(c: AgentConfig, s: ContainerSpec) -> bool {
    &&& s.name@ == c.container_name@
    &&& s.image@ == c.image@
    &&& s.workdir@ == c.workdir@
    &&& mount_views(s.mounts@) == all_mounts(c)
    &&& pair_views(s.env@) == all_env(c)
    &&& s.ip is None
    &&& s.memory == c.memory
    &&& s.nano_cpus == c.nano_cpus
    &&& s.cap_add@.len() == 0
    &&& s.user == c.user
    &&& strs(s.security_opt@) == seq!["no-new-privileges"@]
    &&& s.pids_limit == Some(4096u32)
    &&& s.entrypoint is None
    &&& s.keep_alive is None
    &&& match c.gateway {
        Some(g) => {
            &&& s.network is Some && (s.network->0)@ == g.agent_net@
            &&& strs(s.dns@) == seq!["1.1.1.1"@]
            &&& strs(s.cap_drop@) == crate::gateway::dropped_caps()
            &&& pair_views(s.sysctls@) == seq![
                ("net.ipv6.conf.all.disable_ipv6"@, "1"@),
                ("net.ipv4.conf.all.route_localnet"@, "1"@),
            ]
            &&& strs(s.extra_hosts@) == crate::gateway::known_hosts()
        },
        None => {
            &&& s.network is None
            &&& s.dns@.len() == 0
            &&& s.cap_drop@.len() == 0
            &&& s.sysctls@.len() == 0
            &&& s.extra_hosts@.len() == 0
        },
    }
}

fn push_mount(ms: &mut Vec<BindMount>, source: &str, target: &str, read_only: bool)
    ensures
        mount_views(final(ms)@) == mount_views(old(ms)@).push(
            MountView { source: source@, target: target@, read_only },
        ),
{
    if read_only {
        ms.push(BindMount::ro(source, target));
    } else {
        ms.push(BindMount::rw(source, target));
    }
    assert(mount_views(ms@) =~= mount_views(old(ms)@).push(
        MountView { source: source@, target: target@, read_only },
    ));
}

fn push_pair(ps: &mut Vec<(String, String)>, name: &str, value: &str)
    ensures
        pair_views(final(ps)@) == pair_views(old(ps)@).push((name@, value@)),
{
    ps.push((name.to_owned(), value.to_owned()));
    assert(pair_views(ps@) =~= pair_views(old(ps)@).push((name@, value@)));
}

fn push_mask(ms: &mut Vec<BindMount>, c: &AgentConfig, file: &str)
    ensures
        mount_views(final(ms)@) == mount_views(old(ms)@).push(mask_mount(*c, file@)),
{
    let mut target = c.workdir.clone();
    target.push_str("/");
    target.push_str(".cowboy");
    target.push_str("/");
    target.push_str(file);
    push_mount(ms, &c.mask, &target, true);
}

fn build_mounts(c: &AgentConfig) -> (r: Vec<BindMount>)
    ensures
        mount_views(r@) == project_mounts(*c),
{
    let mut ms: Vec<BindMount> = Vec::new();
    let mut i: usize = 0;
    assert(mount_views(ms@) =~= seq![]);
    while i < c.mounts.len()
        invariant
            i <= c.mounts@.len(),
            mount_views(ms@) == configured_mounts(c.mounts@, i as int),
        decreases c.mounts.len() - i,
    {
        let ro = crate::text::same(&c.mounts[i].mode, "ro");
        push_mount(&mut ms, &c.mounts[i].source, &c.mounts[i].target, ro);
        i = i + 1;
    }
    match &c.git_common {
        Some(g) => push_mount(&mut ms, g, g, false),
        None => {},
    }
    if c.has_security {
        push_mask(&mut ms, c, "security.yaml");
    }
    if c.has_models {
        push_mask(&mut ms, c, "models.yaml");
    }
    ms
}

fn build_env(c: &AgentConfig) -> (r: Result<Vec<(String, String)>, String>)
    ensures
        match secret_fault(c.secrets@, 0) {
            Some(e) => r is Err && r->Err_0@ == e,
            None => r is Ok && pair_views(r->Ok_0@) == all_env(*c),
        },
{
    let mut env: Vec<(String, String)> = Vec::new();
    push_pair(&mut env, "HOME", "/tmp");
    assert(pair_views(env@) =~= seq![("HOME"@, "/tmp"@)]);
    let mut i: usize = 0;
    while i < c.secrets.len()
        invariant
            i <= c.secrets@.len(),
            pair_views(env@) == secret_env(c.secrets@, i as int),
            secret_fault(c.secrets@, 0) == secret_fault(c.secrets@, i as int),
        decreases c.secrets.len() - i,
    {
        let s = &c.secrets[i];
        if s.source_command.is_none() && !s.source_env.as_str().is_empty() {
            match &s.value {
                Some(v) => push_pair(&mut env, &s.name, v),
                None => {
                    if s.required {
                        let mut msg = "required secret ".to_owned();
                        msg.push_str(&s.name);
                        msg.push_str(" missing (set $");
                        msg.push_str(&s.source_env);
                        msg.push_str(" on the host)");
                        return Err(msg);
                    }
                },
            }
        }
        i = i + 1;
    }
    match c.jobs {
        Some(n) => {
            let j = decimal(n as u128);
            let mut flag = "-j".to_owned();
            flag.push_str(&j);
            push_pair(&mut env, "MAKEFLAGS", &flag);
            push_pair(&mut env, "MAKE_OPTS", &flag);
            push_pair(&mut env, "CARGO_BUILD_JOBS", &j);
            push_pair(&mut env, "npm_config_jobs", &j);
            push_pair(&mut env, "CMAKE_BUILD_PARALLEL_LEVEL", &j);
            push_pair(&mut env, "MISE_JOBS", &j);
        },
        None => {},
    }
    Ok(env)
}

fn push_grants(ms: Vec<BindMount>, gs: &Vec<Grant>) -> (r: Result<Vec<BindMount>, String>)
    ensures
        match grant_fault(gs@, 0) {
            Some(e) => r is Err && r->Err_0@ == e,
            None => r is Ok && mount_views(r->Ok_0@) == with_grants(
                mount_views(ms@),
                gs@,
                gs@.len() as int,
            ),
        },
{
    let ghost start = mount_views(ms@);
    let mut ms = ms;
    let mut i: usize = 0;
    while i < gs.len()
        invariant
            i <= gs@.len(),
            mount_views(ms@) == with_grants(start, gs@, i as int),
            grant_fault(gs@, 0) == grant_fault(gs@, i as int),
        decreases gs.len() - i,
    {
        let g = &gs[i];
        match &g.source {
            Err(why) => {
                let mut msg = "credential grant ".to_owned();
                msg.push_str(&g.configured);
                msg.push_str(": ");
                msg.push_str(why);
                return Err(msg);
            },
            Ok(s) => {
                if g.exists {
                    push_mount(&mut ms, s, &g.target, g.read_only);
                } else if g.required {
                    let mut msg = "required credential ".to_owned();
                    msg.push_str(s);
                    msg.push_str(" is missing on the host");
                    return Err(msg);
                }
            },
        }
        i = i + 1;
    }
    Ok(ms)
}

fn one_text(s: &str) -> (r: Vec<String>)
    ensures
        strs(r@) == seq![s@],
{
    let mut v: Vec<String> = Vec::new();
    v.push(s.to_owned());
    assert(strs(v@) =~= seq![s@]);
    v
}

/// The container of an agent, or why none can be made: a secret or a credential that
/// is required is missing.
pub fn build_spec(c: &AgentConfig) -> (r: Result<ContainerSpec, String>)
    ensures
        match spec_fault(*c) {
            Some(e) => r is Err && r->Err_0@ == e,
            None => r is Ok && spec_matches(*c, r->Ok_0),
        },
{
    let env = match build_env(c) {
        Ok(env) => env,
        Err(e) => {
            return Err(e);
        },
    };
    let mut mounts = match push_grants(build_mounts(c), &c.grants) {
        Ok(ms) => ms,
        Err(e) => {
            return Err(e);
        },
    };
    match &c.mise_cache {
        Some(m) => push_mount(&mut mounts, m, "/usr/local/share/mise", false),
        None => {},
    }
    let mut spec = ContainerSpec::default();
    spec.name = c.container_name.clone();
    spec.image = c.image.clone();
    spec.workdir = c.workdir.clone();
    spec.mounts = mounts;
    spec.env = env;
    spec.memory = copied_opt(&c.memory);
    spec.nano_cpus = c.nano_cpus;
    spec.user = copied_opt(&c.user);
    spec.security_opt = one_text("no-new-privileges");
    spec.pids_limit = Some(4096);
    match &c.gateway {
        Some(g) => {
            let mut sysctls: Vec<(String, String)> = Vec::new();
            push_pair(&mut sysctls, "net.ipv6.conf.all.disable_ipv6", "1");
            push_pair(&mut sysctls, "net.ipv4.conf.all.route_localnet", "1");
            assert(pair_views(sysctls@) =~= seq![
                ("net.ipv6.conf.all.disable_ipv6"@, "1"@),
                ("net.ipv4.conf.all.route_localnet"@, "1"@),
            ]);
            spec.network = Some(g.agent_net.clone());
            spec.dns = one_text("1.1.1.1");
            spec.cap_drop = g.agent_caps();
            spec.sysctls = sysctls;
            spec.extra_hosts = g.agent_extra_hosts();
        },
        None => {},
    }
    Ok(spec)
}

/// The project's security configuration is never visible to the agent: where the
/// project has it, the container has a read-only mount of an empty file over it.
pub proof fn security_config_is_masked(c: AgentConfig)
    ensures
        c.has_security ==> all_mounts(c).contains(mask_mount(c, "security.yaml"@)),
        c.has_models ==> all_mounts(c).contains(mask_mount(c, "models.yaml"@)),
{
    let p = project_mounts(c);
    let a = configured_mounts(c.mounts@, c.mounts@.len() as int);
    let b = match c.git_common {
        Some(g) => a.push(MountView { source: g@, target: g@, read_only: false }),
        None => a,
    };
    if c.has_security {
        assert(p[b.len() as int] == mask_mount(c, "security.yaml"@));
    }
    if c.has_models {
        assert(p[p.len() - 1] == mask_mount(c, "models.yaml"@));
    }
    lemma_grants_keep(p, c.grants@, c.grants@.len() as int);
    let w = with_grants(p, c.grants@, c.grants@.len() as int);
    let all = all_mounts(c);
    assert forall|i: int| 0 <= i < p.len() implies all.contains(#[trigger] p[i]) by {
        assert(w[i] == p[i]);
        assert(all[i] == w[i]);
    }
}

proof fn lemma_grants_keep(ms: Seq<MountView>, gs: Seq<Grant>, n: int)
    ensures
        ms.len() <= with_grants(ms, gs, n).len(),
        forall|i: int| 0 <= i < ms.len() ==> #[trigger] with_grants(ms, gs, n)[i] == ms[i],
    decreases n,
{
    if n > 0 {
        lemma_grants_keep(ms, gs, n - 1);
    }
}

/// A variable is that of one of the first `n` secrets, which has it from a variable of the
/// host.
pub open spec fn from_the_host(ss: Seq<SecretEnv>, n: int, kv: (Seq<char>, Seq<char>)) -> bool {
    exists|k: int|
        0 <= k < n && static_secret(#[trigger] ss[k]) && ss[k].value is Some && kv == (
            ss[k].name@,
            (ss[k].value->0)@,
        )
}

/// A secret that a command gives is never put into the container itself: but for its
/// home, each of the first variables there is one that the host has.
pub proof fn command_secrets_stay_out(ss: Seq<SecretEnv>, n: int, i: int)
    requires
        0 <= n <= ss.len(),
        0 < i < secret_env(ss, n).len(),
    ensures
        secret_env(ss, n)[0] == ("HOME"@, "/tmp"@),
        from_the_host(ss, n, secret_env(ss, n)[i]),
    decreases n,
{
    if n > 0 {
        let before = secret_env(ss, n - 1);
        lemma_home_first(ss, n - 1);
        if i < before.len() {
            command_secrets_stay_out(ss, n - 1, i);
            assert(secret_env(ss, n)[i] == before[i]);
            let k = choose|k: int|
                0 <= k < n - 1 && static_secret(#[trigger] ss[k]) && ss[k].value is Some
                    && before[i] == (ss[k].name@, (ss[k].value->0)@);
            assert(static_secret(ss[k]));
        } else {
            assert(static_secret(ss[n - 1]));
        }
    }
}

proof fn lemma_home_first(ss: Seq<SecretEnv>, n: int)
    ensures
        secret_env(ss, n).len() > 0,
        secret_env(ss, n)[0] == ("HOME"@, "/tmp"@),
    decreases n,
{
    if n > 0 {
        lemma_home_first(ss, n - 1);
    }
}

/// An agent behind a gateway cannot change the rules that lead its traffic there: it has
/// neither of the capabilities for that, gets none, and cannot gain any.
pub proof fn isolated_agents_keep_their_rules(c: AgentConfig, s: ContainerSpec)
    requires
        spec_matches(c, s),
        c.gateway is Some,
    ensures
        strs(s.cap_drop@).contains("NET_ADMIN"@),
        strs(s.cap_drop@).contains("NET_RAW"@),
        s.cap_add@.len() == 0,
        strs(s.security_opt@).contains("no-new-privileges"@),
{
    let caps = crate::gateway::dropped_caps();
    assert(caps[0] == "NET_ADMIN"@);
    assert(caps[1] == "NET_RAW"@);
    assert(strs(s.security_opt@)[0] == "no-new-privileges"@);
}

/// The container sees `source` of the host at `target`, to be written or not.
pub open spec fn sees(s: ContainerSpec, source: Seq<char>, target: Seq<char>, read_only: bool) -> bool {
    exists|k: int|
        0 <= k < s.mounts@.len() && (#[trigger] s.mounts@[k]).source@ == source
            && s.mounts@[k].target@ == target && s.mounts@[k].read_only == read_only
}

proof fn lemma_sees(s: ContainerSpec, v: MountView)
    ensures
        mount_views(s.mounts@).contains(v) <==> sees(s, v.source, v.target, v.read_only),
{
    let vs = mount_views(s.mounts@);
    if vs.contains(v) {
        let k = choose|k: int| 0 <= k < vs.len() && vs[k] == v;
        assert(s.mounts@[k].source@ == v.source);
    }
    if sees(s, v.source, v.target, v.read_only) {
        let k = choose|k: int|
            0 <= k < s.mounts@.len() && (#[trigger] s.mounts@[k]).source@ == v.source
                && s.mounts@[k].target@ == v.target && s.mounts@[k].read_only == v.read_only;
        assert(vs[k] == v);
    }
}

proof fn lemma_configured(ms: Seq<Mount>, n: int)
    requires
        0 <= n <= ms.len(),
    ensures
        configured_mounts(ms, n).len() == n,
        forall|i: int|
            0 <= i < n ==> #[trigger] configured_mounts(ms, n)[i] == (MountView {
                source: ms[i].source@,
                target: ms[i].target@,
                read_only: ms[i].mode@ == "ro"@,
            }),
    decreases n,
{
    if n > 0 {
        lemma_configured(ms, n - 1);
    }
}

/// Behind the mounts stand those of the credentials that the host has, and no others.
proof fn lemma_granted(ms: Seq<MountView>, gs: Seq<Grant>, n: int)
    requires
        0 <= n <= gs.len(),
    ensures
        forall|v: MountView| #[trigger]
            with_grants(ms, gs, n).contains(v) <==> ms.contains(v) || granted(gs, n, v),
    decreases n,
{
    if n > 0 {
        lemma_granted(ms, gs, n - 1);
        let before = with_grants(ms, gs, n - 1);
        let after = with_grants(ms, gs, n);
        let g = gs[n - 1];
        assert forall|v: MountView| #[trigger] after.contains(v) <==> ms.contains(v) || granted(
            gs,
            n,
            v,
        ) by {
            assert(before.contains(v) <==> ms.contains(v) || granted(gs, n - 1, v));
            if granted(gs, n - 1, v) {
                let k = choose|k: int|
                    0 <= k < n - 1 && (#[trigger] gs[k]).exists && gs[k].source is Ok && v
                        == (MountView {
                        source: gs[k].source->Ok_0@,
                        target: gs[k].target@,
                        read_only: gs[k].read_only,
                    });
                assert(gs[k].exists);
            }
            if g.exists && g.source is Ok {
                lemma_push_contains(
                    before,
                    MountView {
                        source: g.source->Ok_0@,
                        target: g.target@,
                        read_only: g.read_only,
                    },
                    v,
                );
            }
            if granted(gs, n, v) && !granted(gs, n - 1, v) {
                let k = choose|k: int|
                    0 <= k < n && (#[trigger] gs[k]).exists && gs[k].source is Ok && v
                        == (MountView {
                        source: gs[k].source->Ok_0@,
                        target: gs[k].target@,
                        read_only: gs[k].read_only,
                    });
                assert(k == n - 1);
            }
        }
    } else {
        assert forall|v: MountView| #[trigger] with_grants(ms, gs, n).contains(v) <==> ms.contains(
            v,
        ) || granted(gs, n, v) by {}
    }
}

proof fn lemma_push_contains(ms: Seq<MountView>, m: MountView, v: MountView)
    ensures
        ms.push(m).contains(v) <==> ms.contains(v) || v == m,
{
    let all = ms.push(m);
    assert(all[ms.len() as int] == m);
    if ms.contains(v) {
        let k = ms.index_of(v);
        assert(all[k] == v);
    }
    if all.contains(v) {
        let k = all.index_of(v);
        if k < ms.len() {
            assert(ms[k] == v);
        }
    }
}

/// A mount is that of one of the first `n` credentials, which the host has.
pub open spec fn granted(gs: Seq<Grant>, n: int, v: MountView) -> bool {
    exists|k: int|
        0 <= k < n && (#[trigger] gs[k]).exists && gs[k].source is Ok && v == (MountView {
            source: gs[k].source->Ok_0@,
            target: gs[k].target@,
            read_only: gs[k].read_only,
        })
}

/// What the container sees of the host, and nothing else: every configured mount, to be
/// written unless its mode is `ro`; the shared git directory at its own path, to be
/// written; an empty file over each file of the project's security configuration, not to
/// be written; every credential that the host has, as it is granted; and the cache of
/// toolchains, to be written.
pub proof fn containers_see_what_is_configured(
    c: AgentConfig,
    s: ContainerSpec,
    source: Seq<char>,
    target: Seq<char>,
    read_only: bool,
)
    requires
        spec_matches(c, s),
    ensures
        sees(s, source, target, read_only) <==> {
            ||| exists|i: int|
                0 <= i < c.mounts@.len() && (#[trigger] c.mounts@[i]).source@ == source
                    && c.mounts@[i].target@ == target && (c.mounts@[i].mode@ == "ro"@) == read_only
            ||| c.git_common is Some && (c.git_common->0)@ == source && (c.git_common->0)@ == target
                && !read_only
            ||| c.has_security && source == c.mask@ && target == c.workdir@ + "/"@ + ".cowboy"@
                + "/"@ + "security.yaml"@ && read_only
            ||| c.has_models && source == c.mask@ && target == c.workdir@ + "/"@ + ".cowboy"@
                + "/"@ + "models.yaml"@ && read_only
            ||| exists|k: int|
                0 <= k < c.grants@.len() && (#[trigger] c.grants@[k]).exists
                    && c.grants@[k].source is Ok && c.grants@[k].source->Ok_0@ == source
                    && c.grants@[k].target@ == target && c.grants@[k].read_only == read_only
            ||| c.mise_cache is Some && (c.mise_cache->0)@ == source && target
                == "/usr/local/share/mise"@ && !read_only
        },
{
    let v = MountView { source, target, read_only };
    lemma_sees(s, v);
    let ms = c.mounts@;
    let n = ms.len() as int;
    lemma_configured(ms, n);
    let a = configured_mounts(ms, n);
    let is_configured = exists|i: int|
        0 <= i < ms.len() && (#[trigger] ms[i]).source@ == source && ms[i].target@ == target && (
        ms[i].mode@ == "ro"@) == read_only;
    assert(a.contains(v) <==> is_configured) by {
        if a.contains(v) {
            let i = a.index_of(v);
            assert(a[i] == v);
            assert(ms[i].source@ == source);
        }
        if is_configured {
            let i = choose|i: int|
                0 <= i < ms.len() && (#[trigger] ms[i]).source@ == source && ms[i].target@ == target
                    && (ms[i].mode@ == "ro"@) == read_only;
            assert(a[i] == v);
        }
    }
    let b = match c.git_common {
        Some(g) => a.push(MountView { source: g@, target: g@, read_only: false }),
        None => a,
    };
    if c.git_common is Some {
        let g = c.git_common->0;
        lemma_push_contains(a, MountView { source: g@, target: g@, read_only: false }, v);
    }
    let d = if c.has_security {
        b.push(mask_mount(c, "security.yaml"@))
    } else {
        b
    };
    lemma_push_contains(b, mask_mount(c, "security.yaml"@), v);
    lemma_push_contains(d, mask_mount(c, "models.yaml"@), v);
    let p = project_mounts(c);
    lemma_granted(p, c.grants@, c.grants@.len() as int);
    let w = with_grants(p, c.grants@, c.grants@.len() as int);
    assert(w.contains(v) <==> p.contains(v) || granted(c.grants@, c.grants@.len() as int, v));
    if c.mise_cache is Some {
        lemma_push_contains(
            w,
            MountView {
                source: (c.mise_cache->0)@,
                target: mise_data_dir(),
                read_only: false,
            },
            v,
        );
    }
    let is_granted = exists|k: int|
        0 <= k < c.grants@.len() && (#[trigger] c.grants@[k]).exists && c.grants@[k].source is Ok
            && c.grants@[k].source->Ok_0@ == source && c.grants@[k].target@ == target
            && c.grants@[k].read_only == read_only;
    assert(granted(c.grants@, c.grants@.len() as int, v) <==> is_granted) by {
        if is_granted {
            let k = choose|k: int|
                0 <= k < c.grants@.len() && (#[trigger] c.grants@[k]).exists
                    && c.grants@[k].source is Ok && c.grants@[k].source->Ok_0@ == source
                    && c.grants@[k].target@ == target && c.grants@[k].read_only == read_only;
            assert(c.grants@[k].exists);
        }
    }
}

/// Where the project is a linked worktree, the container can write the git directory that
/// it shares: it is there under its own path.
pub proof fn shared_git_is_writable(c: AgentConfig, s: ContainerSpec)
    requires
        spec_matches(c, s),
        c.git_common is Some,
    ensures
        sees(s, (c.git_common->0)@, (c.git_common->0)@, false),
{
    containers_see_what_is_configured(
        c,
        s,
        (c.git_common->0)@,
        (c.git_common->0)@,
        false,
    );
}

/// A container is asked for exactly where nothing that is required is missing: every
/// secret of a host variable that is required has a value, and every credential can be
/// found, those that are required on the host.
pub proof fn required_things_are_there(c: AgentConfig)
    ensures
        spec_fault(c) is None <==> {
            &&& forall|i: int|
                0 <= i < c.secrets@.len() && (#[trigger] c.secrets@[i]).source_command is None
                    && c.secrets@[i].source_env@.len() > 0 && c.secrets@[i].required
                    ==> c.secrets@[i].value is Some
            &&& forall|i: int|
                0 <= i < c.grants@.len() ==> (#[trigger] c.grants@[i]).source is Ok && (
                c.grants@[i].required ==> c.grants@[i].exists)
        },
{
    lemma_secret_fault(c.secrets@, 0);
    lemma_grant_fault(c.grants@, 0);
}

proof fn lemma_secret_fault(ss: Seq<SecretEnv>, from: int)
    requires
        0 <= from,
    ensures
        secret_fault(ss, from) is None <==> forall|i: int|
            from <= i < ss.len() && (#[trigger] ss[i]).source_command is None
                && ss[i].source_env@.len() > 0 && ss[i].required ==> ss[i].value is Some,
    decreases ss.len() - from,
{
    if from < ss.len() {
        lemma_secret_fault(ss, from + 1);
        assert(ss[from] == ss[from]);
    }
}

proof fn lemma_grant_fault(gs: Seq<Grant>, from: int)
    requires
        0 <= from,
    ensures
        grant_fault(gs, from) is None <==> forall|i: int|
            from <= i < gs.len() ==> (#[trigger] gs[i]).source is Ok && (gs[i].required
                ==> gs[i].exists),
    decreases gs.len() - from,
{
    if from < gs.len() {
        lemma_grant_fault(gs, from + 1);
        assert(gs[from] == gs[from]);
    }
}

/// The secrets in the container are those of host variables that have a value, each of
/// them, once, in their order, behind the home directory.
pub proof fn set_secrets_get_in(ss: Seq<SecretEnv>, n: int) -> (js: Seq<int>)
    requires
        0 <= n <= ss.len(),
    ensures
        ascending(js, n),
        forall|i: int|
            0 <= i < n ==> (#[trigger] js.contains(i) <==> ss[i].source_command is None
                && ss[i].source_env@.len() > 0 && ss[i].value is Some),
        secret_env(ss, n) == seq![("HOME"@, "/tmp"@)] + Seq::new(
            js.len(),
            |k: int| (ss[js[k]].name@, (ss[js[k]].value->0)@),
        ),
    decreases n,
{
    if n == 0 {
        let js: Seq<int> = seq![];
        assert(secret_env(ss, n) =~= seq![("HOME"@, "/tmp"@)] + Seq::new(
            js.len(),
            |k: int| (ss[js[k]].name@, (ss[js[k]].value->0)@),
        ));
        js
    } else {
        let before = set_secrets_get_in(ss, n - 1);
        lemma_one_more(before, n - 1);
        if ss[n - 1].source_command is None && ss[n - 1].source_env@.len() > 0
            && ss[n - 1].value is Some {
            let js = before.push(n - 1);
            assert(secret_env(ss, n) =~= seq![("HOME"@, "/tmp"@)] + Seq::new(
                js.len(),
                |k: int| (ss[js[k]].name@, (ss[js[k]].value->0)@),
            ));
            js
        } else {
            before
        }
    }
}

/// The limits on a container are the configured ones: its memory and processors, its
/// user, a number of processes, no capability more and no way to gain any. With a
/// gateway it is on the gateway's network, with neither IPv6 nor the right to change
/// its user; without one it is on no network of its own.
pub proof fn containers_are_confined(c: AgentConfig, s: ContainerSpec)
    requires
        spec_matches(c, s),
    ensures
        s.name@ == c.container_name@ && s.image@ == c.image@ && s.workdir@ == c.workdir@,
        s.memory == c.memory && s.nano_cpus == c.nano_cpus && s.user == c.user,
        s.pids_limit == Some(4096u32),
        s.cap_add@.len() == 0,
        strs(s.security_opt@).contains("no-new-privileges"@),
        c.gateway is Some ==> {
            &&& s.network is Some && (s.network->0)@ == (c.gateway->0).agent_net@
            &&& pair_views(s.sysctls@).contains(("net.ipv6.conf.all.disable_ipv6"@, "1"@))
            &&& strs(s.cap_drop@).contains("SETUID"@)
            &&& strs(s.cap_drop@).contains("SETGID"@)
        },
        c.gateway is None ==> s.network is None && s.dns@.len() == 0,
{
    assert(strs(s.security_opt@)[0] == "no-new-privileges"@);
    if c.gateway is Some {
        let caps = crate::gateway::dropped_caps();
        assert(caps[2] == "SETUID"@);
        assert(caps[3] == "SETGID"@);
        assert(pair_views(s.sysctls@)[0] == ("net.ipv6.conf.all.disable_ipv6"@, "1"@));
    }
}

// ---------------------------------------------------------------------------
// Which image
// ---------------------------------------------------------------------------

/// An image that is built here: from which file, in which directory, and whether the
/// image it extends has to be there first.
#[derive(Debug, PartialEq, Eq)]
pub struct DerivedImage {
    pub dockerfile: String,
    pub context: String,
    pub ensure_base: bool,
}

/// The tag of an image that a project's own file describes: it changes with the
/// project and with the file's content.
pub open spec fn derived_tag(root: Seq<char>, content: Seq<u8>) -> Seq<char> {
    "cowboy/agent-"@ + hex8(low_half(path_hash(root))) + ":"@ + hex8(
        low_half(bytes_hash(content)),
    )
}

/// The image that a project runs, and how it is built where it is built here. A file
/// that is configured comes first, then the project's own, then the configured image.
pub fn resolve_image(
    root: &str,
    image: &str,
    dockerfile: &Option<String>,
    project_dockerfile: &Option<Vec<u8>>,
) -> (r: (String, Option<DerivedImage>))
    ensures
        match (*dockerfile, *project_dockerfile) {
            (Some(f), _) => {
                &&& r.0@ == image@
                &&& r.1 is Some
                &&& (r.1->0).dockerfile@ == f@
                &&& (r.1->0).context@ == root@
                &&& !(r.1->0).ensure_base
            },
            (None, Some(content)) => {
                &&& r.0@ == derived_tag(root@, content@)
                &&& r.1 is Some
                &&& (r.1->0).dockerfile@ == root@ + "/.cowboy/Dockerfile"@
                &&& (r.1->0).context@ == root@
                &&& (r.1->0).ensure_base
            },
            (None, None) => r.0@ == image@ && r.1 is None,
        },
{
    match dockerfile {
        Some(f) => {
            return (
                image.to_owned(),
                Some(
                    DerivedImage {
                        dockerfile: f.clone(),
                        context: root.to_owned(),
                        ensure_base: false,
                    },
                ),
            );
        },
        None => {},
    }
    match project_dockerfile {
        Some(content) => {
            let mut tag = "cowboy/agent-".to_owned();
            tag.push_str(&hexadecimal(project_hash(root)));
            tag.push_str(":");
            tag.push_str(&hexadecimal(content_hash(content)));
            let mut file = root.to_owned();
            file.push_str("/.cowboy/Dockerfile");
            (
                tag,
                Some(
                    DerivedImage {
                        dockerfile: file,
                        context: root.to_owned(),
                        ensure_base: true,
                    },
                ),
            )
        },
        None => (image.to_owned(), None),
    }
}

/// How an image is made available.
#[derive(Debug, Clone, Copy, PartialEq, Eq, Structural)]
pub enum ImageAction {
    /// It is there.
    Nothing,
    /// It is built from the project's file, after the image it extends where asked.
    BuildDerived { base_first: bool },
    /// It is the one that comes with the program.
    Bundled,
    /// It is built from the program's own source.
    BuildSource,
    /// It is pulled.
    Pull,
}

/// How the image of a project is made available.
pub fn image_action(present: bool, derived: &Option<DerivedImage>, image: &str, version: &str) -> (r:
    ImageAction)
    ensures
        r == if present {
            ImageAction::Nothing
        } else if derived is Some {
            ImageAction::BuildDerived { base_first: (derived->0).ensure_base }
        } else if image@ == "ghcr.io/koshea/cowboy/agent:"@ + version@ {
            ImageAction::Bundled
        } else {
            ImageAction::Pull
        },
{
    if present {
        return ImageAction::Nothing;
    }
    match derived {
        Some(d) => ImageAction::BuildDerived { base_first: d.ensure_base },
        None => if crate::text::same(image, &default_image(version)) {
            ImageAction::Bundled
        } else {
            ImageAction::Pull
        },
    }
}

/// How an image that comes with the program is made available: it is built where the
/// program's source is at hand, and pulled elsewhere.
pub fn bundled_action(present: bool, has_source: bool) -> (r: ImageAction)
    ensures
        r == if present {
            ImageAction::Nothing
        } else if has_source {
            ImageAction::BuildSource
        } else {
            ImageAction::Pull
        },
{
    if present {
        ImageAction::Nothing
    } else if has_source {
        ImageAction::BuildSource
    } else {
        ImageAction::Pull
    }
}

/// The source tree that images are built from: one that is named, else the one the
/// program was built in, unless that lies in cargo's cache.
pub fn pick_source_root(
    explicit: Option<String>,
    compile_root: Option<String>,
    cargo_home: &Option<String>,
) -> (r: Option<String>)
    ensures
        r == if explicit is Some {
            explicit
        } else if compile_root is Some && cargo_home is Some && lies_under(
            (compile_root->0)@,
            (cargo_home->0)@,
        ) {
            None
        } else {
            compile_root
        },
{
    if explicit.is_some() {
        return explicit;
    }
    match (&compile_root, cargo_home) {
        (Some(p), Some(home)) => {
            if starts_with_path(p, home) {
                return None;
            }
        },
        _ => {},
    }
    compile_root
}

// ---------------------------------------------------------------------------
// Bringing it up
// ---------------------------------------------------------------------------

/// What is known of the version that made a container.
#[derive(Debug)]
pub enum VersionLabel {
    Found(String),
    Missing,
    /// Docker could not be asked.
    Unknown,
}

/// What is done to have a container running.
#[derive(Debug, Clone, Copy, PartialEq, Eq, Structural)]
pub enum RunAction {
    Nothing,
    /// It is started, and its gateway with it.
    Start,
    Create,
    /// It was made by another version: it is removed and created anew.
    Recreate,
}

/// A container was made by another version than this: its label says so, or it has
/// none. Where Docker could not be asked, it is left alone.
pub open spec fn other_version(label: VersionLabel, version: Seq<char>) -> bool {
    match label {
        VersionLabel::Found(v) => v@ != version,
        VersionLabel::Missing => true,
        VersionLabel::Unknown => false,
    }
}

/// What is done to have a container running.
pub fn run_action(state: ContainerState, label: &VersionLabel, version: &str) -> (r: RunAction)
    ensures
        r == if state == ContainerState::Absent {
            RunAction::Create
        } else if other_version(*label, version@) {
            RunAction::Recreate
        } else if state == ContainerState::Running {
            RunAction::Nothing
        } else {
            RunAction::Start
        },
{
    match state {
        ContainerState::Absent => {
            return RunAction::Create;
        },
        _ => {},
    }
    let other = match label {
        VersionLabel::Found(v) => !crate::text::same(v, version),
        VersionLabel::Missing => true,
        VersionLabel::Unknown => false,
    };
    if other {
        return RunAction::Recreate;
    }
    match state {
        ContainerState::Running => RunAction::Nothing,
        _ => RunAction::Start,
    }
}

/// Whether an agent may run under this user: with its network isolated, the host's
/// root may not, for it would be exempt from the gateway's rules.
pub fn may_run(isolated: bool, uid: u32) -> (r: Result<(), String>)
    ensures
        r is Err <==> isolated && uid == 0,
        r is Err ==> r->Err_0@
            == "refusing to run as root with network isolation: the sandboxed agent runs as your uid, but as root it would inherit the gateway's egress exemption. Run cowboy as a non-root user."@,
{
    if isolated && uid == 0 {
        Err(
            "refusing to run as root with network isolation: the sandboxed agent runs as your uid, but as root it would inherit the gateway's egress exemption. Run cowboy as a non-root user.".to_owned(),
        )
    } else {
        Ok(())
    }
}

/// The shared git directory that a linked worktree needs: the one git names, where it
/// lies outside the project and exists. A project that is no linked worktree has its
/// own, and needs none.
pub fn git_common_dir(
    root: &str,
    git_is_file: bool,
    success: bool,
    stdout: &Vec<u8>,
    present: bool,
) -> (r: Option<String>)
    ensures
        r is Some <==> {
            &&& git_is_file
            &&& success
            &&& present
            &&& trim(lossy(stdout@)).len() > 0
            &&& !lies_under(trim(lossy(stdout@)), root@)
        },
        r is Some ==> (r->0)@ == trim(lossy(stdout@)),
{
    if !git_is_file || !success {
        return None;
    }
    let dir = trimmed(&from_utf8_lossy(stdout));
    if dir.as_str().is_empty() || starts_with_path(&dir, root) || !present {
        return None;
    }
    Some(dir)
}

/// The root that all worktrees of a repository share: the directory that the common
/// directory of git lies in, or the project's own where git names none.
pub open spec fn shared_root(root: Seq<char>, success: bool, stdout: Seq<u8>) -> Seq<char> {
    match parent_path(trim(lossy(stdout))) {
        Some(d) => if success && d.len() > 0 {
            d
        } else {
            root
        },
        None => root,
    }
}

/// The root that all worktrees of a repository share, from what git says of its common
/// directory.
pub fn overlay_root(root: &str, success: bool, stdout: &Vec<u8>) -> (r: String)
    ensures
        r@ == shared_root(root@, success, stdout@),
{
    match parent(&trimmed(&from_utf8_lossy(stdout))) {
        Some(d) => {
            if success && !d.as_str().is_empty() {
                return d;
            }
        },
        None => {},
    }
    root.to_owned()
}

/// The command line of a command whose output is captured: it runs in a login shell.
pub fn capture_argv(command: &str) -> (r: Vec<String>)
    ensures
        strs(r@) == seq!["sh"@, "-lc"@, command@],
{
    let mut v: Vec<String> = Vec::new();
    v.push("sh".to_owned());
    v.push("-lc".to_owned());
    v.push(command.to_owned());
    assert(strs(v@) =~= seq!["sh"@, "-lc"@, command@]);
    v
}

/// How long a captured command may run, in seconds; zero is without end.
pub fn capture_limit(secs: u64) -> (r: Option<u64>)
    ensures
        r == if secs == 0 {
            None
        } else {
            Some(secs)
        },
{
    if secs == 0 {
        None
    } else {
        Some(secs)
    }
}

/// What comes of a captured command: its exit code and output, or where it ran out of
/// time, the code for that and a note.
pub fn captured(ended: Option<(ExecResult, String)>, secs: u64) -> (r: (ExecResult, String))
    ensures
        match ended {
            Some(e) => r == e,
            None => r.0.exit_code == 124 && r.1@ == "[command timed out after "@ + dec(secs as nat) + "s]"@,
        },
{
    match ended {
        Some(e) => e,
        None => (ExecResult { exit_code: 124 }, timeout_note(secs)),
    }
}

/// The shell that ends every process that the container manages.
pub fn stop_script(workdir: &str) -> (r: String)
    ensures
        r@ == "for f in "@ + workdir@ + "/.cowboy/proc/*.pid; do [ -f \"$f\" ] && kill -TERM -\"$(cat \"$f\")\" 2>/dev/null; done; true"@,
{
    let mut out = "for f in ".to_owned();
    out.push_str(workdir);
    out.push_str("/.cowboy/proc/*.pid; do [ -f \"$f\" ] && kill -TERM -\"$(cat \"$f\")\" 2>/dev/null; done; true");
    out
}

/// What is said of a command that ran out of time.
pub fn timeout_note(secs: u64) -> (r: String)
    ensures
        r@ == "[command timed out after "@ + dec(secs as nat) + "s]"@,
{
    let mut out = "[command timed out after ".to_owned();
    out.push_str(&decimal(secs as u128));
    out.push_str("s]");
    out
}

// ---------------------------------------------------------------------------
// Resources
// ---------------------------------------------------------------------------

/// `s` is the word `auto`, in upper or lower case.
pub open spec fn is_auto(s: Seq<char>) -> bool {
    &&& s.len() == 4
    &&& ascii_lower(s[0]) == 'a'
    &&& ascii_lower(s[1]) == 'u'
    &&& ascii_lower(s[2]) == 't'
    &&& ascii_lower(s[3]) == 'o'
}

/// The memory of a container: as configured, or for `auto` as many MiB as the host
/// affords, where that is known.
pub fn resolve_memory(memory: &Option<String>, auto_mib: Option<u64>) -> (r: Option<String>)
    ensures
        match *memory {
            None => r is None,
            Some(m) => if is_auto(m@) {
                match auto_mib {
                    Some(n) => r is Some && (r->0)@ == dec(n as nat) + "m"@,
                    None => r is None,
                }
            } else {
                r == Some(m)
            },
        },
{
    match memory {
        None => None,
        Some(m) => {
            let cs = chars_of(m);
            let auto = cs.len() == 4 && (cs[0] == 'a' || cs[0] == 'A') && (cs[1] == 'u' || cs[1]
                == 'U') && (cs[2] == 't' || cs[2] == 'T') && (cs[3] == 'o' || cs[3] == 'O');
            if auto {
                match auto_mib {
                    Some(n) => {
                        let mut out = decimal(n as u128);
                        out.push_str("m");
                        Some(out)
                    },
                    None => None,
                }
            } else {
                Some(m.clone())
            }
        },
    }
}

/// The number in the first word of `s`, where it writes one that fits.
pub open spec fn first_number(s: Seq<char>) -> Option<nat> {
    if words(s).len() == 0 {
        None
    } else {
        natural(words(s)[0])
    }
}

/// The number that `s` writes in decimal, a sign in front allowed, where it fits in 64
/// bits.
pub open spec fn natural(s: Seq<char>) -> Option<nat> {
    let t = if s.len() > 0 && s[0] == '+' {
        s.drop_first()
    } else {
        s
    };
    if crate::container::all_digits(t) && crate::container::value(t) <= u64::MAX {
        Some(crate::container::value(t))
    } else {
        None
    }
}

/// The host's memory in MiB, from the first line of `meminfo` that tells it.
pub open spec fn meminfo_mib(ls: Seq<Seq<char>>, from: int) -> Option<nat>
    decreases ls.len() - from,
{
    if from < 0 || from >= ls.len() {
        None
    } else if starts_with(ls[from], "MemTotal:"@) {
        match first_number(ls[from].skip("MemTotal:"@.len() as int)) {
            Some(kb) => Some(kb / 1024),
            None => None,
        }
    } else {
        meminfo_mib(ls, from + 1)
    }
}

/// The number that `s` writes.
pub fn parse_u64(s: &str) -> (r: Option<u64>)
    ensures
        match r {
            Some(n) => natural(s@) == Some(n as nat),
            None => natural(s@) is None,
        },
{
    let cs = chars_of(s);
    let start: usize = if cs.len() > 0 && cs[0] == '+' { 1 } else { 0 };
    let ghost t = if s@.len() > 0 && s@[0] == '+' {
        s@.drop_first()
    } else {
        s@
    };
    assert(t =~= s@.skip(start as int));
    if start >= cs.len() {
        assert(t.len() == 0);
        return None;
    }
    let mut v: u128 = 0;
    let mut fits = true;
    let mut i: usize = start;
    assert(t.take(0) =~= seq![]);
    while i < cs.len()
        invariant
            start <= i <= cs@.len(),
            start < cs@.len(),
            cs@ == s@,
            t == s@.skip(start as int),
            start == (if s@.len() > 0 && s@[0] == '+' {
                1int
            } else {
                0int
            }),
            s@.len() > 0 && s@[0] == '+' ==> t == s@.drop_first(),
            !(s@.len() > 0 && s@[0] == '+') ==> t == s@,
            forall|k: int| 0 <= k < i - start ==> is_digit(#[trigger] t[k]),
            fits ==> v == crate::container::value(t.take(i - start)) && v <= u64::MAX,
            !fits ==> crate::container::value(t.take(i - start)) > u64::MAX,
        decreases cs.len() - i,
    {
        let c = cs[i];
        assert(t[i - start] == c);
        if !(c >= '0' && c <= '9') {
            assert(!is_digit(t[i - start]));
            return None;
        }
        assert(t.take(i + 1 - start).drop_last() =~= t.take(i - start));
        assert(t.take(i + 1 - start).last() == c);
        if fits {
            v = 10 * v + ((c as u32 - '0' as u32) as u128);
            fits = v <= u64::MAX as u128;
        }
        i = i + 1;
    }
    assert(t.take(i - start) =~= t);
    if fits {
        Some(v as u64)
    } else {
        None
    }
}

/// The host's memory in MiB, as `meminfo` tells it.
pub fn total_mib(meminfo: &str) -> (r: Option<u64>)
    ensures
        match r {
            Some(n) => meminfo_mib(lines(meminfo@), 0) == Some(n as nat),
            None => meminfo_mib(lines(meminfo@), 0) is None,
        },
{
    let ls = split_lines(meminfo);
    let ghost gs = strs(ls@);
    let mut i: usize = 0;
    while i < ls.len()
        invariant
            i <= ls@.len(),
            gs == strs(ls@),
            gs == lines(meminfo@),
            meminfo_mib(gs, 0) == meminfo_mib(gs, i as int),
        decreases ls.len() - i,
    {
        assert(gs[i as int] == ls@[i as int]@);
        match strip_prefix(&ls[i], "MemTotal:") {
            Some(rest) => {
                let ws = split_whitespace(&rest);
                assert(strs(ws@).len() == ws@.len());
                if ws.len() == 0 {
                    return None;
                }
                assert(strs(ws@)[0] == ws@[0]@);
                return match parse_u64(&ws[0]) {
                    Some(kb) => Some(kb / 1024),
                    None => None,
                };
            },
            None => {},
        }
        i = i + 1;
    }
    assert(gs.len() == ls@.len());
    None
}

// ---------------------------------------------------------------------------
// Laws
// ---------------------------------------------------------------------------

/// A number in decimal is read, with or without a plus sign, where it fits.
pub proof fn numbers_are_read(n: nat)
    ensures
        n <= u64::MAX ==> natural(dec(n)) == Some(n) && natural(seq!['+'] + dec(n)) == Some(n),
        n > u64::MAX ==> natural(dec(n)) is None,
{
    crate::container::decimals_are_read_back(n);
    assert(is_digit(dec(n)[0]));
    assert((seq!['+'] + dec(n)).drop_first() =~= dec(n));
}

/// The memory of the host is the number of the first line that tells it, which counts in
/// kilobytes, in megabytes.
pub proof fn memory_is_told_in_kilobytes(
    ls: Seq<Seq<char>>,
    k: int,
    space: Seq<char>,
    kb: nat,
    behind: Seq<char>,
)
    requires
        0 <= k < ls.len(),
        ls[k] == "MemTotal:"@ + (space + dec(kb) + behind),
        forall|i: int| 0 <= i < k ==> !starts_with(#[trigger] ls[i], "MemTotal:"@),
        forall|i: int| 0 <= i < space.len() ==> crate::text::is_ws(#[trigger] space[i]),
        behind.len() > 0 ==> crate::text::is_ws(behind[0]),
        kb <= u64::MAX,
    ensures
        meminfo_mib(ls, 0) == Some((kb / 1024) as nat),
{
    lemma_meminfo(ls, 0, k);
    let head = "MemTotal:"@;
    let rest = space + dec(kb) + behind;
    assert(ls[k].subrange(0, head.len() as int) =~= head);
    assert(ls[k].skip(head.len() as int) =~= rest);
    crate::container::decimals_are_read_back(kb);
    assert forall|i: int| 0 <= i < dec(kb).len() implies !crate::text::is_ws(
        #[trigger] dec(kb)[i],
    ) by {
        assert(is_digit(dec(kb)[i]));
    }
    crate::words::words_stand_between_white_space(space, dec(kb), behind);
    assert(words(rest)[0] == dec(kb));
    numbers_are_read(kb);
}

proof fn lemma_meminfo(ls: Seq<Seq<char>>, from: int, k: int)
    requires
        0 <= from <= k < ls.len(),
        forall|i: int| from <= i < k ==> !starts_with(#[trigger] ls[i], "MemTotal:"@),
    ensures
        meminfo_mib(ls, from) == meminfo_mib(ls, k),
    decreases k - from,
{
    if from < k {
        assert(!starts_with(ls[from], "MemTotal:"@));
        lemma_meminfo(ls, from + 1, k);
    }
}

} // verus!
