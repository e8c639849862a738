//! The gateway that an agent's traffic goes through.

use crate::container::{BindMount, ContainerSpec, ContainerState, NetworkSpec};
use crate::paths::{below, hex, hex8, hex_digit, hexadecimal, mount_source};
use crate::runtime::{mount_views, pair_views, MountView};
use crate::search::{contains, has};
use crate::text::{is_digit, strs};
use crate::view::lemma_dec_digits;
use crate::words::{dec, decimal};
use crate::worktree::lemma_dec_injective;
use vstd::prelude::*;

verus! {

broadcast use vstd::string::group_string_axioms;

/// The image of the gateway, pinned to a version.
pub fn gateway_image(version: &str) -> (r: String)
    ensures
        r@ == "ghcr.io/koshea/cowboy/gateway:"@ + version@,
{
    let mut out = "ghcr.io/koshea/cowboy/gateway:".to_owned();
    out.push_str(version);
    out
}

/// The names of a project's network and of its gateway's container.
pub fn network_names(hash: u32) -> (r: (String, String))
    ensures
        r.0@ == "cowboy-net-"@ + hex8(hash),
        r.1@ == "cowboy-gw-"@ + hex8(hash),
{
    let h = hexadecimal(hash);
    let mut net = "cowboy-net-".to_owned();
    net.push_str(&h);
    let mut gw = "cowboy-gw-".to_owned();
    gw.push_str(&h);
    (net, gw)
}

/// A project's network and gateway.
#[derive(Debug, Clone)]
pub struct GatewayNetwork {
    /// The network of the agent, whose namespace the gateway shares.
    pub agent_net: String,
    pub gateway_name: String,
    pub subnet: String,
    /// The host's address in that network.
    pub bridge_gateway: String,
    pub policy_file: String,
    /// Where the gateway reaches the host.
    pub control_addr: String,
    /// Where the host listens.
    pub control_bind_addr: String,
    /// What the gateway has to present there.
    pub control_token: String,
}

/// How many subnets there are.
pub const SUBNETS: u32 = 33600;

/// The second number of a project's subnet, from 88 to 255.
pub open spec fn second_octet(hash: u32) -> nat {
    (88 + hash % SUBNETS / 200) as nat
}

/// The third number of a project's subnet, from 20 to 219.
pub open spec fn third_octet(hash: u32) -> nat {
    (20 + hash % SUBNETS % 200) as nat
}

/// What the addresses of a project's network start with.
pub open spec fn net_prefix(hash: u32) -> Seq<char> {
    "10."@ + dec(second_octet(hash)) + "."@ + dec(third_octet(hash))
}

/// A project's subnet.
pub open spec fn subnet_text(hash: u32) -> Seq<char> {
    net_prefix(hash) + ".0/24"@
}

/// The first address of a project's subnet, as a number; there are 256 of them.
pub open spec fn first_address(hash: u32) -> nat {
    ((10 * 256 + second_octet(hash)) * 256 + third_octet(hash)) * 256
}

/// The port that the host listens on.
pub open spec fn control_port(hash: u32) -> nat {
    (9000 + hash % 1000) as nat
}

/// The host's address in a project's network.
pub open spec fn bridge_address(hash: u32) -> Seq<char> {
    net_prefix(hash) + ".1"@
}

/// The capabilities that the agent has to do without.
pub open spec fn dropped_caps() -> Seq<Seq<char>> {
    seq!["NET_ADMIN"@, "NET_RAW"@, "SETUID"@, "SETGID"@]
}

/// The names that the agent knows besides.
pub open spec fn known_hosts() -> Seq<Seq<char>> {
    seq!["host.docker.internal:host-gateway"@]
}

/// What is done to have the gateway running.
#[derive(Debug, Clone, Copy, PartialEq, Eq, Structural)]
pub enum SidecarAction {
    Nothing,
    Run,
    /// It is left from an agent that is gone: it is removed first.
    Replace,
}

impl GatewayNetwork {
    /// The network and gateway of a project, from a hash of its path: projects with
    /// different hashes have different names, and those whose hashes differ by other than
    /// a multiple of the number of subnets have subnets that do not overlap. On Linux the
    /// host listens on its address in the network, elsewhere on the loopback, and never
    /// on all.
    pub fn for_project(hash: u32, linux: bool, policy_file: String, control_token: String) -> (r:
        GatewayNetwork)
        ensures
            r.agent_net@ == "cowboy-net-"@ + hex8(hash),
            r.gateway_name@ == "cowboy-gw-"@ + hex8(hash),
            r.subnet@ == subnet_text(hash),
            r.bridge_gateway@ == bridge_address(hash),
            r.policy_file == policy_file,
            r.control_token == control_token,
            r.control_addr@ == (if linux {
                bridge_address(hash)
            } else {
                "host.docker.internal"@
            }) + ":"@ + dec(control_port(hash)),
            r.control_bind_addr@ == (if linux {
                bridge_address(hash)
            } else {
                "127.0.0.1"@
            }) + ":"@ + dec(control_port(hash)),
    {
        let slot: u32 = hash % SUBNETS;
        let mut prefix = "10.".to_owned();
        prefix.push_str(&decimal((88 + slot / 200) as u128));
        prefix.push_str(".");
        prefix.push_str(&decimal((20 + slot % 200) as u128));
        let mut subnet = prefix.clone();
        subnet.push_str(".0/24");
        let mut bridge_gateway = prefix;
        bridge_gateway.push_str(".1");
        let port = decimal((9000 + hash % 1000) as u128);
        let mut control_addr = if linux {
            bridge_gateway.clone()
        } else {
            "host.docker.internal".to_owned()
        };
        control_addr.push_str(":");
        control_addr.push_str(&port);
        let mut control_bind_addr = if linux {
            bridge_gateway.clone()
        } else {
            "127.0.0.1".to_owned()
        };
        control_bind_addr.push_str(":");
        control_bind_addr.push_str(&port);
        let (agent_net, gateway_name) = network_names(hash);
        GatewayNetwork {
            agent_net,
            gateway_name,
            subnet,
            bridge_gateway,
            policy_file,
            control_addr,
            control_bind_addr,
            control_token,
        }
    }

    /// The network of the agent.
    pub fn agent_net(&self) -> (r: &str)
        ensures
            r@ == self.agent_net@,
    {
        self.agent_net.as_str()
    }

    /// The names that the agent knows besides.
    pub fn agent_extra_hosts(&self) -> (r: Vec<String>)
        ensures
            strs(r@) == known_hosts(),
    {
        let mut v: Vec<String> = Vec::new();
        v.push("host.docker.internal:host-gateway".to_owned());
        assert(strs(v@) =~= known_hosts());
        v
    }

    /// Where the gateway reaches the host.
    pub fn control_addr(&self) -> (r: &str)
        ensures
            r@ == self.control_addr@,
    {
        self.control_addr.as_str()
    }

    /// Where the host listens.
    pub fn control_bind_addr(&self) -> (r: &str)
        ensures
            r@ == self.control_bind_addr@,
    {
        self.control_bind_addr.as_str()
    }

    /// What the gateway has to present.
    pub fn control_token(&self) -> (r: &str)
        ensures
            r@ == self.control_token@,
    {
        self.control_token.as_str()
    }

    /// The capabilities that the agent has to do without: it can neither change the
    /// rules of its network nor its identity.
    pub fn agent_caps(&self) -> (r: Vec<String>)
        ensures
            strs(r@) == dropped_caps(),
    {
        let mut v: Vec<String> = Vec::new();
        v.push("NET_ADMIN".to_owned());
        v.push("NET_RAW".to_owned());
        v.push("SETUID".to_owned());
        v.push("SETGID".to_owned());
        assert(strs(v@) =~= dropped_caps());
        v
    }

    /// The network as Docker is asked for it.
    pub fn network_spec(&self) -> (r: NetworkSpec)
        ensures
            r.name@ == self.agent_net@,
            !r.internal,
            r.subnet is Some && (r.subnet->0)@ == self.subnet@,
            r.gateway is Some && (r.gateway->0)@ == self.bridge_gateway@,
    {
        NetworkSpec {
            name: self.agent_net.clone(),
            internal: false,
            subnet: Some(self.subnet.clone()),
            gateway: Some(self.bridge_gateway.clone()),
        }
    }

    /// The container of the gateway: it shares the agent's network, reads the policy,
    /// and may change the rules.
    pub fn gateway_spec(&self, agent: &str, version: &str) -> (r: ContainerSpec)
        ensures
            r.name@ == self.gateway_name@,
            r.image@ == "ghcr.io/koshea/cowboy/gateway:"@ + version@,
            r.workdir@.len() == 0,
            mount_views(r.mounts@) == seq![
                MountView {
                    source: self.policy_file@,
                    target: "/etc/cowboy/policy.json"@,
                    read_only: true,
                },
            ],
            pair_views(r.env@) == seq![
                ("COWBOY_POLICY_FILE"@, "/etc/cowboy/policy.json"@),
                ("COWBOY_AGENT_SUBNET"@, self.subnet@),
                ("COWBOY_CONTROL_ADDR"@, self.control_addr@),
                ("COWBOY_CONTROL_TOKEN"@, self.control_token@),
            ],
            r.network is Some && (r.network->0)@ == "container:"@ + agent@,
            r.ip is None,
            r.memory is None,
            r.nano_cpus is None,
            r.cap_drop@.len() == 0,
            strs(r.cap_add@) == seq!["NET_ADMIN"@, "NET_RAW"@],
            r.sysctls@.len() == 0,
            r.dns@.len() == 0,
            r.extra_hosts@.len() == 0,
            r.user is None,
            r.security_opt@.len() == 0,
            r.pids_limit is None,
            r.entrypoint is None,
            r.keep_alive is Some && (r.keep_alive->0)@.len() == 0,
    {
        let mut mounts: Vec<BindMount> = Vec::new();
        mounts.push(BindMount::ro(&self.policy_file, "/etc/cowboy/policy.json"));
        let mut env: Vec<(String, String)> = Vec::new();
        env.push(("COWBOY_POLICY_FILE".to_owned(), "/etc/cowboy/policy.json".to_owned()));
        env.push(("COWBOY_AGENT_SUBNET".to_owned(), self.subnet.clone()));
        env.push(("COWBOY_CONTROL_ADDR".to_owned(), self.control_addr.clone()));
        env.push(("COWBOY_CONTROL_TOKEN".to_owned(), self.control_token.clone()));
        let mut network = "container:".to_owned();
        network.push_str(agent);
        let mut cap_add: Vec<String> = Vec::new();
        cap_add.push("NET_ADMIN".to_owned());
        cap_add.push("NET_RAW".to_owned());
        assert(strs(cap_add@) =~= seq!["NET_ADMIN"@, "NET_RAW"@]);
        assert(mount_views(mounts@) =~= seq![
            MountView {
                source: self.policy_file@,
                target: "/etc/cowboy/policy.json"@,
                read_only: true,
            },
        ]);
        assert(pair_views(env@) =~= seq![
            ("COWBOY_POLICY_FILE"@, "/etc/cowboy/policy.json"@),
            ("COWBOY_AGENT_SUBNET"@, self.subnet@),
            ("COWBOY_CONTROL_ADDR"@, self.control_addr@),
            ("COWBOY_CONTROL_TOKEN"@, self.control_token@),
        ]);
        let mut spec = ContainerSpec::default();
        spec.name = self.gateway_name.clone();
        spec.image = gateway_image(version);
        spec.mounts = mounts;
        spec.env = env;
        spec.network = Some(network);
        spec.cap_add = cap_add;
        spec.keep_alive = Some(Vec::new());
        spec
    }
}

/// What is done to have the gateway running.
pub fn sidecar_action(state: ContainerState) -> (r: SidecarAction)
    ensures
        r == match state {
            ContainerState::Running => SidecarAction::Nothing,
            ContainerState::Stopped => SidecarAction::Replace,
            ContainerState::Absent => SidecarAction::Run,
        },
{
    match state {
        ContainerState::Running => SidecarAction::Nothing,
        ContainerState::Stopped => SidecarAction::Replace,
        ContainerState::Absent => SidecarAction::Run,
    }
}

/// Whether the gateway is ready: the listing of sockets worked and shows its proxy.
pub fn proxy_ready(exit_code: i32, sockets: &str) -> (r: bool)
    ensures
        r == (exit_code == 0 && contains(sockets@, ":8443"@)),
{
    exit_code == 0 && has(sockets, ":8443")
}

/// How often the gateway is asked whether it is ready.
pub const READY_TRIES: u32 = 100;

/// What follows one look at whether the gateway is ready.
#[derive(Debug, PartialEq, Eq)]
pub enum ReadyStep {
    Done,
    /// It is looked at again after a moment.
    Again,
    /// It is given up, with what is said of it.
    Refuse(String),
}

/// What follows the `tries`th look at whether the gateway is ready: without it the agent
/// does not run.
pub fn ready_step(tries: u32, ready: bool) -> (r: ReadyStep)
    ensures
        if ready {
            r is Done
        } else if tries < READY_TRIES {
            r is Again
        } else {
            r matches ReadyStep::Refuse(why) && why@
                == "gateway proxy never bound its listener; refusing to run the agent unsandboxed"@
        },
{
    if ready {
        ReadyStep::Done
    } else if tries < READY_TRIES {
        ReadyStep::Again
    } else {
        ReadyStep::Refuse(
            "gateway proxy never bound its listener; refusing to run the agent unsandboxed".to_owned(),
        )
    }
}

/// The file that a project's policy is written to, in a directory for such files.
pub fn policy_file(dir: &str, hash: u32) -> (r: String)
    ensures
        r@ == below(dir@, "cowboy-policy-"@ + hex8(hash) + ".json"@),
{
    let mut name = "cowboy-policy-".to_owned();
    name.push_str(&hexadecimal(hash));
    name.push_str(".json");
    mount_source(dir, &name)
}

/// The token of a session's gateway: the one that is given, where it is not empty, and
/// else a fresh one.
pub fn pick_token(given: Option<String>, fresh: String) -> (r: String)
    ensures
        r == match given {
            Some(t) => if t@.len() > 0 {
                t
            } else {
                fresh
            },
            None => fresh,
        },
{
    match given {
        Some(t) => {
            if t.as_str().is_empty() {
                fresh
            } else {
                t
            }
        },
        None => fresh,
    }
}

/// Networks of two projects overlap only where their hashes differ by a multiple of the
/// number of subnets.
pub proof fn subnets_do_not_overlap(a: u32, b: u32)
    requires
        a % SUBNETS != b % SUBNETS,
    ensures
        first_address(a) + 256 <= first_address(b) || first_address(b) + 256 <= first_address(a),
        subnet_text(a) != subnet_text(b),
        bridge_address(a) != bridge_address(b),
{
    let x = a % SUBNETS;
    let y = b % SUBNETS;
    assert(x / 200 != y / 200 || x % 200 != y % 200);
    if net_prefix(a) == net_prefix(b) {
        lemma_prefix_tells(a, b);
    }
    if subnet_text(a) == subnet_text(b) {
        assert(subnet_text(a).take(net_prefix(a).len() as int) =~= net_prefix(a));
        assert(subnet_text(b).take(net_prefix(b).len() as int) =~= net_prefix(b));
        assert(subnet_text(a).len() == net_prefix(a).len() + ".0/24"@.len());
        assert(subnet_text(b).len() == net_prefix(b).len() + ".0/24"@.len());
    }
    if bridge_address(a) == bridge_address(b) {
        assert(bridge_address(a).take(net_prefix(a).len() as int) =~= net_prefix(a));
        assert(bridge_address(b).take(net_prefix(b).len() as int) =~= net_prefix(b));
        assert(bridge_address(a).len() == net_prefix(a).len() + ".1"@.len());
        assert(bridge_address(b).len() == net_prefix(b).len() + ".1"@.len());
    }
}

proof fn lemma_prefix_tells(a: u32, b: u32)
    requires
        net_prefix(a) == net_prefix(b),
    ensures
        second_octet(a) == second_octet(b),
        third_octet(a) == third_octet(b),
{
    reveal_strlit("10.");
    reveal_strlit(".");
    let p = net_prefix(a);
    let x = dec(second_octet(a));
    let y = dec(second_octet(b));
    lemma_dec_digits(second_octet(a));
    lemma_dec_digits(second_octet(b));
    assert(p[3 + x.len() as int] == '.');
    assert(p[3 + y.len() as int] == '.');
    if x.len() < y.len() {
        assert(p[3 + x.len() as int] == y[x.len() as int]);
        assert(is_digit(y[x.len() as int]));
    } else if y.len() < x.len() {
        assert(p[3 + y.len() as int] == x[y.len() as int]);
        assert(is_digit(x[y.len() as int]));
    }
    assert(p.subrange(3, 3 + x.len() as int) =~= x);
    assert(p.subrange(3, 3 + y.len() as int) =~= y);
    lemma_dec_injective(second_octet(a), second_octet(b));
    let n = 4 + x.len() as int;
    assert(p.skip(n) =~= dec(third_octet(a)));
    assert(p.skip(n) =~= dec(third_octet(b)));
    lemma_dec_injective(third_octet(a), third_octet(b));
}

/// Projects with different hashes have different names for their networks and their
/// gateways.
pub proof fn names_are_distinct(a: u32, b: u32)
    requires
        a != b,
    ensures
        "cowboy-net-"@ + hex8(a) != "cowboy-net-"@ + hex8(b),
        "cowboy-gw-"@ + hex8(a) != "cowboy-gw-"@ + hex8(b),
{
    if hex8(a) == hex8(b) {
        reveal_with_fuel(power16, 9);
        lemma_hex_tells(a as nat, b as nat, 8);
    }
    let n = "cowboy-net-"@;
    let g = "cowboy-gw-"@;
    assert((n + hex8(a)).skip(n.len() as int) =~= hex8(a));
    assert((n + hex8(b)).skip(n.len() as int) =~= hex8(b));
    assert((g + hex8(a)).skip(g.len() as int) =~= hex8(a));
    assert((g + hex8(b)).skip(g.len() as int) =~= hex8(b));
}

/// `16` to the power of `width`.
spec fn power16(width: nat) -> nat
    decreases width,
{
    if width == 0 {
        1
    } else {
        16 * power16((width - 1) as nat)
    }
}

proof fn lemma_hex_tells(a: nat, b: nat, width: nat)
    requires
        hex(a, width) == hex(b, width),
        a < power16(width),
        b < power16(width),
    ensures
        a == b,
    decreases width,
{
    if width > 0 {
        let less = (width - 1) as nat;
        assert(hex(a, width).last() == hex_digit((a % 16) as int));
        assert(hex(b, width).last() == hex_digit((b % 16) as int));
        assert(hex(a, width).drop_last() =~= hex(a / 16, less));
        assert(hex(b, width).drop_last() =~= hex(b / 16, less));
        lemma_hex_tells(a / 16, b / 16, less);
    }
}

/// A project's addresses are private ones, in a range of their own, and its port is one of
/// a thousand that are set aside.
pub proof fn addresses_are_in_range(hash: u32)
    ensures
        88 <= second_octet(hash) <= 255,
        20 <= third_octet(hash) < 220,
        9000 <= control_port(hash) < 10000,
        subnet_text(hash) == "10."@ + dec(second_octet(hash)) + "."@ + dec(third_octet(hash))
            + ".0/24"@,
        bridge_address(hash) == "10."@ + dec(second_octet(hash)) + "."@ + dec(third_octet(hash))
            + ".1"@,
{
}

} // verus!
