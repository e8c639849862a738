//! Destinations on the network that a user has approved for a project.

use crate::paths::{hex8, hexadecimal, low_half, path_hash, project_hash};
use crate::text::same;
use vstd::prelude::*;

verus! {

broadcast use vstd::string::group_string_axioms;

/// One approved destination: a host or a range of addresses, on one port.
#[derive(Debug, PartialEq, Eq)]
pub struct Approval {
    pub host: Option<String>,
    pub cidr: Option<String>,
    pub port: u16,
}

/// An attempt to reach a destination, its address as text.
#[derive(Debug)]
pub struct NetworkAttempt {
    pub host: Option<String>,
    pub ip: Option<String>,
    pub port: u16,
}

/// Which destinations a rule names.
#[derive(Debug)]
pub struct RuleSet {
    pub domains: Vec<String>,
    pub cidrs: Vec<String>,
    pub ports: Vec<u16>,
}

/// What holds where no rule does.
#[derive(Debug, Clone, Copy, PartialEq, Eq, Structural)]
pub enum DefaultVerdict {
    Allow,
    Deny,
    Ask,
}

/// How names are looked up.
#[derive(Debug)]
pub struct DnsPolicy {
    pub enforce: bool,
    pub allowed_qtypes: Vec<String>,
    pub tunnel_detection: bool,
}

/// What may be reached.
#[derive(Debug)]
pub struct NetworkPolicy {
    pub default_external: DefaultVerdict,
    pub default_private_lan: DefaultVerdict,
    pub default_host: DefaultVerdict,
    pub allow: RuleSet,
    pub deny: RuleSet,
    pub dns: DnsPolicy,
    /// What the user approved, each on its own port.
    pub approved: Vec<Approval>,
}

/// A text, where there is one.
pub open spec fn opt_text(s: Option<String>) -> Option<Seq<char>> {
    match s {
        Some(t) => Some(t@),
        None => None,
    }
}

/// A destination, as texts.
pub struct Endpoint {
    pub host: Option<Seq<char>>,
    pub cidr: Option<Seq<char>>,
    pub port: u16,
}

impl Approval {
    /// The destination approved.
    pub open spec fn endpoint(&self) -> Endpoint {
        Endpoint { host: opt_text(self.host), cidr: opt_text(self.cidr), port: self.port }
    }
}

/// The destinations approved.
pub open spec fn endpoints(v: Seq<Approval>) -> Seq<Endpoint> {
    Seq::new(v.len(), |i: int| v[i].endpoint())
}

fn same_opt(a: &Option<String>, b: &Option<String>) -> (r: bool)
    ensures
        r == (opt_text(*a) == opt_text(*b)),
{
    match (a, b) {
        (Some(x), Some(y)) => same(x, y),
        (None, None) => true,
        _ => false,
    }
}

/// Whether a destination is among those approved.
pub fn is_approved(all: &Vec<Approval>, a: &Approval) -> (r: bool)
    ensures
        r == endpoints(all@).contains(a.endpoint()),
{
    let ghost es = endpoints(all@);
    let mut i: usize = 0;
    while i < all.len()
        invariant
            i <= all@.len(),
            es == endpoints(all@),
            forall|k: int| 0 <= k < i ==> #[trigger] es[k] != a.endpoint(),
        decreases all.len() - i,
    {
        let b = &all[i];
        if b.port == a.port && same_opt(&b.host, &a.host) && same_opt(&b.cidr, &a.cidr) {
            assert(es[i as int] == a.endpoint());
            return true;
        }
        assert(es[i as int] != a.endpoint());
        i = i + 1;
    }
    false
}

/// What is approved where an attempt is: its host on its port or, where it names no host,
/// its one address.
pub open spec fn approval_of(t: NetworkAttempt) -> Endpoint {
    Endpoint {
        host: opt_text(t.host),
        cidr: match (t.host, t.ip) {
            (None, Some(ip)) => Some(ip@ + "/32"@),
            _ => None,
        },
        port: t.port,
    }
}

/// Destinations with one more, unless it is among them.
pub open spec fn with_endpoint(es: Seq<Endpoint>, e: Endpoint) -> Seq<Endpoint> {
    if es.contains(e) {
        es
    } else {
        es.push(e)
    }
}

/// Adds what an attempt asks for to what is approved, once; says whether there is
/// anything new to keep.
pub fn append(all: &mut Vec<Approval>, attempt: &NetworkAttempt) -> (r: bool)
    ensures
        endpoints(final(all)@) == with_endpoint(endpoints(old(all)@), approval_of(*attempt)),
        r == !endpoints(old(all)@).contains(approval_of(*attempt)),
{
    let host = match &attempt.host {
        Some(h) => Some(h.clone()),
        None => None,
    };
    let cidr = match (&attempt.host, &attempt.ip) {
        (None, Some(ip)) => {
            let mut c = ip.clone();
            c.push_str("/32");
            Some(c)
        },
        _ => None,
    };
    let entry = Approval { host, cidr, port: attempt.port };
    assert(entry.endpoint() == approval_of(*attempt));
    if is_approved(all, &entry) {
        return false;
    }
    let ghost before = endpoints(all@);
    all.push(entry);
    assert(endpoints(all@) =~= before.push(entry.endpoint()));
    true
}

/// Destinations with the first `n` of others, each once.
pub open spec fn merged(es: Seq<Endpoint>, others: Seq<Endpoint>, n: int) -> Seq<Endpoint>
    decreases n,
{
    if n <= 0 {
        es
    } else {
        with_endpoint(merged(es, others, n - 1), others[n - 1])
    }
}

/// Adds what was approved to a policy. Its rules stay as they are: an approval holds for
/// its own destination and port, and for no other.
pub fn merge_into(policy: &mut NetworkPolicy, approvals: &Vec<Approval>)
    ensures
        endpoints(final(policy).approved@) == merged(
            endpoints(old(policy).approved@),
            endpoints(approvals@),
            approvals@.len() as int,
        ),
        final(policy).allow == old(policy).allow,
        final(policy).deny == old(policy).deny,
        final(policy).dns == old(policy).dns,
        final(policy).default_external == old(policy).default_external,
        final(policy).default_private_lan == old(policy).default_private_lan,
        final(policy).default_host == old(policy).default_host,
{
    let ghost start = *policy;
    let ghost others = endpoints(approvals@);
    let mut i: usize = 0;
    while i < approvals.len()
        invariant
            i <= approvals@.len(),
            others == endpoints(approvals@),
            endpoints(policy.approved@) == merged(endpoints(start.approved@), others, i as int),
            policy.allow == start.allow,
            policy.deny == start.deny,
            policy.dns == start.dns,
            policy.default_external == start.default_external,
            policy.default_private_lan == start.default_private_lan,
            policy.default_host == start.default_host,
        decreases approvals.len() - i,
    {
        let a = &approvals[i];
        assert(others[i as int] == a.endpoint());
        let there = is_approved(&policy.approved, a);
        if !there {
            let host = match &a.host {
                Some(h) => Some(h.clone()),
                None => None,
            };
            let cidr = match &a.cidr {
                Some(c) => Some(c.clone()),
                None => None,
            };
            let copy = Approval { host, cidr, port: a.port };
            assert(copy.endpoint() == a.endpoint());
            let ghost before = policy.approved@;
            policy.approved.push(copy);
            assert(endpoints(policy.approved@) =~= endpoints(before).push(copy.endpoint()));
        }
        i = i + 1;
    }
}

/// The file of a project's approvals.
pub fn approvals_file(root: &str) -> (r: String)
    ensures
        r@ == hex8(low_half(path_hash(root@))) + ".json"@,
{
    let mut out = hexadecimal(project_hash(root));
    out.push_str(".json");
    out
}

// ---------------------------------------------------------------------------
// Laws
// ---------------------------------------------------------------------------

/// Nothing occurs twice.
pub open spec fn distinct(es: Seq<Endpoint>) -> bool {
    forall|i: int, j: int| 0 <= i < j < es.len() ==> #[trigger] es[i] != #[trigger] es[j]
}

/// Merging keeps what was approved where it stands, adds what is merged and nothing else,
/// and brings nothing in twice.
pub proof fn merging_adds_what_is_approved(es: Seq<Endpoint>, others: Seq<Endpoint>, n: int)
    requires
        0 <= n <= others.len(),
    ensures
        es.is_prefix_of(merged(es, others, n)),
        forall|k: int| 0 <= k < n ==> merged(es, others, n).contains(#[trigger] others[k]),
        forall|e: Endpoint| #[trigger]
            merged(es, others, n).contains(e) ==> es.contains(e) || others.contains(e),
        distinct(es) ==> distinct(merged(es, others, n)),
    decreases n,
{
    if n > 0 {
        merging_adds_what_is_approved(es, others, n - 1);
        let m = merged(es, others, n - 1);
        let e = others[n - 1];
        let t = merged(es, others, n);
        assert(t == with_endpoint(m, e));
        assert forall|k: int| 0 <= k < n implies t.contains(#[trigger] others[k]) by {
            if k == n - 1 {
                if !m.contains(e) {
                    assert(t[m.len() as int] == e);
                }
            } else {
                assert(m.contains(others[k]));
                let i = choose|i: int| 0 <= i < m.len() && m[i] == others[k];
                assert(t[i] == others[k]);
            }
        }
        assert forall|x: Endpoint| #[trigger] t.contains(x) implies es.contains(x)
            || others.contains(x) by {
            let i = choose|i: int| 0 <= i < t.len() && t[i] == x;
            if i < m.len() {
                assert(m[i] == x);
                assert(m.contains(x));
            } else {
                assert(others[n - 1] == x);
            }
        }
        if distinct(es) && !m.contains(e) {
            assert forall|i: int, j: int| 0 <= i < j < t.len() implies #[trigger] t[i]
                != #[trigger] t[j] by {
                assert(t[i] == m[i]);
                if j < m.len() {
                    assert(t[j] == m[j]);
                } else {
                    assert(m.contains(m[i]));
                }
            }
        }
    } else {
        assert(es.is_prefix_of(es));
    }
}

/// Merging the same approvals a second time changes nothing.
pub proof fn merging_twice_is_once(es: Seq<Endpoint>, others: Seq<Endpoint>, n: int)
    requires
        0 <= n <= others.len(),
    ensures
        merged(merged(es, others, others.len() as int), others, n) == merged(
            es,
            others,
            others.len() as int,
        ),
    decreases n,
{
    if n > 0 {
        merging_twice_is_once(es, others, n - 1);
        merging_adds_what_is_approved(es, others, others.len() as int);
        assert(merged(es, others, others.len() as int).contains(others[n - 1]));
    }
}

/// An approval covers the destination that was asked for and no more: the host by its
/// name where it has one, else the one address, and the port as it was.
pub proof fn approvals_cover_one_destination(t: NetworkAttempt)
    ensures
        approval_of(t).port == t.port,
        t.host matches Some(h) ==> approval_of(t).host == Some(h@) && approval_of(t).cidr is None,
        t.host is None ==> approval_of(t).host is None,
        t.host is None && t.ip is Some ==> approval_of(t).cidr == Some((t.ip->0)@ + "/32"@),
        t.host is None && t.ip is None ==> approval_of(t).cidr is None,
{
}

/// What is approved once more changes nothing, what is new stands behind the rest, and
/// nothing that was approved is lost.
pub proof fn approving_keeps_the_rest(es: Seq<Endpoint>, e: Endpoint)
    ensures
        with_endpoint(es, e).contains(e),
        with_endpoint(es, e).take(es.len() as int) == es,
        with_endpoint(es, e).len() == es.len() + (if es.contains(e) {
            0int
        } else {
            1
        }),
        with_endpoint(with_endpoint(es, e), e) == with_endpoint(es, e),
{
    if es.contains(e) {
        assert(es.take(es.len() as int) =~= es);
    } else {
        assert(es.push(e)[es.len() as int] == e);
        assert(es.push(e).take(es.len() as int) =~= es);
    }
}

} // verus!
