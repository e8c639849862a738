//! What is shown of the boundary that commands run in.

use crate::approvals::{Approval, DefaultVerdict, NetworkPolicy, RuleSet};
use crate::text::{push_text, strs};
use crate::words::{concat, dec, decimal, decimal_size, join, joined, pad_right, padded_right};
use vstd::prelude::*;

verus! {

broadcast use vstd::string::group_string_axioms;

/// How many of a rule's domains are shown.
pub const DOMAINS_SHOWN: usize = 12;

/// A word for what holds by default.
pub open spec fn default_word(v: DefaultVerdict) -> Seq<char> {
    match v {
        DefaultVerdict::Allow => "allow"@,
        DefaultVerdict::Deny => "deny"@,
        DefaultVerdict::Ask => "ask (prompts you; denies with no answer)"@,
    }
}

fn default_text(v: DefaultVerdict) -> (r: &'static str)
    ensures
        r@ == default_word(v),
{
    match v {
        DefaultVerdict::Allow => "allow",
        DefaultVerdict::Deny => "deny",
        DefaultVerdict::Ask => "ask (prompts you; denies with no answer)",
    }
}

/// A short word for what holds by default.
pub open spec fn short_word(v: DefaultVerdict) -> Seq<char> {
    match v {
        DefaultVerdict::Allow => "open"@,
        DefaultVerdict::Deny => "deny"@,
        DefaultVerdict::Ask => "ask"@,
    }
}

/// The boundary in a few words, for a bar: what holds by default for the world outside.
pub fn summary(default_external: DefaultVerdict) -> (r: String)
    ensures
        r@ == "🔒 egress "@ + short_word(default_external),
{
    let mut out = "🔒 egress ".to_owned();
    out.push_str(
        match default_external {
            DefaultVerdict::Allow => "open",
            DefaultVerdict::Deny => "deny",
            DefaultVerdict::Ask => "ask",
        },
    );
    out
}

/// Numbers in decimal.
pub open spec fn numbers(ps: Seq<u16>) -> Seq<Seq<char>> {
    Seq::new(ps.len(), |i: int| dec(ps[i] as nat))
}

fn number_texts(ps: &Vec<u16>) -> (r: Vec<String>)
    ensures
        strs(r@) == numbers(ps@),
{
    let mut out: Vec<String> = Vec::new();
    let ghost all = numbers(ps@);
    let mut i: usize = 0;
    assert(strs(out@) =~= all.take(0));
    while i < ps.len()
        invariant
            i <= ps@.len(),
            all == numbers(ps@),
            strs(out@) == all.take(i as int),
        decreases ps.len() - i,
    {
        push_text(&mut out, decimal(ps[i] as u128));
        assert(strs(out@) =~= all.take(i + 1));
        i = i + 1;
    }
    assert(all.take(all.len() as int) =~= all);
    out
}

/// What a rule names, in numbers.
pub open spec fn rule_parts(r: RuleSet) -> Seq<Seq<char>> {
    let a: Seq<Seq<char>> = if r.domains@.len() > 0 {
        seq![dec(r.domains@.len()) + " domain(s)"@]
    } else {
        seq![]
    };
    let b = if r.cidrs@.len() > 0 {
        a.push(dec(r.cidrs@.len()) + " cidr(s)"@)
    } else {
        a
    };
    if r.ports@.len() > 0 {
        b.push("ports ["@ + join(numbers(r.ports@), ", "@) + "]"@)
    } else {
        b
    }
}

/// A line for each of the first `n` domains.
pub open spec fn domain_lines(ds: Seq<Seq<char>>, n: int) -> Seq<char>
    decreases n,
{
    if n <= 0 {
        seq![]
    } else {
        domain_lines(ds, n - 1) + ("                  "@ + ds[n - 1] + "\n"@)
    }
}

/// How many domains are shown.
pub open spec fn shown(n: int) -> int {
    if n < DOMAINS_SHOWN {
        n
    } else {
        DOMAINS_SHOWN as int
    }
}

/// What is shown of a rule: nothing where it names nothing.
pub open spec fn rule_text(label: Seq<char>, r: RuleSet) -> Seq<char> {
    let n = r.domains@.len() as int;
    if n == 0 && r.cidrs@.len() == 0 && r.ports@.len() == 0 {
        seq![]
    } else {
        let a = "  "@ + pad_right(label, 13) + " "@ + join(rule_parts(r), " · "@) + "\n"@
            + domain_lines(strs(r.domains@), shown(n));
        if n > DOMAINS_SHOWN {
            a + "                  … "@ + dec((n - DOMAINS_SHOWN) as nat) + " more\n"@
        } else {
            a
        }
    }
}

fn rule(label: &str, r: &RuleSet) -> (s: String)
    ensures
        s@ == rule_text(label@, *r),
{
    if r.domains.len() == 0 && r.cidrs.len() == 0 && r.ports.len() == 0 {
        let s = String::new();
        assert(s@ =~= seq![]);
        return s;
    }
    let mut parts: Vec<String> = Vec::new();
    assert(strs(parts@) =~= seq![]);
    if r.domains.len() > 0 {
        let mut t = decimal_size(r.domains.len());
        t.push_str(" domain(s)");
        push_text(&mut parts, t);
        assert(strs(parts@) =~= seq![dec(r.domains@.len()) + " domain(s)"@]);
    }
    if r.cidrs.len() > 0 {
        let mut t = decimal_size(r.cidrs.len());
        t.push_str(" cidr(s)");
        push_text(&mut parts, t);
    }
    if r.ports.len() > 0 {
        let mut t = "ports [".to_owned();
        t.push_str(&joined(&number_texts(&r.ports), ", "));
        t.push_str("]");
        push_text(&mut parts, t);
    }
    assert(strs(parts@) =~= rule_parts(*r));
    let mut out = "  ".to_owned();
    out.push_str(&padded_right(label, 13));
    out.push_str(" ");
    out.push_str(&joined(&parts, " · "));
    out.push_str("\n");
    let ghost head = out@;
    let ghost ds = strs(r.domains@);
    let mut i: usize = 0;
    assert(head + seq![] =~= head);
    while i < r.domains.len() && i < DOMAINS_SHOWN
        invariant
            i <= r.domains@.len(),
            i <= DOMAINS_SHOWN,
            ds == strs(r.domains@),
            out@ == head + domain_lines(ds, i as int),
        decreases r.domains.len() - i,
    {
        let mut line = "                  ".to_owned();
        line.push_str(&r.domains[i]);
        line.push_str("\n");
        proof {
            assert(ds[i as int] == r.domains@[i as int]@);
            let b = domain_lines(ds, i as int);
            assert(head + b + line@ =~= head + (b + line@));
        }
        out.push_str(&line);
        i = i + 1;
    }
    if r.domains.len() > DOMAINS_SHOWN {
        out.push_str("                  … ");
        out.push_str(&decimal_size(r.domains.len() - DOMAINS_SHOWN));
        out.push_str(" more\n");
    }
    out
}

/// What is shown of what may leave the host, `approved` being how many destinations were
/// approved.
pub open spec fn egress_text(p: NetworkPolicy, approved: nat) -> Seq<char> {
    "\negress\n"@ + "  external      "@ + default_word(p.default_external) + "\n"@
        + "  private lan   "@ + default_word(p.default_private_lan) + "\n"@ + "  host          "@
        + default_word(p.default_host) + "\n"@ + rule_text("deny"@, p.deny) + rule_text(
        "allow"@,
        p.allow,
    ) + "  approved      "@ + dec(approved) + " endpoint(s) you allowed for this project\n"@
        + "  dns           "@ + (if p.dns.enforce {
        "allowlist enforced"@
    } else {
        "deny-list + tunnel detection only"@
    }) + " · qtypes "@ + join(strs(p.dns.allowed_qtypes@), ","@) + (if p.dns.tunnel_detection {
        " · tunnel detection on"@
    } else {
        ""@
    }) + "\n"@
        + "  the session netns holds no host-connected device: egress exists only\n  through the relay, so a transport that fails to install leaves no egress\n"@
}

/// What is shown of what may leave the host: the rules as they are configured, and how
/// much was approved besides.
pub fn egress_section(policy: &NetworkPolicy, approvals: &Vec<Approval>) -> (r: String)
    ensures
        r@ == egress_text(*policy, approvals@.len()),
{
    let mut s = "\negress\n".to_owned();
    s.push_str("  external      ");
    s.push_str(default_text(policy.default_external));
    s.push_str("\n");
    s.push_str("  private lan   ");
    s.push_str(default_text(policy.default_private_lan));
    s.push_str("\n");
    s.push_str("  host          ");
    s.push_str(default_text(policy.default_host));
    s.push_str("\n");
    s.push_str(&rule("deny", &policy.deny));
    s.push_str(&rule("allow", &policy.allow));
    s.push_str("  approved      ");
    s.push_str(&decimal_size(approvals.len()));
    s.push_str(" endpoint(s) you allowed for this project\n");
    s.push_str("  dns           ");
    s.push_str(
        if policy.dns.enforce {
            "allowlist enforced"
        } else {
            "deny-list + tunnel detection only"
        },
    );
    s.push_str(" · qtypes ");
    s.push_str(&joined(&policy.dns.allowed_qtypes, ","));
    s.push_str(
        if policy.dns.tunnel_detection {
            " · tunnel detection on"
        } else {
            ""
        },
    );
    s.push_str("\n");
    s.push_str(
        "  the session netns holds no host-connected device: egress exists only\n  through the relay, so a transport that fails to install leaves no egress\n",
    );
    s
}

/// The whole boundary as text: what a command gets, that a limit that is configured
/// cannot be enforced where that is so, and what may leave the host.
pub fn describe(plan: &str, limited: bool, enforceable: bool, egress: &str) -> (r: String)
    ensures
        r@ == plan@ + (if limited && !enforceable {
            "  NOT ENFORCED: no delegated cgroup v2 subtree on this host. Run `cowboy doctor` for what to change.\n"@
        } else {
            ""@
        }) + egress@,
{
    let mut out = plan.to_owned();
    out.push_str(
        if limited && !enforceable {
            "  NOT ENFORCED: no delegated cgroup v2 subtree on this host. Run `cowboy doctor` for what to change.\n"
        } else {
            ""
        },
    );
    out.push_str(egress);
    out
}

/// A rule that says nothing takes up no line.
pub proof fn empty_rules_are_silent(label: Seq<char>, r: RuleSet)
    requires
        r.domains@.len() == 0,
        r.cidrs@.len() == 0,
        r.ports@.len() == 0,
    ensures
        rule_text(label, r).len() == 0,
{
}

/// The domains of a rule are shown one a line, in order, as many as are shown.
pub proof fn domains_are_shown_in_order(ds: Seq<Seq<char>>, n: int)
    requires
        0 <= n <= ds.len(),
    ensures
        shown(n) <= DOMAINS_SHOWN && shown(n) <= n,
        n <= DOMAINS_SHOWN ==> shown(n) == n,
        domain_lines(ds, n) == concat(
            Seq::new(n as nat, |i: int| "                  "@ + ds[i] + "\n"@),
        ),
    decreases n,
{
    let all = Seq::new(n as nat, |i: int| "                  "@ + ds[i] + "\n"@);
    if n > 0 {
        domains_are_shown_in_order(ds, n - 1);
        assert(all.drop_last() =~= Seq::new(
            (n - 1) as nat,
            |i: int| "                  "@ + ds[i] + "\n"@,
        ));
    } else {
        assert(all =~= seq![]);
    }
}

} // verus!
