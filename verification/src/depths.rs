//! How deep the dependencies of a plan go, and the order in which its workstreams
//! are laid out.

use crate::order::{arrange, arrangement, in_order, lemma_text_order, lemma_text_total, text_less,
    text_lt};
use crate::ranch::{Ranch, Workstream};
use crate::text::strs;
use vstd::prelude::*;

verus! {

broadcast use vstd::string::group_string_axioms;

// ---------------------------------------------------------------------------
// What depth means
// ---------------------------------------------------------------------------

/// The last of the first `n` workstreams with this id.
pub open spec fn last_ws(ws: Seq<Workstream>, id: Seq<char>, n: int) -> Option<int>
    decreases n,
{
    if n <= 0 {
        None
    } else if ws[n - 1].id@ == id {
        Some(n - 1)
    } else {
        last_ws(ws, id, n - 1)
    }
}

/// What `id` depends on.
pub open spec fn deps(ws: Seq<Workstream>, id: Seq<char>) -> Seq<Seq<char>> {
    match last_ws(ws, id, ws.len() as int) {
        Some(i) => strs(ws[i].depends_on@),
        None => seq![],
    }
}

/// Each of these ids depends on the next.
pub open spec fn steps(ws: Seq<Workstream>, c: Seq<Seq<char>>) -> bool {
    forall|i: int| 0 <= i < c.len() - 1 ==> deps(ws, #[trigger] c[i]).contains(c[i + 1])
}

/// There is a way along dependencies, of one step at least, from one id to another.
pub open spec fn leads_to(ws: Seq<Workstream>, from: Seq<char>, to: Seq<char>) -> bool {
    exists|c: Seq<Seq<char>>|
        #[trigger] steps(ws, c) && c.len() >= 2 && c.first() == from && c.last() == to
}

/// `id` lies on a cycle: it depends, through others or not, on itself.
pub open spec fn on_cycle(ws: Seq<Workstream>, id: Seq<char>) -> bool {
    leads_to(ws, id, id)
}

/// A chain of dependencies beneath `id`. It goes no further than an id on a cycle.
pub open spec fn chain(ws: Seq<Workstream>, id: Seq<char>, c: Seq<Seq<char>>) -> bool {
    &&& c.len() >= 1
    &&& c.first() == id
    &&& steps(ws, c)
    &&& forall|i: int| 0 <= i < c.len() - 1 ==> !on_cycle(ws, #[trigger] c[i])
}

/// `d` is the depth of `id`: the longest chain of dependencies beneath it has as many
/// steps. An id on a cycle has depth zero.
pub open spec fn is_depth(ws: Seq<Workstream>, id: Seq<char>, d: nat) -> bool {
    &&& exists|c: Seq<Seq<char>>| #[trigger] chain(ws, id, c) && c.len() == d + 1
    &&& forall|c: Seq<Seq<char>>| #[trigger] chain(ws, id, c) ==> c.len() <= d + 1
}

/// An id of the plan: that of a workstream, or one that a workstream depends on.
pub open spec fn in_plan(ws: Seq<Workstream>, id: Seq<char>) -> bool {
    exists|i: int|
        0 <= i < ws.len() && (#[trigger] ws[i].id@ == id || deps(ws, ws[i].id@).contains(id))
}

/// There is one depth.
pub proof fn depth_is_unique(ws: Seq<Workstream>, id: Seq<char>, d: nat, e: nat)
    requires
        is_depth(ws, id, d),
        is_depth(ws, id, e),
    ensures
        d == e,
{
    let c = choose|c: Seq<Seq<char>>| #[trigger] chain(ws, id, c) && c.len() == d + 1;
    let k = choose|c: Seq<Seq<char>>| #[trigger] chain(ws, id, c) && c.len() == e + 1;
    assert(chain(ws, id, c) && chain(ws, id, k));
}

/// An id on a cycle has depth zero.
pub proof fn cycles_yield_zero(ws: Seq<Workstream>, id: Seq<char>)
    requires
        on_cycle(ws, id),
    ensures
        is_depth(ws, id, 0),
{
    let one = seq![id];
    assert(chain(ws, id, one));
    assert forall|c: Seq<Seq<char>>| #[trigger] chain(ws, id, c) implies c.len() <= 1 by {
        if c.len() > 1 {
            assert(!on_cycle(ws, c[0]));
        }
    }
}

/// A workstream that lies on no cycle lies deeper than everything it depends on.
pub proof fn deeper_than_its_dependencies(
    ws: Seq<Workstream>,
    id: Seq<char>,
    k: int,
    below: nat,
    d: nat,
)
    requires
        !on_cycle(ws, id),
        0 <= k < deps(ws, id).len(),
        is_depth(ws, deps(ws, id)[k], below),
        is_depth(ws, id, d),
    ensures
        below < d,
{
    let dep = deps(ws, id)[k];
    let c = choose|c: Seq<Seq<char>>| #[trigger] chain(ws, dep, c) && c.len() == below + 1;
    lemma_chain_longer(ws, id, dep, c);
}

proof fn lemma_chain_longer(
    ws: Seq<Workstream>,
    id: Seq<char>,
    dep: Seq<char>,
    c: Seq<Seq<char>>,
)
    requires
        !on_cycle(ws, id),
        deps(ws, id).contains(dep),
        chain(ws, dep, c),
    ensures
        chain(ws, id, seq![id] + c),
{
    let l = seq![id] + c;
    assert forall|i: int| 0 <= i < l.len() - 1 implies deps(ws, #[trigger] l[i]).contains(
        l[i + 1],
    ) by {
        if i > 0 {
            assert(l[i] == c[i - 1]);
            assert(l[i + 1] == c[i - 1 + 1]);
        }
    }
    assert forall|i: int| 0 <= i < l.len() - 1 implies !on_cycle(ws, #[trigger] l[i]) by {
        if i > 0 {
            assert(l[i] == c[i - 1]);
        }
    }
}

proof fn lemma_chain_shorter(ws: Seq<Workstream>, id: Seq<char>, c: Seq<Seq<char>>)
    requires
        chain(ws, id, c),
        c.len() >= 2,
    ensures
        !on_cycle(ws, id),
        deps(ws, id).contains(c[1]),
        chain(ws, c[1], c.skip(1)),
{
    assert(deps(ws, c[0]).contains(c[0int + 1]));
    assert(!on_cycle(ws, c[0]));
    let l = c.skip(1);
    assert forall|i: int| 0 <= i < l.len() - 1 implies deps(ws, #[trigger] l[i]).contains(
        l[i + 1],
    ) by {
        assert(l[i] == c[i + 1] && l[i + 1] == c[i + 1 + 1]);
    }
    assert forall|i: int| 0 <= i < l.len() - 1 implies !on_cycle(ws, #[trigger] l[i]) by {
        assert(l[i] == c[i + 1]);
    }
}

/// No id stands twice in a chain.
proof fn lemma_chain_distinct(ws: Seq<Workstream>, id: Seq<char>, c: Seq<Seq<char>>)
    requires
        chain(ws, id, c),
    ensures
        c.no_duplicates(),
{
    assert forall|i: int, j: int| 0 <= i < j < c.len() implies c[i] != c[j] by {
        if c[i] == c[j] {
            let l = c.subrange(i, j + 1);
            assert forall|k: int| 0 <= k < l.len() - 1 implies deps(ws, #[trigger] l[k]).contains(
                l[k + 1],
            ) by {
                assert(l[k] == c[i + k] && l[k + 1] == c[i + k + 1]);
            }
            assert(steps(ws, l) && l.len() >= 2 && l.first() == c[i] && l.last() == c[i]);
            assert(on_cycle(ws, c[i]));
        }
    }
}

// ---------------------------------------------------------------------------
// The ids of a plan
// ---------------------------------------------------------------------------

proof fn lemma_last_ws(ws: Seq<Workstream>, id: Seq<char>, n: int)
    requires
        0 <= n <= ws.len(),
    ensures
        last_ws(ws, id, n) matches Some(i) ==> 0 <= i < n && ws[i].id@ == id,
    decreases n,
{
    if n > 0 {
        lemma_last_ws(ws, id, n - 1);
    }
}

/// What an id of a plan depends on is an id of the plan.
proof fn lemma_in_plan_closed(ws: Seq<Workstream>, id: Seq<char>, dep: Seq<char>)
    requires
        deps(ws, id).contains(dep),
    ensures
        in_plan(ws, dep),
{
    lemma_last_ws(ws, id, ws.len() as int);
    let i = last_ws(ws, id, ws.len() as int)->0;
    assert(ws[i].id@ == id);
}

fn find_last(ws: &Vec<Workstream>, id: &str) -> (r: Option<usize>)
    ensures
        match r {
            Some(i) => i < ws@.len() && last_ws(ws@, id@, ws@.len() as int) == Some(i as int),
            None => last_ws(ws@, id@, ws@.len() as int) is None,
        },
{
    let mut i: usize = ws.len();
    while i > 0
        invariant
            i <= ws@.len(),
            last_ws(ws@, id@, ws@.len() as int) == last_ws(ws@, id@, i as int),
        decreases i,
    {
        if crate::text::same(&ws[i - 1].id, id) {
            return Some(i - 1);
        }
        i = i - 1;
    }
    None
}

fn position_of(names: &Vec<String>, id: &str) -> (r: Option<usize>)
    ensures
        match r {
            Some(i) => i < names@.len() && strs(names@)[i as int] == id@,
            None => !strs(names@).contains(id@),
        },
{
    let ghost gs = strs(names@);
    let mut i: usize = 0;
    while i < names.len()
        invariant
            i <= names@.len(),
            gs == strs(names@),
            forall|k: int| 0 <= k < i ==> #[trigger] gs[k] != id@,
        decreases names.len() - i,
    {
        assert(gs[i as int] == names@[i as int]@);
        if crate::text::same(&names[i], id) {
            return Some(i);
        }
        i = i + 1;
    }
    None
}

/// Adds `id` unless it is there.
fn note(names: &mut Vec<String>, id: &str)
    requires
        strs(old(names)@).no_duplicates(),
    ensures
        strs(final(names)@) == if strs(old(names)@).contains(id@) {
            strs(old(names)@)
        } else {
            strs(old(names)@).push(id@)
        },
        strs(final(names)@).no_duplicates(),
        strs(final(names)@).contains(id@),
        forall|x: Seq<char>| #[trigger]
            strs(final(names)@).contains(x) <==> x == id@ || strs(old(names)@).contains(x),
{
    let ghost before = strs(names@);
    if position_of(names, id).is_none() {
        crate::text::push_text(names, id.to_owned());
        let ghost after = strs(names@);
        proof {
            assert(after[before.len() as int] == id@);
            assert forall|x: Seq<char>| #[trigger]
                after.contains(x) <==> x == id@ || before.contains(x) by {
                if before.contains(x) {
                    let k = choose|k: int| 0 <= k < before.len() && before[k] == x;
                    assert(after[k] == x);
                }
                if after.contains(x) && x != id@ {
                    let k = choose|k: int| 0 <= k < after.len() && after[k] == x;
                    assert(before[k] == x);
                }
            }
        }
    }
}

/// Adds what `id` depends on, unless it is there.
fn note_deps(ws: &Vec<Workstream>, names: &mut Vec<String>, id: &str)
    requires
        strs(old(names)@).no_duplicates(),
    ensures
        strs(final(names)@).no_duplicates(),
        old(names)@.len() <= final(names)@.len(),
        strs(final(names)@).take(old(names)@.len() as int) == strs(old(names)@),
        forall|x: Seq<char>| #[trigger]
            strs(final(names)@).contains(x) <==> strs(old(names)@).contains(x) || deps(
                ws@,
                id@,
            ).contains(x),
{
    let ghost before = strs(names@);
    let ghost ds = deps(ws@, id@);
    match find_last(ws, id) {
        Some(i) => {
            let n: usize = ws[i].depends_on.len();
            let mut k: usize = 0;
            while k < n
                invariant
                    k <= n == ds.len(),
                    i < ws@.len(),
                    ds == strs(ws@[i as int].depends_on@),
                    n == ws@[i as int].depends_on@.len(),
                    strs(names@).no_duplicates(),
                    before.len() <= names@.len(),
                    strs(names@).take(before.len() as int) == before,
                    forall|x: Seq<char>| #[trigger]
                        strs(names@).contains(x) <==> before.contains(x) || ds.take(
                            k as int,
                        ).contains(x),
                decreases n - k,
            {
                let ghost now = strs(names@);
                assert(ds[k as int] == ws@[i as int].depends_on@[k as int]@);
                note(names, &ws[i].depends_on[k]);
                proof {
                    let a = ds.take(k as int);
                    let b = ds.take(k + 1);
                    assert(b =~= a.push(ds[k as int]));
                    assert forall|x: Seq<char>| #[trigger]
                        strs(names@).contains(x) <==> before.contains(x) || b.contains(x) by {
                        if a.contains(x) {
                            let j = choose|j: int| 0 <= j < a.len() && a[j] == x;
                            assert(b[j] == x);
                        }
                        assert(b[k as int] == ds[k as int]);
                        if b.contains(x) && x != ds[k as int] {
                            let j = choose|j: int| 0 <= j < b.len() && b[j] == x;
                            assert(a[j] == x);
                        }
                    }
                    assert(strs(names@).take(before.len() as int) =~= now.take(
                        before.len() as int,
                    ));
                }
                k = k + 1;
            }
            assert(ds.take(n as int) =~= ds);
        },
        None => {
            assert(ds =~= seq![]);
        },
    }
    assert(strs(names@).take(before.len() as int) =~= before);
}

/// The ids of a plan, each once.
fn plan_ids(ws: &Vec<Workstream>) -> (r: Vec<String>)
    ensures
        strs(r@).no_duplicates(),
        forall|x: Seq<char>| #[trigger] strs(r@).contains(x) <==> in_plan(ws@, x),
{
    let mut names: Vec<String> = Vec::new();
    let mut i: usize = 0;
    while i < ws.len()
        invariant
            i <= ws@.len(),
            strs(names@).no_duplicates(),
            forall|x: Seq<char>| #[trigger]
                strs(names@).contains(x) <==> exists|k: int|
                    0 <= k < i && (#[trigger] ws@[k].id@ == x || deps(ws@, ws@[k].id@).contains(x)),
        decreases ws.len() - i,
    {
        let ghost before = strs(names@);
        note(&mut names, &ws[i].id);
        let ghost mid = strs(names@);
        note_deps(ws, &mut names, &ws[i].id);
        proof {
            let after = strs(names@);
            assert forall|x: Seq<char>| #[trigger] after.contains(x) <==> exists|k: int|
                0 <= k < i + 1 && (#[trigger] ws@[k].id@ == x || deps(
                    ws@,
                    ws@[k].id@,
                ).contains(x)) by {
                assert(mid.contains(x) <==> x == ws@[i as int].id@ || before.contains(x));
                if after.contains(x) && !before.contains(x) {
                    assert(ws@[i as int].id@ == x || deps(ws@, ws@[i as int].id@).contains(x));
                }
            }
        }
        i = i + 1;
    }
    names
}

/// Whether `id` lies on a cycle.
fn lies_on_cycle(ws: &Vec<Workstream>, id: &str, Ghost(all): Ghost<Set<Seq<char>>>) -> (r: bool)
    requires
        all.finite(),
        forall|x: Seq<char>| in_plan(ws@, x) ==> #[trigger] all.contains(x),
    ensures
        r == on_cycle(ws@, id@),
{
    let mut found: Vec<String> = Vec::new();
    note_deps(ws, &mut found, id);
    proof {
        assert forall|x: Seq<char>| #[trigger] strs(found@).contains(x) implies leads_to(
            ws@,
            id@,
            x,
        ) by {
            let c = seq![id@, x];
            assert(c[0int + 1] == x);
            assert(steps(ws@, c));
        }
        lemma_bounded(ws@, strs(found@), all, id@);
    }
    let mut i: usize = 0;
    while i < found.len()
        invariant
            i <= found@.len(),
            all.finite(),
            forall|x: Seq<char>| in_plan(ws@, x) ==> #[trigger] all.contains(x),
            strs(found@).no_duplicates(),
            forall|x: Seq<char>| #[trigger] strs(found@).contains(x) ==> leads_to(ws@, id@, x),
            forall|x: Seq<char>| #[trigger]
                deps(ws@, id@).contains(x) ==> strs(found@).contains(x),
            forall|k: int, x: Seq<char>|
                0 <= k < i && #[trigger] deps(ws@, strs(found@)[k]).contains(x) ==> strs(
                    found@,
                ).contains(x),
            found@.len() <= all.len(),
        decreases all.len() - i,
    {
        let ghost before = strs(found@);
        let at = found[i].clone();
        assert(before[i as int] == at@);
        note_deps(ws, &mut found, &at);
        proof {
            let after = strs(found@);
            assert forall|k: int| 0 <= k < before.len() implies #[trigger] after[k] == before[k] by {
                assert(after.take(before.len() as int)[k] == after[k]);
            }
            assert(before.contains(before[i as int]));
            assert forall|x: Seq<char>| #[trigger] after.contains(x) implies leads_to(
                ws@,
                id@,
                x,
            ) by {
                if !before.contains(x) {
                    lemma_leads_on(ws@, id@, at@, x);
                }
            }
            assert forall|k: int, x: Seq<char>|
                0 <= k < i + 1 && #[trigger] deps(ws@, after[k]).contains(x) implies after.contains(
                x,
            ) by {
                assert(after[k] == before[k]);
            }
            lemma_bounded(ws@, after, all, id@);
        }
        i = i + 1;
    }
    let r = position_of(&found, id).is_some();
    proof {
        let gs = strs(found@);
        if on_cycle(ws@, id@) {
            let c = choose|c: Seq<Seq<char>>|
                #[trigger] steps(ws@, c) && c.len() >= 2 && c.first() == id@ && c.last() == id@;
            lemma_all_found(ws@, id@, gs, c, c.len() - 1);
        }
        if r {
            assert(gs.contains(id@));
        }
    }
    r
}

proof fn lemma_leads_on(ws: Seq<Workstream>, id: Seq<char>, at: Seq<char>, x: Seq<char>)
    requires
        leads_to(ws, id, at),
        deps(ws, at).contains(x),
    ensures
        leads_to(ws, id, x),
{
    let c = choose|c: Seq<Seq<char>>|
        #[trigger] steps(ws, c) && c.len() >= 2 && c.first() == id && c.last() == at;
    let l = c.push(x);
    assert forall|i: int| 0 <= i < l.len() - 1 implies deps(ws, #[trigger] l[i]).contains(
        l[i + 1],
    ) by {
        assert(l[i] == c[i]);
        if i < c.len() - 1 {
            assert(l[i + 1] == c[i + 1]);
        }
    }
    assert(steps(ws, l) && l.len() >= 2 && l.first() == id && l.last() == x);
}

/// What is found has no more ids than the plan.
proof fn lemma_bounded(
    ws: Seq<Workstream>,
    found: Seq<Seq<char>>,
    all: Set<Seq<char>>,
    id: Seq<char>,
)
    requires
        all.finite(),
        found.no_duplicates(),
        forall|x: Seq<char>| in_plan(ws, x) ==> #[trigger] all.contains(x),
        forall|x: Seq<char>| #[trigger] found.contains(x) ==> leads_to(ws, id, x),
    ensures
        found.len() <= all.len(),
{
    assert forall|x: Seq<char>| #[trigger] found.to_set().contains(x) implies all.contains(x) by {
        assert(found.contains(x));
        let c = choose|c: Seq<Seq<char>>|
            #[trigger] steps(ws, c) && c.len() >= 2 && c.first() == id && c.last() == x;
        let n = c.len() - 2;
        assert(deps(ws, c[n]).contains(c[n + 1]));
        lemma_in_plan_closed(ws, c[n], x);
    }
    lemma_distinct_within(found, all);
}

proof fn lemma_distinct_within(s: Seq<Seq<char>>, all: Set<Seq<char>>)
    requires
        all.finite(),
        s.no_duplicates(),
        forall|x: Seq<char>| #[trigger] s.to_set().contains(x) ==> all.contains(x),
    ensures
        s.len() <= all.len(),
{
    s.unique_seq_to_set();
    vstd::set_lib::lemma_len_subset(s.to_set(), all);
}

/// Every id on a way along dependencies from `id` is found.
proof fn lemma_all_found(
    ws: Seq<Workstream>,
    id: Seq<char>,
    found: Seq<Seq<char>>,
    c: Seq<Seq<char>>,
    n: int,
)
    requires
        steps(ws, c),
        1 <= n < c.len(),
        c.first() == id,
        forall|x: Seq<char>| #[trigger] deps(ws, id).contains(x) ==> found.contains(x),
        forall|k: int, x: Seq<char>|
            0 <= k < found.len() && #[trigger] deps(ws, found[k]).contains(x) ==> found.contains(x),
    ensures
        found.contains(c[n]),
    decreases n,
{
    assert(deps(ws, c[n - 1]).contains(c[n - 1 + 1]));
    if n > 1 {
        lemma_all_found(ws, id, found, c, n - 1);
        let k = choose|k: int| 0 <= k < found.len() && found[k] == c[n - 1];
        assert(deps(ws, found[k]).contains(c[n]));
    }
}

// ---------------------------------------------------------------------------
// Computing it
// ---------------------------------------------------------------------------

/// `d` is the length of the longest chain beneath `id` of `k` steps or fewer.
spec fn depth_within(ws: Seq<Workstream>, id: Seq<char>, k: nat, d: nat) -> bool {
    &&& exists|c: Seq<Seq<char>>| #[trigger] chain(ws, id, c) && c.len() == d + 1 && d <= k
    &&& forall|c: Seq<Seq<char>>| #[trigger]
        chain(ws, id, c) && c.len() <= k + 1 ==> c.len() <= d + 1
}

/// The depths of all ids for chains of `k` steps or fewer.
spec fn depths_within(ws: Seq<Workstream>, names: Seq<Seq<char>>, k: nat, ds: Seq<usize>) -> bool {
    &&& ds.len() == names.len()
    &&& forall|i: int|
        0 <= i < names.len() ==> depth_within(ws, #[trigger] names[i], k, ds[i] as nat)
}

/// The depths of all ids for chains of no steps.
fn no_depths(ws: &Vec<Workstream>, names: &Vec<String>) -> (r: Vec<usize>)
    ensures
        depths_within(ws@, strs(names@), 0, r@),
{
    let mut ds: Vec<usize> = Vec::new();
    let mut i: usize = 0;
    while i < names.len()
        invariant
            i <= names@.len(),
            ds@.len() == i,
            forall|k: int| 0 <= k < i ==> #[trigger] ds@[k] == 0,
        decreases names.len() - i,
    {
        ds.push(0);
        i = i + 1;
    }
    proof {
        let gs = strs(names@);
        assert forall|i: int| 0 <= i < gs.len() implies depth_within(
            ws@,
            #[trigger] gs[i],
            0,
            ds@[i] as nat,
        ) by {
            assert(chain(ws@, gs[i], seq![gs[i]]));
        }
    }
    ds
}

/// One step more beneath one id.
fn deepen_one(
    ws: &Vec<Workstream>,
    names: &Vec<String>,
    on: bool,
    id: &str,
    ds: &Vec<usize>,
    Ghost(k): Ghost<nat>,
) -> (r: usize)
    requires
        on == on_cycle(ws@, id@),
        depths_within(ws@, strs(names@), k, ds@),
        forall|x: Seq<char>| in_plan(ws@, x) ==> #[trigger] strs(names@).contains(x),
        k < usize::MAX,
    ensures
        depth_within(ws@, id@, k + 1, r as nat),
{
    let ghost gs = strs(names@);
    let ghost one = seq![id@];
    assert(chain(ws@, id@, one));
    if on {
        proof {
            cycles_yield_zero(ws@, id@);
            assert(chain(ws@, id@, one) && one.len() == 1);
        }
        return 0;
    }
    let mut best: usize = 0;
    let ghost mut witness = one;
    let ghost all = deps(ws@, id@);
    match find_last(ws, id) {
        Some(at) => {
            let n: usize = ws[at].depends_on.len();
            let mut j: usize = 0;
            while j < n
                invariant
                    j <= n == all.len(),
                    at < ws@.len(),
                    all == deps(ws@, id@),
                    all == strs(ws@[at as int].depends_on@),
                    n == ws@[at as int].depends_on@.len(),
                    !on_cycle(ws@, id@),
                    gs == strs(names@),
                    depths_within(ws@, gs, k, ds@),
                    forall|x: Seq<char>| in_plan(ws@, x) ==> #[trigger] gs.contains(x),
                    k < usize::MAX,
                    best <= k + 1,
                    chain(ws@, id@, witness),
                    witness.len() == best + 1,
                    forall|m: int, c: Seq<Seq<char>>|
                        0 <= m < j && #[trigger] chain(ws@, #[trigger] all[m], c) && c.len() <= k + 1
                            ==> c.len() <= best,
                decreases n - j,
            {
                let ghost dep = all[j as int];
                assert(dep == ws@[at as int].depends_on@[j as int]@);
                assert(all.contains(dep));
                proof {
                    lemma_in_plan_closed(ws@, id@, dep);
                }
                match position_of(names, &ws[at].depends_on[j]) {
                    Some(p) => {
                        assert(depth_within(ws@, gs[p as int], k, ds@[p as int] as nat));
                        let ghost c = choose|c: Seq<Seq<char>>| #[trigger]
                            chain(ws@, dep, c) && c.len() == ds@[p as int] + 1 && ds@[p as int] <= k;
                        let here: usize = ds[p] + 1;
                        if here > best {
                            best = here;
                            proof {
                                lemma_chain_longer(ws@, id@, dep, c);
                                witness = seq![id@] + c;
                            }
                        }
                    },
                    None => {},
                }
                j = j + 1;
            }
        },
        None => {
            assert(all =~= seq![]);
        },
    }
    proof {
        assert forall|c: Seq<Seq<char>>| #[trigger]
            chain(ws@, id@, c) && c.len() <= k + 2 implies c.len() <= best + 1 by {
            if c.len() >= 2 {
                lemma_chain_shorter(ws@, id@, c);
                let m = choose|m: int| 0 <= m < all.len() && all[m] == c[1];
                assert(chain(ws@, all[m], c.skip(1)));
            }
        }
        assert(chain(ws@, id@, witness));
    }
    best
}

/// The depths that hold for chains of any length: no chain has more steps than there
/// are ids.
proof fn lemma_depths_hold(
    ws: Seq<Workstream>,
    names: Seq<Seq<char>>,
    ds: Seq<usize>,
    i: int,
)
    requires
        names.no_duplicates(),
        forall|x: Seq<char>| #[trigger] names.contains(x) <==> in_plan(ws, x),
        depths_within(ws, names, names.len(), ds),
        0 <= i < names.len(),
    ensures
        is_depth(ws, names[i], ds[i] as nat),
{
    let id = names[i];
    assert(depth_within(ws, names[i], names.len(), ds[i] as nat));
    names.unique_seq_to_set();
    assert forall|c: Seq<Seq<char>>| #[trigger] chain(ws, id, c) implies c.len() <= ds[i] + 1 by {
        lemma_chain_distinct(ws, id, c);
        assert forall|x: Seq<char>| #[trigger] c.to_set().contains(x) implies names.to_set().contains(
            x,
        ) by {
            let k = choose|k: int| 0 <= k < c.len() && c[k] == x;
            if k == 0 {
                assert(names.contains(names[i]));
            } else {
                assert(deps(ws, c[k - 1]).contains(c[k - 1 + 1]));
                lemma_in_plan_closed(ws, c[k - 1], x);
            }
            assert(names.contains(x));
        }
        lemma_distinct_within(c, names.to_set());
    }
}

/// The depth of every id of a plan.
#[derive(Debug)]
pub struct Depths {
    names: Vec<String>,
    depths: Vec<usize>,
}

/// Where an id stands.
spec fn place(names: Seq<Seq<char>>, id: Seq<char>) -> int {
    choose|i: int| 0 <= i < names.len() && names[i] == id
}

impl Depths {
    #[verifier::type_invariant]
    spec fn sound(self) -> bool {
        &&& self.names@.len() == self.depths@.len()
        &&& strs(self.names@).no_duplicates()
    }

    /// The depth of `id`, where it is known.
    pub closed spec fn at(&self, id: Seq<char>) -> Option<usize> {
        if strs(self.names@).contains(id) {
            Some(self.depths@[place(strs(self.names@), id)])
        } else {
            None
        }
    }

    /// The depth of `id`, where it is known.
    pub fn get(&self, id: &str) -> (r: Option<usize>)
        ensures
            r == self.at(id@),
    {
        proof {
            use_type_invariant(self);
        }
        match position_of(&self.names, id) {
            Some(i) => {
                assert(strs(self.names@)[i as int] == id@);
                assert(place(strs(self.names@), id@) == i);
                Some(self.depths[i])
            },
            None => None,
        }
    }
}

/// These are the depths of the ids of a plan.
pub open spec fn depths_of(ws: Seq<Workstream>, r: Depths) -> bool {
    forall|id: Seq<char>|
        match #[trigger] r.at(id) {
            Some(d) => in_plan(ws, id) && is_depth(ws, id, d as nat),
            None => !in_plan(ws, id),
        }
}

/// The depth of every workstream of a plan, and of what it depends on: the longest chain
/// of dependencies beneath it. A stray cycle yields zeros.
pub fn dep_depths(ranch: &Ranch) -> (r: Depths)
    ensures
        depths_of(ranch.workstreams@, r),
{
    let ws = &ranch.workstreams;
    let names = plan_ids(ws);
    let ghost gs = strs(names@);
    let ghost all = gs.to_set();
    assert forall|x: Seq<char>| in_plan(ws@, x) implies #[trigger] all.contains(x) by {
        assert(gs.contains(x));
    }
    let mut on: Vec<bool> = Vec::new();
    let mut i: usize = 0;
    while i < names.len()
        invariant
            i <= names@.len(),
            gs == strs(names@),
            all.finite(),
            forall|x: Seq<char>| in_plan(ws@, x) ==> #[trigger] all.contains(x),
            on@.len() == i,
            forall|k: int| 0 <= k < i ==> on@[k] == on_cycle(ws@, #[trigger] gs[k]),
        decreases names.len() - i,
    {
        assert(gs[i as int] == names@[i as int]@);
        on.push(lies_on_cycle(ws, &names[i], Ghost(all)));
        i = i + 1;
    }
    let mut depths = no_depths(ws, &names);
    let mut round: usize = 0;
    while round < names.len()
        invariant
            round <= names@.len(),
            gs == strs(names@),
            forall|x: Seq<char>| in_plan(ws@, x) ==> #[trigger] gs.contains(x),
            on@.len() == names@.len(),
            forall|k: int| 0 <= k < gs.len() ==> on@[k] == on_cycle(ws@, #[trigger] gs[k]),
            depths_within(ws@, gs, round as nat, depths@),
        decreases names.len() - round,
    {
        let mut next: Vec<usize> = Vec::new();
        let mut j: usize = 0;
        while j < names.len()
            invariant
                j <= names@.len(),
                round < names@.len(),
                gs == strs(names@),
                forall|x: Seq<char>| in_plan(ws@, x) ==> #[trigger] gs.contains(x),
                on@.len() == names@.len(),
                forall|k: int| 0 <= k < gs.len() ==> on@[k] == on_cycle(ws@, #[trigger] gs[k]),
                depths_within(ws@, gs, round as nat, depths@),
                next@.len() == j,
                forall|k: int|
                    0 <= k < j ==> depth_within(
                        ws@,
                        #[trigger] gs[k],
                        (round + 1) as nat,
                        next@[k] as nat,
                    ),
            decreases names.len() - j,
        {
            assert(gs[j as int] == names@[j as int]@);
            next.push(deepen_one(ws, &names, on[j], &names[j], &depths, Ghost(round as nat)));
            j = j + 1;
        }
        depths = next;
        round = round + 1;
    }
    let r = Depths { names, depths };
    proof {
        assert forall|id: Seq<char>|
            match #[trigger] r.at(id) {
                Some(d) => in_plan(ws@, id) && is_depth(ws@, id, d as nat),
                None => !in_plan(ws@, id),
            } by {
            if gs.contains(id) {
                let p = place(gs, id);
                lemma_depths_hold(ws@, gs, depths@, p);
            }
        }
    }
    r
}

// ---------------------------------------------------------------------------
// The order of layout
// ---------------------------------------------------------------------------

/// A workstream is laid out before another: it lies less deep, or as deep with an id
/// that comes first.
pub open spec fn laid_before(ws: Seq<Workstream>, depths: Depths) -> spec_fn(int, int) -> bool {
    |i: int, j: int|
        {
            let a = depth_key(depths, ws[i].id@);
            let b = depth_key(depths, ws[j].id@);
            a < b || (a == b && text_lt(ws[i].id@, ws[j].id@))
        }
}

/// The depth of `id`, or zero where it is not known.
pub open spec fn depth_key(depths: Depths, id: Seq<char>) -> int {
    match depths.at(id) {
        Some(d) => d as int,
        None => 0,
    }
}

fn key_of(depths: &Depths, id: &str) -> (r: usize)
    ensures
        r == depth_key(*depths, id@),
{
    match depths.get(id) {
        Some(d) => d,
        None => 0,
    }
}

/// The workstreams in the order they are laid out.
pub fn layout_order(ranch: &Ranch, depths: &Depths) -> (r: Vec<usize>)
    ensures
        arrangement(r@, ranch.workstreams@.len() as int),
        in_order(r@, laid_before(ranch.workstreams@, *depths)),
{
    let ws = &ranch.workstreams;
    let ghost lt = laid_before(ws@, *depths);
    proof {
        assert forall|x: int, y: int| #[trigger] lt(x, y) implies !lt(y, x) by {
            lemma_text_total(ws@[x].id@, ws@[y].id@);
        }
        assert forall|x: int, y: int, z: int|
            #![trigger lt(x, y), lt(y, z)]
            !lt(x, y) && !lt(y, z) implies !lt(x, z) by {
            lemma_text_order(ws@[x].id@, ws@[y].id@, ws@[z].id@);
        }
    }
    let less = |i: usize, j: usize| -> (b: bool)
        requires
            ws@.len() > i,
            ws@.len() > j,
        ensures
            b == lt(i as int, j as int),
    { comes_before(ws, depths, i, j) };
    arrange(ws.len(), less, Ghost(lt))
}

fn comes_before(ws: &Vec<Workstream>, depths: &Depths, i: usize, j: usize) -> (r: bool)
    requires
        i < ws@.len(),
        j < ws@.len(),
    ensures
        r == laid_before(ws@, *depths)(i as int, j as int),
{
    let a = key_of(depths, &ws[i].id);
    let b = key_of(depths, &ws[j].id);
    a < b || (a == b && text_less(&ws[i].id, &ws[j].id))
}

} // verus!
