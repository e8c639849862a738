//! Comparing texts and putting things in order.

use crate::text::chars_of;
use vstd::prelude::*;

verus! {

broadcast use vstd::string::group_string_axioms;

/// `a` comes before `b`, character by character, the shorter first where one begins
/// the other. This is the order of their bytes in UTF-8 too.
pub open spec fn text_lt(a: Seq<char>, b: Seq<char>) -> bool
    decreases a.len(),
{
    if b.len() == 0 {
        false
    } else if a.len() == 0 {
        true
    } else if a[0] != b[0] {
        a[0] < b[0]
    } else {
        text_lt(a.drop_first(), b.drop_first())
    }
}

/// The order of texts is total: of two different texts exactly one comes first.
pub proof fn lemma_text_total(a: Seq<char>, b: Seq<char>)
    ensures
        !(text_lt(a, b) && text_lt(b, a)),
        a != b ==> text_lt(a, b) || text_lt(b, a),
        a == b ==> !text_lt(a, b),
    decreases a.len(),
{
    if a.len() > 0 && b.len() > 0 && a[0] == b[0] {
        lemma_text_total(a.drop_first(), b.drop_first());
        if a.drop_first() == b.drop_first() {
            assert(a =~= seq![a[0]] + a.drop_first());
            assert(b =~= seq![b[0]] + b.drop_first());
        }
    } else if a.len() == 0 && b.len() == 0 {
        assert(a =~= b);
    }
}

/// Where `a` does not come before `b`, nor `b` before `c`, `a` does not come before `c`.
pub proof fn lemma_text_order(a: Seq<char>, b: Seq<char>, c: Seq<char>)
    ensures
        !text_lt(a, b) && !text_lt(b, c) ==> !text_lt(a, c),
    decreases a.len(),
{
    if a.len() > 0 && b.len() > 0 && c.len() > 0 {
        lemma_text_order(a.drop_first(), b.drop_first(), c.drop_first());
    }
}

/// Whether `a` comes before `b`.
pub fn text_less(a: &str, b: &str) -> (r: bool)
    ensures
        r == text_lt(a@, b@),
{
    let x = chars_of(a);
    let y = chars_of(b);
    let mut i: usize = 0;
    assert(x@.skip(0) =~= x@);
    assert(y@.skip(0) =~= y@);
    loop
        invariant
            i <= x@.len(),
            i <= y@.len(),
            x@ == a@,
            y@ == b@,
            text_lt(a@, b@) == text_lt(x@.skip(i as int), y@.skip(i as int)),
        decreases x.len() - i,
    {
        if i >= y.len() {
            return false;
        }
        if i >= x.len() {
            return true;
        }
        assert(x@.skip(i as int)[0] == x@[i as int]);
        assert(y@.skip(i as int)[0] == y@[i as int]);
        if x[i] != y[i] {
            return x[i] < y[i];
        }
        assert(x@.skip(i as int).drop_first() =~= x@.skip(i + 1));
        assert(y@.skip(i as int).drop_first() =~= y@.skip(i + 1));
        i = i + 1;
    }
}

/// A strict order in which ties are allowed.
pub open spec fn weak_order(lt: spec_fn(int, int) -> bool) -> bool {
    &&& forall|x: int, y: int| #[trigger] lt(x, y) ==> !lt(y, x)
    &&& forall|x: int, y: int, z: int|
        #![trigger lt(x, y), lt(y, z)]
        !lt(x, y) && !lt(y, z) ==> !lt(x, z)
}

/// `order` holds every index below `n` once.
pub open spec fn arrangement(order: Seq<usize>, n: int) -> bool {
    &&& order.len() == n
    &&& forall|i: int| 0 <= i < n ==> (#[trigger] order[i]) < n
    &&& forall|i: int, j: int|
        0 <= i < j < n ==> #[trigger] order[i] != #[trigger] order[j]
}

/// `order` puts what comes first first, and keeps ties as they were.
pub open spec fn in_order(order: Seq<usize>, lt: spec_fn(int, int) -> bool) -> bool {
    forall|i: int, j: int|
        #![trigger order[i], order[j]]
        0 <= i < j < order.len() ==> {
            &&& !lt(order[j] as int, order[i] as int)
            &&& !lt(order[i] as int, order[j] as int) ==> order[i] < order[j]
        }
}

/// The indices below `n`, in the order that `less` decides.
pub(crate) fn arrange<F: Fn(usize, usize) -> bool>(
    n: usize,
    less: F,
    Ghost(lt): Ghost<spec_fn(int, int) -> bool>,
) -> (r: Vec<usize>)
    requires
        weak_order(lt),
        forall|i: usize, j: usize| i < n && j < n ==> #[trigger] call_requires(less, (i, j)),
        forall|i: usize, j: usize, b: bool|
            i < n && j < n && #[trigger] call_ensures(less, (i, j), b) ==> b == lt(
                i as int,
                j as int,
            ),
    ensures
        arrangement(r@, n as int),
        in_order(r@, lt),
{
    let mut out: Vec<usize> = Vec::new();
    let mut i: usize = 0;
    while i < n
        invariant
            i <= n,
            weak_order(lt),
            forall|i: usize, j: usize| i < n && j < n ==> #[trigger] call_requires(less, (i, j)),
            forall|i: usize, j: usize, b: bool|
                i < n && j < n && #[trigger] call_ensures(less, (i, j), b) ==> b == lt(
                    i as int,
                    j as int,
                ),
            arrangement(out@, i as int),
            in_order(out@, lt),
        decreases n - i,
    {
        let mut k: usize = out.len();
        while k > 0 && less(i, out[k - 1])
            invariant
                i < n,
                k <= out@.len() == i,
                forall|i: usize, j: usize|
                    i < n && j < n ==> #[trigger] call_requires(less, (i, j)),
                forall|i: usize, j: usize, b: bool|
                    i < n && j < n && #[trigger] call_ensures(less, (i, j), b) ==> b == lt(
                        i as int,
                        j as int,
                    ),
                arrangement(out@, i as int),
                forall|m: int| k <= m < out@.len() ==> lt(i as int, #[trigger] out@[m] as int),
            ensures
                k > 0 ==> !lt(i as int, out@[k - 1] as int),
            decreases k,
        {
            k = k - 1;
        }
        let ghost before = out@;
        out.insert(k, i);
        proof {
            assert(out@ =~= before.take(k as int).push(i) + before.skip(k as int));
            assert forall|a: int| 0 <= a < k implies !lt(i as int, #[trigger] before[a] as int) by {
                if a < k - 1 {
                    assert(!lt(before[k - 1] as int, before[a] as int));
                }
            }
            assert forall|a: int, b: int|
                #![trigger out@[a], out@[b]]
                0 <= a < b < out@.len() implies {
                &&& !lt(out@[b] as int, out@[a] as int)
                &&& !lt(out@[a] as int, out@[b] as int) ==> out@[a] < out@[b]
            } by {
                if b < k {
                    assert(out@[a] == before[a] && out@[b] == before[b]);
                } else if b == k {
                    assert(out@[a] == before[a]);
                } else if a < k {
                    assert(out@[a] == before[a] && out@[b] == before[b - 1]);
                } else if a == k {
                    assert(out@[b] == before[b - 1]);
                    assert(lt(i as int, before[b - 1] as int));
                } else {
                    assert(out@[a] == before[a - 1] && out@[b] == before[b - 1]);
                }
            }
            assert forall|a: int, b: int| 0 <= a < b < out@.len() implies #[trigger] out@[a]
                != #[trigger] out@[b] by {
                let x = if a < k {
                    a
                } else {
                    a - 1
                };
                let y = if b < k {
                    b
                } else {
                    b - 1
                };
                if a != k {
                    assert(out@[a] == before[x]);
                    assert(before[x] < i);
                }
                if b != k {
                    assert(out@[b] == before[y]);
                    assert(before[y] < i);
                }
            }
            assert forall|a: int| 0 <= a < out@.len() implies (#[trigger] out@[a]) < i + 1 by {
                if a < k {
                    assert(out@[a] == before[a]);
                } else if a > k {
                    assert(out@[a] == before[a - 1]);
                }
            }
        }
        i = i + 1;
    }
    out
}

/// Texts are in order by the first character in which they differ, and where they differ
/// in none the shorter comes first.
pub proof fn first_differences_decide(a: Seq<char>, b: Seq<char>)
    ensures
        text_lt(a, b) <==> exists|k: int|
            {
                &&& 0 <= k <= a.len() && k < b.len()
                &&& #[trigger] a.take(k) == b.take(k)
                &&& k == a.len() || a[k] < b[k]
            },
    decreases a.len(),
{
    if b.len() == 0 {
    } else if a.len() == 0 {
        assert(a.take(0) =~= b.take(0));
    } else if a[0] != b[0] {
        if a[0] < b[0] {
            assert(a.take(0) =~= b.take(0));
        }
        assert forall|k: int|
            0 < k <= a.len() && k < b.len() implies #[trigger] a.take(k) != b.take(k) by {
            assert(a.take(k)[0] == a[0]);
            assert(b.take(k)[0] == b[0]);
        }
    } else {
        let x = a.drop_first();
        let y = b.drop_first();
        first_differences_decide(x, y);
        if text_lt(x, y) {
            let k = choose|k: int|
                {
                    &&& 0 <= k <= x.len() && k < y.len()
                    &&& #[trigger] x.take(k) == y.take(k)
                    &&& k == x.len() || x[k] < y[k]
                };
            assert(a.take(k + 1) =~= b.take(k + 1)) by {
                assert forall|i: int| 0 <= i < k + 1 implies a[i] == b[i] by {
                    if i > 0 {
                        assert(x.take(k)[i - 1] == x[i - 1]);
                        assert(y.take(k)[i - 1] == y[i - 1]);
                    }
                }
            }
        }
        if exists|k: int|
            {
                &&& 0 <= k <= a.len() && k < b.len()
                &&& #[trigger] a.take(k) == b.take(k)
                &&& k == a.len() || a[k] < b[k]
            } {
            let k = choose|k: int|
                {
                    &&& 0 <= k <= a.len() && k < b.len()
                    &&& #[trigger] a.take(k) == b.take(k)
                    &&& k == a.len() || a[k] < b[k]
                };
            assert(k > 0);
            assert(x.take(k - 1) =~= y.take(k - 1)) by {
                assert forall|i: int| 0 <= i < k - 1 implies x[i] == y[i] by {
                    assert(a.take(k)[i + 1] == a[i + 1]);
                    assert(b.take(k)[i + 1] == b[i + 1]);
                }
            }
        }
    }
}

} // verus!
