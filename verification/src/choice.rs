//! Choosing some of many by their place, without changing their order.

use vstd::prelude::*;

verus! {

/// Places below `n`, each once, from the least to the greatest.
pub open spec fn ascending(js: Seq<int>, n: int) -> bool {
    &&& forall|a: int| 0 <= a < js.len() ==> 0 <= #[trigger] js[a] < n
    &&& forall|a: int, b: int| 0 <= a < b < js.len() ==> #[trigger] js[a] < #[trigger] js[b]
}

/// One more place behind the others.
pub proof fn lemma_one_more(js: Seq<int>, n: int)
    requires
        ascending(js, n),
        0 <= n,
    ensures
        ascending(js.push(n), n + 1),
        forall|i: int| #[trigger] js.push(n).contains(i) <==> js.contains(i) || i == n,
        !js.contains(n),
{
    let more = js.push(n);
    assert forall|i: int| #[trigger] more.contains(i) <==> js.contains(i) || i == n by {
        if js.contains(i) {
            let k = js.index_of(i);
            assert(more[k] == i);
        }
        assert(more[js.len() as int] == n);
        if more.contains(i) {
            let k = choose|k: int| 0 <= k < more.len() && more[k] == i;
            if k < js.len() {
                assert(js[k] == i);
            }
        }
    }
}

} // verus!
