//! Finding and replacing one text inside another, left to right and without
//! overlap.

use crate::text::{chars_of, string_of};
use crate::words::join;
use vstd::prelude::*;

verus! {

broadcast use vstd::string::group_string_axioms;

/// `pat` stands in `text` at index `i`.
pub open spec fn at(text: Seq<char>, pat: Seq<char>, i: int) -> bool {
    0 <= i && i + pat.len() <= text.len() && text.subrange(i, i + pat.len()) == pat
}

/// `pat` stands somewhere in `text`.
pub open spec fn contains(text: Seq<char>, pat: Seq<char>) -> bool {
    exists|i: int| at(text, pat, i)
}

/// `text` begins with `pat`.
pub open spec fn starts_with(text: Seq<char>, pat: Seq<char>) -> bool {
    at(text, pat, 0)
}

/// `text` ends with `pat`.
pub open spec fn ends_with(text: Seq<char>, pat: Seq<char>) -> bool {
    at(text, pat, text.len() - pat.len())
}

/// The first index at or after `from` at which `pat` stands.
pub open spec fn find(text: Seq<char>, pat: Seq<char>, from: int) -> Option<int>
    decreases text.len() - from + 1,
{
    if from < 0 || from + pat.len() > text.len() {
        None
    } else if at(text, pat, from) {
        Some(from)
    } else {
        find(text, pat, from + 1)
    }
}

/// How often `pat` stands in `text[from..]`, each occurrence looked for after the
/// end of the one before.
pub open spec fn count(text: Seq<char>, pat: Seq<char>, from: int) -> nat
    decreases text.len() - from,
{
    match find(text, pat, from) {
        Some(i) => {
            proof {
                lemma_find(text, pat, from);
            }
            if pat.len() == 0 {
                0
            } else {
                1 + count(text, pat, i + pat.len())
            }
        },
        None => 0,
    }
}

/// `text[from..]` with every such occurrence of `pat` replaced by `new`.
pub open spec fn replace(text: Seq<char>, pat: Seq<char>, new: Seq<char>, from: int) -> Seq<char>
    decreases text.len() - from,
{
    match find(text, pat, from) {
        Some(i) => {
            proof {
                lemma_find(text, pat, from);
            }
            if pat.len() == 0 {
                text.skip(from)
            } else {
                text.subrange(from, i) + new + replace(text, pat, new, i + pat.len())
            }
        },
        None => text.skip(from),
    }
}

/// `text` with the first occurrence of `pat` replaced by `new`.
pub open spec fn replace_once(text: Seq<char>, pat: Seq<char>, new: Seq<char>) -> Seq<char> {
    match find(text, pat, 0) {
        Some(i) => text.take(i) + new + text.skip(i + pat.len()),
        None => text,
    }
}

/// [`find`] gives the least index, and nothing only where there is none.
pub proof fn lemma_find(text: Seq<char>, pat: Seq<char>, from: int)
    requires
        0 <= from,
    ensures
        match find(text, pat, from) {
            Some(i) => {
                &&& from <= i
                &&& at(text, pat, i)
                &&& forall|k: int| from <= k < i ==> !#[trigger] at(text, pat, k)
            },
            None => forall|k: int| from <= k ==> !#[trigger] at(text, pat, k),
        },
    decreases text.len() - from + 1,
{
    if from + pat.len() <= text.len() && !at(text, pat, from) {
        lemma_find(text, pat, from + 1);
    }
}

/// A text is contained exactly where a search from the start finds it, and that
/// is exactly where a non-empty one is counted at least once.
pub proof fn lemma_contains_count(text: Seq<char>, pat: Seq<char>)
    requires
        pat.len() > 0,
    ensures
        contains(text, pat) <==> find(text, pat, 0) is Some,
        contains(text, pat) <==> count(text, pat, 0) > 0,
{
    lemma_find(text, pat, 0);
}

/// Replacing a text by itself changes nothing.
pub proof fn lemma_replace_same(text: Seq<char>, pat: Seq<char>, from: int)
    requires
        0 <= from <= text.len(),
    ensures
        replace(text, pat, pat, from) == text.skip(from),
        replace_once(text, pat, pat) == text,
    decreases text.len() - from,
{
    lemma_find(text, pat, from);
    lemma_find(text, pat, 0);
    match find(text, pat, 0) {
        Some(i) => {
            assert(text.take(i) + pat + text.skip(i + pat.len()) =~= text) by {
                assert(pat == text.subrange(i, i + pat.len()));
            }
        },
        None => {},
    }
    match find(text, pat, from) {
        Some(i) => {
            if pat.len() > 0 {
                lemma_replace_same(text, pat, i + pat.len());
                assert(text.subrange(from, i) + pat + text.skip(i + pat.len()) =~= text.skip(from))
                    by {
                    assert(pat == text.subrange(i, i + pat.len()));
                }
            }
        },
        None => {},
    }
}

/// Replacing by something leaves something of a text that is not empty.
pub proof fn lemma_replace_not_empty(text: Seq<char>, pat: Seq<char>, new: Seq<char>)
    requires
        text.len() > 0,
        new.len() > 0,
    ensures
        replace(text, pat, new, 0).len() > 0,
{
    lemma_find(text, pat, 0);
}

// ---------------------------------------------------------------------------
// Occurrences by their places
// ---------------------------------------------------------------------------

/// The places, from `from` on, at which `pat` is met one after the other: it stands at
/// each, no two overlap, and wherever else it stands, it begins inside one of them.
#[verifier::opaque]
pub open spec fn successive(text: Seq<char>, pat: Seq<char>, from: int, ps: Seq<int>) -> bool {
    &&& forall|k: int| 0 <= k < ps.len() ==> from <= #[trigger] ps[k] && at(text, pat, ps[k])
    &&& forall|a: int, b: int|
        0 <= a < b < ps.len() ==> #[trigger] ps[a] + pat.len() <= #[trigger] ps[b]
    &&& forall|i: int|
        from <= i && #[trigger] at(text, pat, i) ==> begins_inside(ps, pat.len() as int, i)
}

/// A place lies within `len` of one of the others, or is one of them.
pub open spec fn begins_inside(ps: Seq<int>, len: int, i: int) -> bool {
    exists|k: int| 0 <= k < ps.len() && #[trigger] ps[k] <= i < ps[k] + len
}

/// Where a text stands is inside one of its successive places, and those are in order.
pub proof fn lemma_successive(text: Seq<char>, pat: Seq<char>, from: int, ps: Seq<int>, k: int)
    requires
        successive(text, pat, from, ps),
    ensures
        0 <= k < ps.len() ==> from <= ps[k] && at(text, pat, ps[k]),
        0 < k < ps.len() ==> ps[k - 1] + pat.len() <= ps[k],
        from <= k && at(text, pat, k) ==> begins_inside(ps, pat.len() as int, k),
{
    reveal(successive);
    if 0 < k < ps.len() {
        assert(ps[k - 1] + pat.len() <= ps[k]);
    }
}

/// Of two successive places the earlier ends before the later begins.
pub proof fn lemma_places(text: Seq<char>, pat: Seq<char>, from: int, ps: Seq<int>, a: int, b: int)
    requires
        successive(text, pat, from, ps),
    ensures
        0 <= a < b < ps.len() ==> ps[a] + pat.len() <= ps[b],
{
    reveal(successive);
}

/// What is left of `text[from..]` once `len` characters are taken out at each of the
/// places: what stands in front of the first, between each two, and behind the last.
pub open spec fn left_over(text: Seq<char>, len: int, from: int, ps: Seq<int>) -> Seq<Seq<char>> {
    Seq::new(
        ps.len() + 1,
        |k: int|
            text.subrange(
                if k == 0 {
                    from
                } else {
                    ps[k - 1] + len
                },
                if k == ps.len() {
                    text.len() as int
                } else {
                    ps[k]
                },
            ),
    )
}

/// Joining texts is putting the first in front of the others joined.
pub proof fn lemma_join_front(first: Seq<char>, rest: Seq<Seq<char>>, sep: Seq<char>)
    requires
        rest.len() > 0,
    ensures
        join(seq![first] + rest, sep) == first + sep + join(rest, sep),
    decreases rest.len(),
{
    let all = seq![first] + rest;
    assert(all.last() == rest.last());
    if rest.len() == 1 {
        assert(all.drop_last() =~= seq![first]);
        assert(join(seq![first], sep) == first);
    } else {
        lemma_join_front(first, rest.drop_last(), sep);
        assert(all.drop_last() =~= seq![first] + rest.drop_last());
        assert(join(all, sep) =~= first + sep + join(rest, sep));
    }
}

/// The first occurrence in front of those behind it.
pub proof fn lemma_successive_front(
    text: Seq<char>,
    pat: Seq<char>,
    from: int,
    i: int,
    rest: Seq<int>,
)
    requires
        pat.len() > 0,
        0 <= from,
        find(text, pat, from) == Some(i),
        successive(text, pat, i + pat.len(), rest),
    ensures
        successive(text, pat, from, seq![i] + rest),
{
    lemma_find(text, pat, from);
    let ps = seq![i] + rest;
    let len = pat.len() as int;
    assert(ps[0] == i);
    assert forall|k: int| 0 <= k < ps.len() implies from <= #[trigger] ps[k] && at(
        text,
        pat,
        ps[k],
    ) by {
        if k > 0 {
            lemma_successive(text, pat, i + len, rest, k - 1);
            assert(ps[k] == rest[k - 1]);
        }
    }
    assert forall|a: int, b: int| 0 <= a < b < ps.len() implies #[trigger] ps[a] + pat.len()
        <= #[trigger] ps[b] by {
        assert(ps[b] == rest[b - 1]);
        lemma_places(text, pat, i + len, rest, a - 1, b - 1);
        lemma_successive(text, pat, i + len, rest, b - 1);
        if a > 0 {
            assert(ps[a] == rest[a - 1]);
        }
    }
    assert forall|j: int| from <= j && #[trigger] at(text, pat, j) implies begins_inside(
        ps,
        len,
        j,
    ) by {
        if j >= i + len {
            lemma_successive(text, pat, i + len, rest, j);
            let k = choose|k: int| 0 <= k < rest.len() && #[trigger] rest[k] <= j < rest[k] + len;
            assert(ps[k + 1] == rest[k]);
        }
    }
    reveal(successive);
}

/// What is left in front of the first place, and what is left behind it.
proof fn lemma_left_over_front(text: Seq<char>, len: int, from: int, i: int, rest: Seq<int>)
    ensures
        left_over(text, len, from, seq![i] + rest) == seq![text.subrange(from, i)] + left_over(
            text,
            len,
            i + len,
            rest,
        ),
{
    let ps = seq![i] + rest;
    let pieces = left_over(text, len, from, ps);
    let others = left_over(text, len, i + len, rest);
    let all = seq![text.subrange(from, i)] + others;
    assert forall|k: int| 0 <= k < pieces.len() implies #[trigger] pieces[k] == all[k] by {
        if k > 0 {
            assert(others[k - 1] == all[k]);
            if k > 1 {
                assert(ps[k - 1] == rest[k - 2]);
            }
            if k < ps.len() {
                assert(ps[k] == rest[k - 1]);
            }
        }
    }
    assert(pieces =~= all);
}

/// What a replacement does to the length.
proof fn lemma_replace_len(text: Seq<char>, pat: Seq<char>, new: Seq<char>, from: int)
    requires
        pat.len() > 0,
        0 <= from <= text.len(),
    ensures
        replace(text, pat, new, from).len() == text.len() - from + count(text, pat, from) * (
        new.len() - pat.len()),
    decreases text.len() - from,
{
    lemma_find(text, pat, from);
    let d = new.len() - pat.len();
    match find(text, pat, from) {
        None => {
            assert(0 * d == 0) by (nonlinear_arith);
        },
        Some(i) => {
            lemma_replace_len(text, pat, new, i + pat.len());
            let n = count(text, pat, i + pat.len());
            assert((n + 1) * d == n * d + d) by (nonlinear_arith);
        },
    }
}

/// Every occurrence is replaced, and nothing else is: what stood between the
/// occurrences is left as it was, in its order, with the new text between each two
/// pieces. As many occurrences are counted as there are such places.
pub proof fn lemma_replace_joins(text: Seq<char>, pat: Seq<char>, new: Seq<char>, from: int) -> (ps:
    Seq<int>)
    requires
        pat.len() > 0,
        0 <= from <= text.len(),
    ensures
        successive(text, pat, from, ps),
        count(text, pat, from) == ps.len(),
        text.skip(from) == join(left_over(text, pat.len() as int, from, ps), pat),
        replace(text, pat, new, from) == join(left_over(text, pat.len() as int, from, ps), new),
        replace(text, pat, new, from).len() == text.len() - from + ps.len() * (new.len()
            - pat.len()),
    decreases text.len() - from,
{
    let len = pat.len() as int;
    lemma_find(text, pat, from);
    lemma_replace_len(text, pat, new, from);
    match find(text, pat, from) {
        None => {
            let ps: Seq<int> = seq![];
            assert(left_over(text, len, from, ps) =~= seq![text.skip(from)]);
            assert(successive(text, pat, from, ps)) by {
                reveal(successive);
            }
            ps
        },
        Some(i) => {
            let rest = lemma_replace_joins(text, pat, new, i + len);
            let ps = seq![i] + rest;
            let others = left_over(text, len, i + len, rest);
            assert(successive(text, pat, from, ps)) by {
                lemma_successive_front(text, pat, from, i, rest);
            }
            assert(join(left_over(text, len, from, ps), new) == text.subrange(from, i) + new + join(
                others,
                new,
            )) by {
                lemma_left_over_front(text, len, from, i, rest);
                lemma_join_front(text.subrange(from, i), others, new);
            }
            assert(text.skip(from) == join(left_over(text, len, from, ps), pat)) by {
                lemma_left_over_front(text, len, from, i, rest);
                lemma_join_front(text.subrange(from, i), others, pat);
                assert(text.skip(from) =~= text.subrange(from, i) + text.subrange(i, i + len)
                    + text.skip(i + len));
            }
            ps
        },
    }
}

/// A search from an index on is a search of what follows it.
pub proof fn lemma_find_shift(text: Seq<char>, pat: Seq<char>, from: int)
    requires
        0 <= from <= text.len(),
    ensures
        match find(text.skip(from), pat, 0) {
            Some(i) => find(text, pat, from) == Some(i + from),
            None => find(text, pat, from) is None,
        },
{
    let rest = text.skip(from);
    lemma_find(text, pat, from);
    lemma_find(rest, pat, 0);
    assert forall|k: int| from <= k implies #[trigger] at(text, pat, k) == at(
        rest,
        pat,
        k - from,
    ) by {
        if k + pat.len() <= text.len() {
            assert(text.subrange(k, k + pat.len()) =~= rest.subrange(
                k - from,
                k - from + pat.len(),
            ));
        }
    }
    match find(rest, pat, 0) {
        Some(i) => {
            assert(at(text, pat, i + from));
            let j = find(text, pat, from)->0;
            assert(at(rest, pat, j - from));
        },
        None => {
            if find(text, pat, from) is Some {
                let j = find(text, pat, from)->0;
                assert(at(rest, pat, j - from));
            }
        },
    }
}

proof fn lemma_replace_shift(text: Seq<char>, pat: Seq<char>, new: Seq<char>, from: int)
    requires
        pat.len() > 0,
        0 <= from <= text.len(),
    ensures
        replace(text, pat, new, from) == replace(text.skip(from), pat, new, 0),
    decreases text.len() - from,
{
    let rest = text.skip(from);
    lemma_find_shift(text, pat, from);
    lemma_find(rest, pat, 0);
    match find(rest, pat, 0) {
        Some(i) => {
            let next = i + pat.len();
            lemma_replace_shift(text, pat, new, from + next);
            lemma_replace_shift(rest, pat, new, next);
            assert(rest.skip(next) =~= text.skip(from + next));
            assert(rest.subrange(0, i) =~= text.subrange(from, i + from));
        },
        None => {
            assert(rest.skip(0) =~= rest);
        },
    }
}

/// Replacing what pieces are joined by is joining them by the new text, where it is not
/// met before the end of a piece and not at all in the last.
pub proof fn replacing_exchanges_the_joints(ps: Seq<Seq<char>>, pat: Seq<char>, new: Seq<char>)
    requires
        pat.len() > 0,
        ps.len() > 0,
        forall|k: int, m: int|
            0 <= k < ps.len() - 1 && 0 <= m < ps[k].len() ==> !#[trigger] at(ps[k] + pat, pat, m),
        !contains(ps.last(), pat),
    ensures
        replace(join(ps, pat), pat, new, 0) == join(ps, new),
    decreases ps.len(),
{
    let text = join(ps, pat);
    lemma_find(text, pat, 0);
    if ps.len() == 1 {
        if find(text, pat, 0) is Some {
            assert(at(ps.last(), pat, find(text, pat, 0)->0));
        }
        assert(text.skip(0) =~= text);
    } else {
        let first = ps[0];
        let rest = ps.drop_first();
        let n = first.len() as int;
        assert(ps =~= seq![first] + rest);
        lemma_join_front(first, rest, pat);
        lemma_join_front(first, rest, new);
        assert(text.subrange(n, n + pat.len()) =~= pat);
        assert(at(text, pat, n));
        let i = find(text, pat, 0)->0;
        if i < n {
            assert(text.subrange(i, i + pat.len()) =~= (first + pat).subrange(i, i + pat.len()));
            assert(at(ps[0] + pat, pat, i));
        }
        assert(i == n);
        assert(text.skip(n + pat.len()) =~= join(rest, pat));
        lemma_replace_shift(text, pat, new, n + pat.len());
        assert forall|k: int, m: int|
            0 <= k < rest.len() - 1 && 0 <= m < rest[k].len() implies !#[trigger] at(
            rest[k] + pat,
            pat,
            m,
        ) by {
            assert(rest[k] == ps[k + 1]);
            assert(!at(ps[k + 1] + pat, pat, m));
        }
        assert(rest.last() == ps.last());
        replacing_exchanges_the_joints(rest, pat, new);
        assert(text.subrange(0, n) =~= first);
    }
}

/// A text that is met once is replaced where it stands: what is in front of it and what
/// is behind it stay.
pub proof fn lemma_replace_single(text: Seq<char>, pat: Seq<char>, new: Seq<char>, i: int)
    requires
        pat.len() > 0,
        0 <= i,
        i + pat.len() <= text.len(),
        text.subrange(i, i + pat.len()) == pat,
        forall|k: int|
            0 <= k && k + pat.len() <= text.len() && #[trigger] text.subrange(k, k + pat.len())
                == pat ==> i <= k < i + pat.len(),
    ensures
        count(text, pat, 0) == 1,
        replace(text, pat, new, 0) == text.take(i) + new + text.skip(i + pat.len()),
        replace_once(text, pat, new) == text.take(i) + new + text.skip(i + pat.len()),
{
    assert(at(text, pat, i));
    lemma_find(text, pat, 0);
    let j = find(text, pat, 0)->0;
    assert(text.subrange(j, j + pat.len()) == pat);
    assert(j == i);
    lemma_find(text, pat, i + pat.len());
    match find(text, pat, i + pat.len()) {
        Some(k) => {
            assert(text.subrange(k, k + pat.len()) == pat);
        },
        None => {},
    }
    assert(count(text, pat, i + pat.len()) == 0);
    assert(replace(text, pat, new, i + pat.len()) == text.skip(i + pat.len()));
    assert(text.subrange(0, i) =~= text.take(i));
}

/// A text that is met at two places that do not overlap is counted more than once.
pub proof fn lemma_count_two(text: Seq<char>, pat: Seq<char>, i: int, j: int)
    requires
        pat.len() > 0,
        0 <= i,
        i + pat.len() <= j,
        j + pat.len() <= text.len(),
        text.subrange(i, i + pat.len()) == pat,
        text.subrange(j, j + pat.len()) == pat,
    ensures
        count(text, pat, 0) > 1,
{
    assert(at(text, pat, i));
    assert(at(text, pat, j));
    lemma_find(text, pat, 0);
    let first = find(text, pat, 0)->0;
    lemma_find(text, pat, first + pat.len());
    assert(count(text, pat, first + pat.len()) > 0);
}

// ---------------------------------------------------------------------------
// The same, on characters and on strings
// ---------------------------------------------------------------------------

/// Whether `pat` stands in `text` at `i`.
fn stands_at(text: &Vec<char>, pat: &Vec<char>, i: usize) -> (r: bool)
    ensures
        r == at(text@, pat@, i as int),
{
    if pat.len() > text.len() || i > text.len() - pat.len() {
        return false;
    }
    let mut k: usize = 0;
    while k < pat.len()
        invariant
            k <= pat@.len(),
            i + pat.len() <= text.len(),
            forall|j: int| 0 <= j < k ==> text@[i + j] == #[trigger] pat@[j],
        decreases pat.len() - k,
    {
        if text[i + k] != pat[k] {
            assert(text@.subrange(i as int, i + pat@.len())[k as int] != pat@[k as int]);
            return false;
        }
        k = k + 1;
    }
    assert(text@.subrange(i as int, i + pat@.len()) =~= pat@);
    true
}

/// [`find`] on characters.
pub fn find_chars(text: &Vec<char>, pat: &Vec<char>, from: usize) -> (r: Option<usize>)
    ensures
        match r {
            Some(i) => find(text@, pat@, from as int) == Some(i as int),
            None => find(text@, pat@, from as int) is None,
        },
        r is Some ==> from <= r->0 && r->0 + pat.len() <= text.len(),
{
    if pat.len() > text.len() {
        return None;
    }
    let last: usize = text.len() - pat.len();
    let mut i: usize = from;
    while i <= last
        invariant
            from <= i,
            last + pat.len() == text.len(),
            find(text@, pat@, from as int) == find(text@, pat@, i as int),
        decreases last + 1 - i,
    {
        if stands_at(text, pat, i) {
            return Some(i);
        }
        if i == last {
            assert(find(text@, pat@, i + 1) is None);
            return None;
        }
        i = i + 1;
    }
    None
}

/// Whether `pat` stands somewhere in `text`.
pub fn has(text: &str, pat: &str) -> (r: bool)
    ensures
        r == contains(text@, pat@),
{
    let t = chars_of(text);
    let p = chars_of(pat);
    proof {
        lemma_find(t@, p@, 0);
    }
    match find_chars(&t, &p, 0) {
        Some(i) => {
            assert(at(text@, pat@, i as int));
            true
        },
        None => {
            assert(forall|k: int| !at(text@, pat@, k));
            false
        },
    }
}

/// Whether `text` begins with `pat`.
pub fn has_prefix(text: &str, pat: &str) -> (r: bool)
    ensures
        r == starts_with(text@, pat@),
{
    let t = chars_of(text);
    let p = chars_of(pat);
    stands_at(&t, &p, 0)
}

/// Whether `text` ends with `pat`.
pub fn has_suffix(text: &str, pat: &str) -> (r: bool)
    ensures
        r == ends_with(text@, pat@),
{
    let t = chars_of(text);
    let p = chars_of(pat);
    if p.len() > t.len() {
        return false;
    }
    stands_at(&t, &p, t.len() - p.len())
}

/// What follows `pat` in a `text` that begins with it.
pub fn strip_prefix(text: &str, pat: &str) -> (r: Option<String>)
    ensures
        r is Some <==> starts_with(text@, pat@),
        r is Some ==> (r->0)@ == text@.skip(pat@.len() as int),
{
    let t = chars_of(text);
    let p = chars_of(pat);
    if stands_at(&t, &p, 0) {
        let rest = string_of(&t, p.len(), t.len());
        assert(rest@ =~= text@.skip(pat@.len() as int));
        Some(rest)
    } else {
        None
    }
}

/// What precedes `pat` in a `text` that ends with it.
pub fn strip_suffix(text: &str, pat: &str) -> (r: Option<String>)
    ensures
        r is Some <==> ends_with(text@, pat@),
        r is Some ==> (r->0)@ == text@.take(text@.len() - pat@.len()),
{
    let t = chars_of(text);
    let p = chars_of(pat);
    if p.len() > t.len() {
        return None;
    }
    if stands_at(&t, &p, t.len() - p.len()) {
        let rest = string_of(&t, 0, t.len() - p.len());
        assert(rest@ =~= text@.take(text@.len() - pat@.len()));
        Some(rest)
    } else {
        None
    }
}

/// What precedes and what follows the first `pat` in `text`.
pub fn split_once(text: &str, pat: &str) -> (r: Option<(String, String)>)
    ensures
        match find(text@, pat@, 0) {
            Some(i) => {
                &&& r is Some
                &&& (r->0).0@ == text@.take(i)
                &&& (r->0).1@ == text@.skip(i + pat@.len())
            },
            None => r is None,
        },
{
    let t = chars_of(text);
    let p = chars_of(pat);
    match find_chars(&t, &p, 0) {
        Some(i) => {
            let a = string_of(&t, 0, i);
            let b = string_of(&t, i + p.len(), t.len());
            assert(a@ =~= text@.take(i as int));
            assert(b@ =~= text@.skip(i + pat@.len()));
            Some((a, b))
        },
        None => None,
    }
}

/// How often `pat` stands in `text`.
pub fn count_of(text: &str, pat: &str) -> (r: usize)
    ensures
        r == count(text@, pat@, 0),
{
    let t = chars_of(text);
    let p = chars_of(pat);
    if p.len() == 0 {
        return 0;
    }
    let mut n: usize = 0;
    let mut i: usize = 0;
    loop
        invariant
            0 < p@.len(),
            n <= i <= t.len(),
            n + count(t@, p@, i as int) == count(t@, p@, 0),
        ensures
            n == count(t@, p@, 0),
        decreases t@.len() - i,
    {
        match find_chars(&t, &p, i) {
            Some(k) => {
                n = n + 1;
                i = k + p.len();
            },
            None => {
                break;
            },
        }
    }
    n
}

/// `text` with every occurrence of `pat` replaced by `new`.
pub fn replace_all(text: &str, pat: &str, new: &str) -> (r: String)
    requires
        pat@.len() > 0,
    ensures
        r@ == replace(text@, pat@, new@, 0),
{
    let t = chars_of(text);
    let p = chars_of(pat);
    let mut out = String::new();
    let mut i: usize = 0;
    assert(out@ + replace(t@, p@, new@, 0) =~= replace(t@, p@, new@, 0));
    loop
        invariant_except_break
            out@ + replace(t@, p@, new@, i as int) == replace(t@, p@, new@, 0),
        invariant
            0 < p@.len(),
            i <= t.len(),
        ensures
            out@ == replace(t@, p@, new@, 0),
        decreases t@.len() - i,
    {
        let ghost before = out@;
        match find_chars(&t, &p, i) {
            Some(k) => {
                let keep = string_of(&t, i, k);
                out.push_str(&keep);
                out.push_str(new);
                proof {
                    let rest = replace(t@, p@, new@, k + p@.len());
                    assert(before + (t@.subrange(i as int, k as int) + new@ + rest) =~= before
                        + t@.subrange(i as int, k as int) + new@ + rest);
                }
                i = k + p.len();
            },
            None => {
                let keep = string_of(&t, i, t.len());
                assert(keep@ =~= t@.skip(i as int));
                out.push_str(&keep);
                break;
            },
        }
    }
    out
}

/// `text` with the first occurrence of `pat` replaced by `new`.
pub fn replace_first(text: &str, pat: &str, new: &str) -> (r: String)
    ensures
        r@ == replace_once(text@, pat@, new@),
{
    let t = chars_of(text);
    let p = chars_of(pat);
    match find_chars(&t, &p, 0) {
        Some(k) => {
            let mut out = string_of(&t, 0, k);
            let tail = string_of(&t, k + p.len(), t.len());
            assert(out@ =~= t@.take(k as int));
            assert(tail@ =~= t@.skip(k + p@.len()));
            out.push_str(new);
            out.push_str(&tail);
            out
        },
        None => text.to_owned(),
    }
}

} // verus!
