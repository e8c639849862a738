//! Explaining an edit that could not be applied: why its text was not found, or
//! where it was found more than once.

use crate::choice::{ascending, lemma_one_more};
use crate::repair::{analysable, lf, to_lf, MAX_DIAGNOSTIC_BYTES, MAX_DIAGNOSTIC_LINES};
use crate::search::{contains, count, find, find_chars, has, lemma_find, lemma_successive_front,
    successive};
use crate::text::{blank, chars_of, is_blank, lines, split_lines, strs, trim, trim_end, trimmed,
    trimmed_end};
use crate::view::{excerpt, excerpt_text, strip_read_gutter, stripped_gutter};
use crate::words::{bytes_in, dec, decimal_size, join, joined, joined_range, plural, plural_suffix,
    split_whitespace, tokens, word_tokens, words};
use vstd::prelude::*;

verus! {

broadcast use vstd::string::group_string_axioms;

/// Most candidate windows that are scored for one edit.
pub const MAX_CANDIDATES: usize = 200;

/// One half, as the bits of a single-precision number: the least similarity shown.
pub const NEAREST_MIN_RATIO_BITS: u32 = 0x3f00_0000;

// ---------------------------------------------------------------------------
// The diff
// ---------------------------------------------------------------------------

/// The similarity that a line diff of `old` and `new` has, in the bits of the
/// single-precision number; numbers that are not negative are ordered as their bits.
pub uninterp spec fn diff_ratio_bits(old: Seq<char>, new: Seq<char>) -> u32;

/// `similar::TextDiff::from_lines(old, new).ratio()`, a function of the two texts
/// in `0..=1`. How the diff is found is left unsaid.
#[verifier::external_body]
fn line_ratio(old: &str, new: &str) -> (r: u32)
    ensures
        r == diff_ratio_bits(old@, new@),
{
    similar::TextDiff::from_lines(old, new).ratio().to_bits()
}

/// The unified diff of `old` and `new`, by lines, with `radius` lines of context and
/// the two names in its header.
pub uninterp spec fn unified_diff(
    old: Seq<char>,
    new: Seq<char>,
    radius: nat,
    old_name: Seq<char>,
    new_name: Seq<char>,
) -> Seq<char>;

/// `similar`'s unified diff of two texts as a string, a function of its arguments.
/// The radius is doubled on the way, which has to fit. How the diff is found is left
/// unsaid.
#[verifier::external_body]
fn line_diff(old: &str, new: &str, radius: usize, old_name: &str, new_name: &str) -> (r: String)
    requires
        radius <= usize::MAX / 2,
    ensures
        r@ == unified_diff(old@, new@, radius as nat, old_name@, new_name@),
{
    similar::TextDiff::from_lines(old, new).unified_diff().context_radius(radius).header(
        old_name,
        new_name,
    ).to_string()
}

fn line_count(s: &str) -> (r: usize)
    ensures
        r == lines(s@).len(),
{
    let ls = split_lines(s);
    assert(strs(ls@).len() == ls@.len());
    ls.len()
}

// ---------------------------------------------------------------------------
// The same text with other white space
// ---------------------------------------------------------------------------

/// `s` with every run of white space made one space, and none at the ends.
pub open spec fn squeezed(s: Seq<char>) -> Seq<char> {
    join(words(s), " "@)
}

/// `s` with every run of white space made one space.
pub fn squeeze(s: &str) -> (r: String)
    ensures
        r@ == squeezed(s@),
{
    joined(&split_whitespace(s), " ")
}

/// `span` lines from `start` on, as many as there are, one below the other.
pub open spec fn lines_at(ls: Seq<Seq<char>>, start: int, span: int) -> Seq<char> {
    join(ls.subrange(start, if start + span < ls.len() { start + span } else { ls.len() as int }), "\n"@)
}

fn window_at(ls: &Vec<String>, start: usize, span: usize) -> (r: String)
    requires
        start <= ls@.len(),
    ensures
        r@ == lines_at(strs(ls@), start as int, span as int),
{
    assert(strs(ls@).len() == ls@.len());
    let end: usize = if span < ls.len() - start { start + span } else { ls.len() };
    joined_range(ls, start, end, "\n")
}

/// How many lines a window for `old` spans: those of `old`, at least one.
pub open spec fn span_of(old: Seq<char>) -> int {
    if lines(old).len() == 0 {
        1
    } else {
        lines(old).len() as int
    }
}

/// The first line at or after `from` where a window reads like `needle` once the
/// white space is squeezed.
pub open spec fn squeezed_at(
    ls: Seq<Seq<char>>,
    span: int,
    needle: Seq<char>,
    from: int,
) -> Option<int>
    decreases ls.len() - from,
{
    if from < 0 || from >= ls.len() {
        None
    } else if squeezed(lines_at(ls, from, span)) == needle {
        Some(from)
    } else {
        squeezed_at(ls, span, needle, from + 1)
    }
}

/// The line (counted from one) where `old` stands but for its white space.
pub open spec fn whitespace_line(text: Seq<char>, old: Seq<char>) -> Option<int> {
    if !analysable(text, old) || squeezed(old).len() == 0 {
        None
    } else {
        match squeezed_at(lines(text), span_of(old), squeezed(old), 0) {
            Some(i) => Some(i + 1),
            None => None,
        }
    }
}

/// The line where `old` stands but for its white space, if it does.
pub fn find_whitespace_insensitive(text: &str, old: &str) -> (r: Option<usize>)
    ensures
        match r {
            Some(n) => whitespace_line(text@, old@) == Some(n as int),
            None => whitespace_line(text@, old@) is None,
        },
{
    let old_lines = line_count(old);
    if bytes_in(text) > MAX_DIAGNOSTIC_BYTES || old_lines > MAX_DIAGNOSTIC_LINES {
        return None;
    }
    let needle = squeeze(old);
    if needle.as_str().is_empty() {
        return None;
    }
    let ls = split_lines(text);
    assert(strs(ls@).len() == ls@.len());
    let span: usize = if old_lines == 0 { 1 } else { old_lines };
    let mut start: usize = 0;
    while start < ls.len()
        invariant
            start <= ls@.len(),
            strs(ls@) == lines(text@),
            strs(ls@).len() == ls@.len(),
            squeezed_at(lines(text@), span as int, needle@, 0) == squeezed_at(
                lines(text@),
                span as int,
                needle@,
                start as int,
            ),
            analysable(text@, old@),
            span == span_of(old@),
            needle@ == squeezed(old@),
            needle@.len() > 0,
        decreases ls.len() - start,
    {
        if squeeze(&window_at(&ls, start, span)) == needle {
            return Some(start + 1);
        }
        start = start + 1;
    }
    None
}

// ---------------------------------------------------------------------------
// The nearest block
// ---------------------------------------------------------------------------

/// The first line that is not blank.
pub open spec fn first_solid(ls: Seq<Seq<char>>) -> Option<Seq<char>>
    decreases ls.len(),
{
    if ls.len() == 0 {
        None
    } else if !blank(ls[0]) {
        Some(ls[0])
    } else {
        first_solid(ls.drop_first())
    }
}

/// How many of the first `n` texts of `anchor` are among `theirs`.
pub open spec fn hits(anchor: Seq<Seq<char>>, theirs: Seq<Seq<char>>, n: int) -> int
    decreases n,
{
    if n <= 0 {
        0
    } else {
        hits(anchor, theirs, n - 1) + if theirs.contains(anchor[n - 1]) {
            1int
        } else {
            0
        }
    }
}

/// At least half of the tokens of the anchor stand in `line`.
pub open spec fn overlaps(anchor: Seq<Seq<char>>, line: Seq<char>) -> bool {
    2 * hits(anchor, word_tokens(line), anchor.len() as int) >= anchor.len()
}

/// The lines among the first `n` that overlap with the anchor, counted from zero.
pub open spec fn overlapping(ls: Seq<Seq<char>>, anchor: Seq<Seq<char>>, n: int) -> Seq<int>
    decreases n,
{
    if n <= 0 {
        seq![]
    } else if overlaps(anchor, ls[n - 1]) {
        overlapping(ls, anchor, n - 1).push(n - 1)
    } else {
        overlapping(ls, anchor, n - 1)
    }
}

/// The lines whose windows are scored: the first that overlap with the anchor.
pub open spec fn candidates(ls: Seq<Seq<char>>, anchor: Seq<Seq<char>>) -> Seq<int> {
    let all = overlapping(ls, anchor, ls.len() as int);
    if all.len() > MAX_CANDIDATES {
        all.take(MAX_CANDIDATES as int)
    } else {
        all
    }
}

/// `rs[i]` is the greatest of `rs`, and the first of its size.
pub open spec fn first_max(rs: Seq<u32>, i: int) -> bool {
    &&& 0 <= i < rs.len()
    &&& forall|k: int| 0 <= k < i ==> #[trigger] rs[k] < rs[i]
    &&& forall|k: int| i <= k < rs.len() ==> #[trigger] rs[k] <= rs[i]
}

/// The similarity of each candidate's window to `old`.
pub open spec fn ratios(
    ls: Seq<Seq<char>>,
    cands: Seq<int>,
    old: Seq<char>,
    span: int,
) -> Seq<u32> {
    Seq::new(cands.len(), |i: int| diff_ratio_bits(old, lines_at(ls, cands[i], span)))
}

/// The line (counted from one) of the candidate most similar to `old`, and the
/// diff against it, where it is similar enough to show.
pub open spec fn nearest(text: Seq<char>, old: Seq<char>) -> Option<(int, Seq<char>)> {
    let ls = lines(text);
    let anchor = first_solid(lines(old));
    if !analysable(text, old) || anchor is None || word_tokens(anchor->0).len() == 0 {
        None
    } else {
        let cands = candidates(ls, word_tokens(anchor->0));
        let rs = ratios(ls, cands, trim_end(old), span_of(old));
        let best = choose|i: int| first_max(rs, i);
        if cands.len() == 0 || rs[best] < NEAREST_MIN_RATIO_BITS {
            None
        } else {
            let line = cands[best] + 1;
            Some(
                (
                    line,
                    unified_diff(
                        trim_end(old),
                        lines_at(ls, line - 1, span_of(old)),
                        1,
                        "your `old`"@,
                        "the file at line "@ + dec(line as nat),
                    ),
                ),
            )
        }
    }
}

fn among(texts: &Vec<String>, t: &String) -> (r: bool)
    ensures
        r == strs(texts@).contains(t@),
{
    let mut i: usize = 0;
    while i < texts.len()
        invariant
            i <= texts@.len(),
            forall|k: int| 0 <= k < i ==> #[trigger] strs(texts@)[k] != t@,
        decreases texts.len() - i,
    {
        assert(strs(texts@)[i as int] == texts@[i as int]@);
        if texts[i] == *t {
            return true;
        }
        i = i + 1;
    }
    false
}

/// Whether at least half of the tokens of the anchor stand in `line`.
pub fn token_overlap(anchor: &Vec<String>, line: &str) -> (r: bool)
    ensures
        r == overlaps(strs(anchor@), line@),
{
    let theirs = tokens(line);
    let mut n: usize = 0;
    let mut i: usize = 0;
    while i < anchor.len()
        invariant
            n <= i <= anchor@.len(),
            strs(theirs@) == word_tokens(line@),
            n == hits(strs(anchor@), word_tokens(line@), i as int),
        decreases anchor.len() - i,
    {
        assert(strs(anchor@)[i as int] == anchor@[i as int]@);
        if among(&theirs, &anchor[i]) {
            n = n + 1;
        }
        i = i + 1;
    }
    n >= anchor.len() - n
}

proof fn lemma_overlapping_prefix(ls: Seq<Seq<char>>, anchor: Seq<Seq<char>>, n: int, m: int)
    requires
        0 <= n <= m,
    ensures
        overlapping(ls, anchor, n).len() <= overlapping(ls, anchor, m).len(),
        overlapping(ls, anchor, m).take(overlapping(ls, anchor, n).len() as int) == overlapping(
            ls,
            anchor,
            n,
        ),
    decreases m - n,
{
    if n < m {
        lemma_overlapping_prefix(ls, anchor, n, m - 1);
        let a = overlapping(ls, anchor, n);
        let b = overlapping(ls, anchor, m - 1);
        let c = overlapping(ls, anchor, m);
        assert(c.take(a.len() as int) =~= b.take(a.len() as int));
    } else {
        assert(overlapping(ls, anchor, n).take(overlapping(ls, anchor, n).len() as int)
            =~= overlapping(ls, anchor, n));
    }
}

/// The lines whose windows are scored.
pub fn candidate_lines(ls: &Vec<String>, anchor: &Vec<String>) -> (r: Vec<usize>)
    ensures
        r@.len() == candidates(strs(ls@), strs(anchor@)).len(),
        forall|i: int|
            0 <= i < r@.len() ==> {
                &&& #[trigger] r@[i] == candidates(strs(ls@), strs(anchor@))[i]
                &&& r@[i] < ls@.len()
            },
{
    let ghost g = strs(ls@);
    let ghost a = strs(anchor@);
    assert(g.len() == ls@.len());
    let mut out: Vec<usize> = Vec::new();
    let mut i: usize = 0;
    while i < ls.len() && out.len() < MAX_CANDIDATES
        invariant
            i <= ls@.len() == g.len(),
            g == strs(ls@),
            a == strs(anchor@),
            out@.len() == overlapping(g, a, i as int).len(),
            out@.len() <= MAX_CANDIDATES,
            forall|k: int|
                0 <= k < out@.len() ==> {
                    &&& #[trigger] out@[k] == overlapping(g, a, i as int)[k]
                    &&& out@[k] < ls@.len()
                },
        decreases ls.len() - i,
    {
        assert(g[i as int] == ls@[i as int]@);
        if token_overlap(anchor, &ls[i]) {
            out.push(i);
        }
        i = i + 1;
    }
    proof {
        lemma_overlapping_prefix(g, a, i as int, g.len() as int);
        let now = overlapping(g, a, i as int);
        let all = overlapping(g, a, g.len() as int);
        if i < ls@.len() {
            if all.len() == now.len() {
                assert(all.take(now.len() as int) =~= all);
            }
            assert(candidates(g, a) =~= now);
        } else {
            assert(candidates(g, a) =~= now);
        }
    }
    out
}

/// The index of the first of the greatest ratios.
pub fn best_candidate(rs: &Vec<u32>) -> (r: Option<usize>)
    ensures
        match r {
            Some(i) => first_max(rs@, i as int),
            None => rs@.len() == 0,
        },
{
    if rs.len() == 0 {
        return None;
    }
    let mut best: usize = 0;
    let mut i: usize = 1;
    while i < rs.len()
        invariant
            best < i <= rs@.len(),
            forall|k: int| 0 <= k < best ==> #[trigger] rs@[k] < rs@[best as int],
            forall|k: int| best <= k < i ==> #[trigger] rs@[k] <= rs@[best as int],
        decreases rs.len() - i,
    {
        if rs[i] > rs[best] {
            best = i;
        }
        i = i + 1;
    }
    Some(best)
}

fn solid_line(ls: &Vec<String>) -> (r: Option<usize>)
    ensures
        match r {
            Some(i) => i < ls@.len() && first_solid(strs(ls@)) == Some(ls@[i as int]@),
            None => first_solid(strs(ls@)) is None,
        },
{
    let ghost g = strs(ls@);
    let mut i: usize = 0;
    assert(g.skip(0) =~= g);
    while i < ls.len()
        invariant
            i <= ls@.len() == g.len(),
            g == strs(ls@),
            first_solid(g) == first_solid(g.skip(i as int)),
        decreases ls.len() - i,
    {
        assert(g.skip(i as int)[0] == ls@[i as int]@);
        if !is_blank(&ls[i]) {
            return Some(i);
        }
        assert(g.skip(i as int).drop_first() =~= g.skip(i + 1));
        i = i + 1;
    }
    None
}

/// The most similar window in `text`, as its line and the diff of `old` against it.
pub fn nearest_block(text: &str, old: &str) -> (r: Option<(usize, String)>)
    ensures
        match r {
            Some(near) => nearest(text@, old@) == Some((near.0 as int, near.1@)),
            None => nearest(text@, old@) is None,
        },
{
    let old_lines = split_lines(old);
    assert(strs(old_lines@).len() == old_lines@.len());
    if bytes_in(text) > MAX_DIAGNOSTIC_BYTES || old_lines.len() > MAX_DIAGNOSTIC_LINES {
        return None;
    }
    let anchor_tokens = match solid_line(&old_lines) {
        Some(i) => tokens(&old_lines[i]),
        None => {
            return None;
        },
    };
    assert(strs(anchor_tokens@).len() == anchor_tokens@.len());
    if anchor_tokens.len() == 0 {
        return None;
    }
    let ls = split_lines(text);
    let span: usize = if old_lines.len() == 0 { 1 } else { old_lines.len() };
    let shown = trimmed_end(old);
    let cands = candidate_lines(&ls, &anchor_tokens);
    let ghost gs = candidates(lines(text@), strs(anchor_tokens@));
    let ghost all = ratios(lines(text@), gs, shown@, span as int);
    let mut rs: Vec<u32> = Vec::new();
    let mut i: usize = 0;
    while i < cands.len()
        invariant
            i <= cands@.len() == gs.len(),
            rs@.len() == i,
            strs(ls@) == lines(text@),
            all == ratios(lines(text@), gs, shown@, span as int),
            forall|k: int|
                0 <= k < cands@.len() ==> #[trigger] cands@[k] == gs[k] && cands@[k] < ls@.len(),
            forall|k: int| 0 <= k < i ==> #[trigger] rs@[k] == all[k],
        decreases cands.len() - i,
    {
        let w = window_at(&ls, cands[i], span);
        rs.push(line_ratio(&shown, &w));
        i = i + 1;
    }
    assert(rs@ =~= all);
    match best_candidate(&rs) {
        None => None,
        Some(best) => {
            proof {
                let b = choose|b: int| first_max(all, b);
                assert(first_max(all, best as int));
                assert(first_max(all, b));
                assert(b == best);
            }
            if rs[best] < NEAREST_MIN_RATIO_BITS {
                return None;
            }
            let at = cands[best];
            let w = window_at(&ls, at, span);
            let mut name = "the file at line ".to_owned();
            name.push_str(&decimal_size(at + 1));
            let diff = line_diff(&shown, &w, 1, "your `old`", &name);
            Some((at + 1, diff))
        },
    }
}

// ---------------------------------------------------------------------------
// Not found
// ---------------------------------------------------------------------------

/// A block between fences.
pub open spec fn fenced(body: Seq<char>) -> Seq<char> {
    "```\n"@ + body + "\n```"@
}

/// Wraps a block in a fence so that its leading white space survives.
pub fn fence(body: &str) -> (r: String)
    ensures
        r@ == fenced(body@),
{
    let mut out = "```\n".to_owned();
    out.push_str(body);
    out.push_str("\n```");
    out
}

/// What a message on a text that is not found starts with, given what was ruled out.
pub open spec fn not_found_head(path: Seq<char>, text: Seq<char>, old: Seq<char>) -> Seq<char> {
    let base = "`old` string not found in "@ + path;
    let one = if stripped_gutter(old) is Some {
        base
            + " (it also carries the line-number gutter from `read` output, \"NNN\\t\" — stripping that alone does not make it match)"@
    } else {
        base
    };
    let crlf_old = contains(bare(old), "\r\n"@);
    let crlf_file = contains(text, "\r\n"@);
    if crlf_file == crlf_old {
        one
    } else if crlf_old {
        one
            + " (its line endings are CRLF and the file's are LF — converting them alone does not make it match either)"@
    } else {
        one
            + " (its line endings are LF and the file's are CRLF — converting them alone does not make it match either)"@
    }
}

/// `old` without its gutter, if it carries one.
pub open spec fn bare(old: Seq<char>) -> Seq<char> {
    match stripped_gutter(old) {
        Some(s) => s,
        None => old,
    }
}

/// `s` with its line endings made `\n`.
pub open spec fn normal(s: Seq<char>) -> Seq<char> {
    if contains(s, "\r\n"@) {
        to_lf(s)
    } else {
        s
    }
}

/// The message where white space is all that keeps `needle` from matching `text`,
/// both with normal line endings.
pub open spec fn whitespace_reason(
    head: Seq<char>,
    text: Seq<char>,
    needle: Seq<char>,
) -> Option<Seq<char>> {
    match whitespace_line(text, needle) {
        Some(line) => Some(
            head
                + " — the same text is there but the whitespace differs (indentation, tabs vs spaces, or trailing space), starting at line "@
                + dec(line as nat) + ". Copy it exactly as `read` shows it:\n"@ + fenced(
                excerpt_text(text, line as nat, lines(needle).len()),
            ),
        ),
        None => if trim(needle).len() > 0 && trim(needle) != needle && contains(
            text,
            trim(needle),
        ) {
            Some(
                head
                    + " — it matches only without its leading/trailing whitespace. Drop the surrounding blank line(s) or trailing newline from `old`."@,
            )
        } else {
            None
        },
    }
}

/// The message where nothing structural explains the miss.
pub open spec fn closest_reason(head: Seq<char>, near: Option<(int, Seq<char>)>) -> Seq<char> {
    match near {
        Some((line, diff)) => head + ". The closest text is at line "@ + dec(line as nat)
            + "; here is how `old` (-) differs from the file (+):\n"@ + fenced(trim_end(diff))
            + "\nRead that range and copy the exact text."@,
        None => head
            + ", and nothing similar is nearby — check you have the right file. `read` it and copy the exact text."@,
    }
}

/// The whole message on an `old` that is not in `text`.
pub open spec fn not_found(path: Seq<char>, text: Seq<char>, old: Seq<char>) -> Seq<char> {
    let head = not_found_head(path, text, old);
    let needle = normal(bare(old));
    match whitespace_reason(head, normal(text), needle) {
        Some(msg) => msg,
        None => closest_reason(head, nearest(normal(text), needle)),
    }
}

/// The message where nothing structural explains the miss, given the nearest block.
pub fn closest_message(head: &str, near: &Option<(usize, String)>) -> (r: String)
    ensures
        r@ == closest_reason(
            head@,
            match *near {
                Some(n) => Some((n.0 as int, n.1@)),
                None => None,
            },
        ),
{
    let mut out = head.to_owned();
    match near {
        Some((line, diff)) => {
            out.push_str(". The closest text is at line ");
            out.push_str(&decimal_size(*line));
            out.push_str("; here is how `old` (-) differs from the file (+):\n");
            out.push_str(&fence(&trimmed_end(diff)));
            out.push_str("\nRead that range and copy the exact text.");
        },
        None => {
            out.push_str(
                ", and nothing similar is nearby — check you have the right file. `read` it and copy the exact text.",
            );
        },
    }
    out
}

/// The message where white space is all that keeps `needle` from matching.
pub fn whitespace_message(head: &str, text: &str, needle: &str) -> (r: Option<String>)
    ensures
        match r {
            Some(m) => whitespace_reason(head@, text@, needle@) == Some(m@),
            None => whitespace_reason(head@, text@, needle@) is None,
        },
{
    let mut out = head.to_owned();
    match find_whitespace_insensitive(text, needle) {
        Some(line) => {
            out.push_str(
                " — the same text is there but the whitespace differs (indentation, tabs vs spaces, or trailing space), starting at line ",
            );
            out.push_str(&decimal_size(line));
            out.push_str(". Copy it exactly as `read` shows it:\n");
            out.push_str(&fence(&excerpt(text, line, line_count(needle))));
            Some(out)
        },
        None => {
            let t = trimmed(needle);
            if !t.as_str().is_empty() && !crate::text::same(&t, needle) && has(text, &t) {
                out.push_str(
                    " — it matches only without its leading/trailing whitespace. Drop the surrounding blank line(s) or trailing newline from `old`.",
                );
                Some(out)
            } else {
                None
            }
        },
    }
}

/// Explains an `old` that is not in `text`, with the specific reason where one can
/// be identified.
pub fn not_found_diagnosis(path: &str, text: &str, old: &str) -> (r: String)
    ensures
        r@ == not_found(path@, text@, old@),
{
    let mut head = "`old` string not found in ".to_owned();
    head.push_str(path);
    let mut needle = old.to_owned();
    match strip_read_gutter(old) {
        Some(s) => {
            head.push_str(
                " (it also carries the line-number gutter from `read` output, \"NNN\\t\" — stripping that alone does not make it match)",
            );
            needle = s;
        },
        None => {},
    }
    let crlf_file = has(text, "\r\n");
    let crlf_old = has(&needle, "\r\n");
    if crlf_file != crlf_old {
        if crlf_old {
            head.push_str(
                " (its line endings are CRLF and the file's are LF — converting them alone does not make it match either)",
            );
        } else {
            head.push_str(
                " (its line endings are LF and the file's are CRLF — converting them alone does not make it match either)",
            );
        }
    }
    if crlf_old {
        needle = lf(&needle);
    }
    let plain = if crlf_file { lf(text) } else { text.to_owned() };
    match whitespace_message(&head, &plain, &needle) {
        Some(msg) => msg,
        None => closest_message(&head, &nearest_block(&plain, &needle)),
    }
}

// ---------------------------------------------------------------------------
// Found more than once
// ---------------------------------------------------------------------------

/// How many newlines stand in `s`.
pub open spec fn newlines(s: Seq<char>) -> int
    decreases s.len(),
{
    if s.len() == 0 {
        0
    } else {
        newlines(s.drop_last()) + if s.last() == '\n' {
            1int
        } else {
            0
        }
    }
}

/// The line (counted from one) on which index `i` of `text` stands.
pub open spec fn line_of(text: Seq<char>, i: int) -> int {
    newlines(text.take(i)) + 1
}

/// The lines on which the occurrences of `pat` in `text[from..]` start, none
/// overlapping the one before.
pub open spec fn occurrence_lines(text: Seq<char>, pat: Seq<char>, from: int) -> Seq<int>
    decreases text.len() - from,
{
    match find(text, pat, from) {
        Some(i) => {
            proof {
                lemma_find(text, pat, from);
            }
            if pat.len() == 0 {
                seq![]
            } else {
                seq![line_of(text, i)] + occurrence_lines(text, pat, i + pat.len())
            }
        },
        None => seq![],
    }
}

/// The numbers, in decimal.
pub open spec fn decimals(ns: Seq<int>) -> Seq<Seq<char>> {
    Seq::new(ns.len(), |i: int| dec(ns[i] as nat))
}

/// The message on an `old` that stands in `text` more than once.
pub open spec fn ambiguous(path: Seq<char>, text: Seq<char>, old: Seq<char>, count: nat) -> Seq<
    char,
> {
    let ls = occurrence_lines(text, old, 0);
    let shown = if ls.len() > 10 {
        ls.take(10)
    } else {
        ls
    };
    let msg = "`old` string is not unique in "@ + path + ": "@ + dec(count) + " matches, at line"@
        + plural_suffix(ls.len() as int) + " "@ + join(decimals(shown), ", "@);
    let more = if ls.len() > 10 {
        msg + " (and "@ + dec((ls.len() - 10) as nat) + " more)"@
    } else {
        msg
    };
    more
        + ". Either include enough surrounding context to single out the one you mean, or set replace_all=true to change all "@
        + dec(count) + "."@
}

/// The lines on which `needle` starts.
pub fn match_lines(text: &str, needle: &str) -> (r: Vec<usize>)
    requires
        needle@.len() > 0,
    ensures
        r@.len() == occurrence_lines(text@, needle@, 0).len(),
        forall|i: int|
            0 <= i < r@.len() ==> #[trigger] r@[i] == occurrence_lines(text@, needle@, 0)[i],
{
    let t = chars_of(text);
    let p = chars_of(needle);
    let ghost all = occurrence_lines(t@, p@, 0);
    let mut out: Vec<usize> = Vec::new();
    let mut from: usize = 0;
    let mut seen: usize = 0;
    let mut line: usize = 0;
    assert(t@.take(0) =~= seq![]);
    assert(all.skip(0) =~= all);
    loop
        invariant_except_break
            all.skip(out@.len() as int) == occurrence_lines(t@, p@, from as int),
        invariant
            0 < p@.len(),
            out@.len() <= all.len(),
            seen <= from <= t.len(),
            line <= seen,
            line == newlines(t@.take(seen as int)),
            all == occurrence_lines(t@, p@, 0),
            forall|k: int| 0 <= k < out@.len() ==> #[trigger] out@[k] == all[k],
        ensures
            out@.len() == all.len(),
        decreases t@.len() - from,
    {
        match find_chars(&t, &p, from) {
            Some(i) => {
                while seen < i
                    invariant
                        seen <= i < t.len(),
                        line <= seen,
                        line == newlines(t@.take(seen as int)),
                    decreases i - seen,
                {
                    assert(t@.take(seen + 1).drop_last() =~= t@.take(seen as int));
                    if t[seen] == '\n' {
                        line = line + 1;
                    }
                    seen = seen + 1;
                }
                proof {
                    let rest = all.skip(out@.len() as int);
                    assert(rest[0] == line + 1);
                    assert(rest.drop_first() =~= all.skip(out@.len() as int + 1));
                    assert(rest.drop_first() =~= occurrence_lines(t@, p@, i + p@.len()));
                }
                out.push(line + 1);
                from = i + p.len();
            },
            None => {
                assert(all.skip(out@.len() as int).len() == 0);
                break;
            },
        }
    }
    out
}

/// Explains an `old` that is not unique, naming where the matches are.
pub fn ambiguous_diagnosis(path: &str, text: &str, old: &str, count: usize) -> (r: String)
    requires
        old@.len() > 0,
    ensures
        r@ == ambiguous(path@, text@, old@, count as nat),
{
    let ls = match_lines(text, old);
    let ghost all = occurrence_lines(text@, old@, 0);
    let n: usize = if ls.len() > 10 { 10 } else { ls.len() };
    let ghost few = if all.len() > 10 { all.take(10) } else { all };
    let mut shown: Vec<String> = Vec::new();
    let mut i: usize = 0;
    while i < n
        invariant
            i <= n == few.len(),
            n <= ls@.len(),
            shown@.len() == i,
            forall|k: int| 0 <= k < n ==> ls@[k] == #[trigger] few[k],
            forall|k: int| 0 <= k < i ==> (#[trigger] shown@[k])@ == dec(few[k] as nat),
        decreases n - i,
    {
        assert(ls@[i as int] == few[i as int]);
        shown.push(decimal_size(ls[i]));
        i = i + 1;
    }
    assert(strs(shown@) =~= decimals(few));
    let mut out = "`old` string is not unique in ".to_owned();
    out.push_str(path);
    out.push_str(": ");
    out.push_str(&decimal_size(count));
    out.push_str(" matches, at line");
    out.push_str(plural(ls.len()));
    out.push_str(" ");
    out.push_str(&joined(&shown, ", "));
    if ls.len() > n {
        out.push_str(" (and ");
        out.push_str(&decimal_size(ls.len() - n));
        out.push_str(" more)");
    }
    out.push_str(
        ". Either include enough surrounding context to single out the one you mean, or set replace_all=true to change all ",
    );
    out.push_str(&decimal_size(count));
    out.push_str(".");
    out
}

// ---------------------------------------------------------------------------
// Laws
// ---------------------------------------------------------------------------

/// The line of a place is one more than the newlines in front of it.
pub proof fn lines_are_counted_by_newlines(text: Seq<char>, n: int) -> (js: Seq<int>)
    requires
        0 <= n <= text.len(),
    ensures
        ascending(js, n),
        forall|i: int| 0 <= i < n ==> (#[trigger] js.contains(i) <==> text[i] == '\n'),
        line_of(text, n) == 1 + js.len(),
    decreases n,
{
    if n == 0 {
        let js: Seq<int> = seq![];
        assert(text.take(0) =~= seq![]);
        js
    } else {
        let before = lines_are_counted_by_newlines(text, n - 1);
        lemma_one_more(before, n - 1);
        assert(text.take(n).drop_last() =~= text.take(n - 1));
        if text[n - 1] == '\n' {
            before.push(n - 1)
        } else {
            before
        }
    }
}

/// An ambiguous edit is told the line of every place at which its text is met, in order.
pub proof fn every_occurrence_is_told(text: Seq<char>, pat: Seq<char>, from: int) -> (ps: Seq<int>)
    requires
        pat.len() > 0,
        0 <= from <= text.len(),
    ensures
        successive(text, pat, from, ps),
        occurrence_lines(text, pat, from) == Seq::new(ps.len(), |k: int| line_of(text, ps[k])),
        count(text, pat, from) == occurrence_lines(text, pat, from).len(),
    decreases text.len() - from,
{
    lemma_find(text, pat, from);
    match find(text, pat, from) {
        None => {
            let ps: Seq<int> = seq![];
            assert(successive(text, pat, from, ps)) by {
                reveal(successive);
            }
            assert(occurrence_lines(text, pat, from) =~= Seq::new(
                ps.len(),
                |k: int| line_of(text, ps[k]),
            ));
            ps
        },
        Some(i) => {
            let rest = every_occurrence_is_told(text, pat, i + pat.len());
            let ps = seq![i] + rest;
            lemma_successive_front(text, pat, from, i, rest);
            assert(occurrence_lines(text, pat, from) =~= Seq::new(
                ps.len(),
                |k: int| line_of(text, ps[k]),
            ));
            ps
        },
    }
}

/// Two lines are alike where at least half of the words of the one are in the other.
pub proof fn half_of_the_words_decide(anchor: Seq<Seq<char>>, line: Seq<char>) -> (js: Seq<int>)
    ensures
        ascending(js, anchor.len() as int),
        forall|i: int|
            0 <= i < anchor.len() ==> (#[trigger] js.contains(i) <==> word_tokens(line).contains(
                anchor[i],
            )),
        overlaps(anchor, line) <==> 2 * js.len() >= anchor.len(),
{
    lemma_hits_picked(anchor, word_tokens(line), anchor.len() as int)
}

proof fn lemma_hits_picked(anchor: Seq<Seq<char>>, theirs: Seq<Seq<char>>, n: int) -> (js: Seq<int>)
    requires
        0 <= n <= anchor.len(),
    ensures
        ascending(js, n),
        forall|i: int|
            0 <= i < n ==> (#[trigger] js.contains(i) <==> theirs.contains(anchor[i])),
        hits(anchor, theirs, n) == js.len(),
    decreases n,
{
    if n == 0 {
        seq![]
    } else {
        let before = lemma_hits_picked(anchor, theirs, n - 1);
        lemma_one_more(before, n - 1);
        if theirs.contains(anchor[n - 1]) {
            before.push(n - 1)
        } else {
            before
        }
    }
}

/// The lines that are looked at more closely are the first that are alike, each once and
/// in order, as many as are looked at.
pub proof fn alike_lines_are_candidates(ls: Seq<Seq<char>>, anchor: Seq<Seq<char>>) -> (js: Seq<int>)
    ensures
        ascending(js, ls.len() as int),
        forall|i: int| 0 <= i < ls.len() ==> (#[trigger] js.contains(i) <==> overlaps(anchor, ls[i])),
        candidates(ls, anchor) == js.take(
            if js.len() > MAX_CANDIDATES {
                MAX_CANDIDATES as int
            } else {
                js.len() as int
            },
        ),
{
    let js = lemma_overlapping(ls, anchor, ls.len() as int);
    assert(js.take(js.len() as int) =~= js);
    js
}

proof fn lemma_overlapping(ls: Seq<Seq<char>>, anchor: Seq<Seq<char>>, n: int) -> (js: Seq<int>)
    requires
        0 <= n <= ls.len(),
    ensures
        ascending(js, n),
        forall|i: int| 0 <= i < n ==> (#[trigger] js.contains(i) <==> overlaps(anchor, ls[i])),
        overlapping(ls, anchor, n) == js,
    decreases n,
{
    if n == 0 {
        seq![]
    } else {
        let before = lemma_overlapping(ls, anchor, n - 1);
        lemma_one_more(before, n - 1);
        if overlaps(anchor, ls[n - 1]) {
            before.push(n - 1)
        } else {
            before
        }
    }
}

/// Where a text is there but for its white space, the first line is told from which on the
/// same words follow each other.
pub proof fn white_space_is_told_apart(text: Seq<char>, old: Seq<char>)
    requires
        analysable(text, old),
        squeezed(old).len() > 0,
    ensures
        match whitespace_line(text, old) {
            Some(line) => {
                &&& 1 <= line <= lines(text).len()
                &&& squeezed(lines_at(lines(text), line - 1, span_of(old))) == squeezed(old)
                &&& forall|k: int|
                    0 <= k < line - 1 ==> squeezed(#[trigger] lines_at(lines(text), k, span_of(old)))
                        != squeezed(old)
            },
            None => forall|k: int|
                0 <= k < lines(text).len() ==> squeezed(
                    #[trigger] lines_at(lines(text), k, span_of(old)),
                ) != squeezed(old),
        },
{
    lemma_squeezed_at(lines(text), span_of(old), squeezed(old), 0);
}

proof fn lemma_squeezed_at(ls: Seq<Seq<char>>, span: int, needle: Seq<char>, from: int)
    requires
        0 <= from,
    ensures
        match squeezed_at(ls, span, needle, from) {
            Some(i) => {
                &&& from <= i < ls.len()
                &&& squeezed(lines_at(ls, i, span)) == needle
                &&& forall|k: int|
                    from <= k < i ==> squeezed(#[trigger] lines_at(ls, k, span)) != needle
            },
            None => forall|k: int|
                from <= k < ls.len() ==> squeezed(#[trigger] lines_at(ls, k, span)) != needle,
        },
    decreases ls.len() - from,
{
    if from < ls.len() && squeezed(lines_at(ls, from, span)) != needle {
        lemma_squeezed_at(ls, span, needle, from + 1);
    }
}

} // verus!
