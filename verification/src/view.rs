//! How a file is shown: numbered lines behind a gutter, one window at a time,
//! and how the gutter is taken off again.

use crate::search::{at, find, lemma_find, split_once};
use crate::text::{blank, chars_of, chomp, is_blank, is_digit, is_ws, lemma_line_end,
    lemma_line_end_is, line_end, lines, pieces, split_inclusive, split_lines, string_of, strs,
    trim, trimmed};
use crate::words::{concat, dec, decimal_size, lemma_concat_split, pad_left, padded_left};
use vstd::prelude::*;
use vstd::utf8::{decode_utf8, encode_utf8, valid_utf8};

verus! {

broadcast use vstd::string::group_string_axioms;

/// Cap on the lines shown by a read that names no limit.
pub const DEFAULT_READ_LINES: usize = 2000;

/// Bytes of a file inspected for NUL before deciding it is binary.
pub const BINARY_SNIFF_BYTES: usize = 8192;

/// A result whose two sides are text, by what it holds.
pub open spec fn outcome(r: Result<String, String>) -> Result<Seq<char>, Seq<char>> {
    match r {
        Ok(s) => Ok(s@),
        Err(e) => Err(e@),
    }
}

/// Whether `bytes` looks binary: a NUL among the first bytes inspected.
pub open spec fn looks_binary(bytes: Seq<u8>) -> bool {
    exists|i: int| 0 <= i < bytes.len() && i < BINARY_SNIFF_BYTES && #[trigger] bytes[i] == 0u8
}

/// Whether `bytes` looks binary.
pub fn is_binary(bytes: &[u8]) -> (r: bool)
    ensures
        r == looks_binary(bytes@),
{
    let mut i: usize = 0;
    while i < bytes.len() && i < BINARY_SNIFF_BYTES
        invariant
            i <= bytes@.len(),
            forall|k: int| 0 <= k < i ==> #[trigger] bytes@[k] != 0u8,
        decreases bytes.len() - i,
    {
        if bytes[i] == 0u8 {
            assert(bytes@[i as int] == 0u8);
            return true;
        }
        i = i + 1;
    }
    false
}

/// `String::from_utf8`: the text that `bytes` encode, if they are valid UTF-8.
#[verifier::external_body]
pub(crate) fn decode(bytes: Vec<u8>) -> (r: Option<String>)
    ensures
        r is Some <==> valid_utf8(bytes@),
        r is Some ==> encode_utf8((r->0)@) == bytes@,
{
    String::from_utf8(bytes).ok()
}

// ---------------------------------------------------------------------------
// The gutter
// ---------------------------------------------------------------------------

/// One line as it is shown: its number in six columns, a tab, the line.
pub open spec fn gutter_line(n: nat, line: Seq<char>) -> Seq<char> {
    (pad_left(dec(n), 6).push('\t') + line).push('\n')
}

/// Lines `from..to` as they are shown, counted from zero.
pub open spec fn numbered(ls: Seq<Seq<char>>, from: int, to: int) -> Seq<char> {
    concat(shown_lines(ls, from, to))
}

/// The shown lines one by one.
pub open spec fn shown_lines(ls: Seq<Seq<char>>, from: int, to: int) -> Seq<Seq<char>> {
    Seq::new(
        (if from < to { to - from } else { 0 }) as nat,
        |k: int| gutter_line((from + k + 1) as nat, ls[from + k]),
    )
}

/// Lines `from..to` as they are shown.
pub fn number_lines(ls: &Vec<String>, from: usize, to: usize) -> (r: String)
    requires
        to <= ls@.len(),
    ensures
        r@ == numbered(strs(ls@), from as int, to as int),
{
    let mut out = String::new();
    let mut i: usize = from;
    assert(shown_lines(strs(ls@), from as int, from as int) =~= seq![]);
    if from >= to {
        assert(shown_lines(strs(ls@), from as int, to as int) =~= seq![]);
        return out;
    }
    while i < to
        invariant
            from <= i <= to <= ls.len(),
            out@ == numbered(strs(ls@), from as int, i as int),
        decreases to - i,
    {
        let ghost now = shown_lines(strs(ls@), from as int, i as int);
        let ghost next = shown_lines(strs(ls@), from as int, i + 1);
        let ghost before = out@;
        out.push_str(&padded_left(&decimal_size(i + 1), 6));
        out.push('\t');
        out.push_str(&ls[i]);
        out.push('\n');
        proof {
            assert(next.drop_last() =~= now);
            assert(next.last() == gutter_line((i + 1) as nat, ls@[i as int]@));
            assert(out@ =~= before + gutter_line((i + 1) as nat, ls@[i as int]@));
        }
        i = i + 1;
    }
    out
}

/// `count` lines of `text` starting at line `line` (counted from one), as they are
/// shown; at least one line where there is one.
pub open spec fn excerpt_text(text: Seq<char>, line: nat, count: nat) -> Seq<char> {
    let ls = lines(text);
    let from = if line == 0 { 0int } else { line - 1 };
    let want = if count == 0 { 1int } else { count as int };
    numbered(ls, from, if from + want < ls.len() { from + want } else { ls.len() as int })
}

/// `count` lines of `text` starting at line `line`, as they are shown.
pub fn excerpt(text: &str, line: usize, count: usize) -> (r: String)
    ensures
        r@ == excerpt_text(text@, line as nat, count as nat),
{
    let ls = split_lines(text);
    assert(strs(ls@).len() == ls@.len());
    let from: usize = if line == 0 { 0 } else { line - 1 };
    let want: usize = if count == 0 { 1 } else { count };
    let to: usize = if from < ls.len() && want < ls.len() - from { from + want } else { ls.len() };
    number_lines(&ls, from, to)
}

// ---------------------------------------------------------------------------
// Reading a window
// ---------------------------------------------------------------------------

/// What is shown of a file that holds `ls`, from line `start` (counted from one).
pub open spec fn window(ls: Seq<Seq<char>>, start: nat, limit: nat) -> Seq<char> {
    let total = ls.len() as int;
    let end = if start - 1 + limit < total { start - 1 + limit } else { total };
    let body = numbered(ls, start - 1, end);
    if total == 0 {
        body + "(empty file)\n"@
    } else if end < total {
        body + "… "@ + dec((total - end) as nat) + " more line(s); read with offset="@ + dec(
            (end + 1) as nat,
        ) + " to continue\n"@
    } else {
        body
    }
}

/// What a read of `path`, whose content is `bytes`, reports.
pub open spec fn read_report(
    path: Seq<char>,
    bytes: Seq<u8>,
    offset: Option<usize>,
    limit: Option<usize>,
) -> Result<Seq<char>, Seq<char>> {
    if looks_binary(bytes) {
        Err(
            path + " looks like a binary file ("@ + dec(bytes.len())
                + " bytes) — not shown as text. Use `shell` with a suitable tool if you need to inspect it."@,
        )
    } else if !valid_utf8(bytes) {
        Err(path + " is not valid UTF-8 text — not shown"@)
    } else {
        let start = match offset {
            Some(o) if o > 1 => o as nat,
            _ => 1,
        };
        let limit = match limit {
            Some(l) => l as nat,
            None => DEFAULT_READ_LINES as nat,
        };
        Ok(window(lines(decode_utf8(bytes)), start, limit))
    }
}

/// Shows a window of `path`, whose content is `bytes`: at most `limit` lines from
/// line `offset` on, with a note of what is left. A binary file, and one that is
/// not UTF-8, is named as such instead.
pub fn read(path: &str, bytes: Vec<u8>, offset: Option<usize>, limit: Option<usize>) -> (r: Result<
    String,
    String,
>)
    ensures
        outcome(r) == read_report(path@, bytes@, offset, limit),
{
    let ghost content = bytes@;
    if is_binary(&bytes) {
        let mut msg = path.to_owned();
        msg.push_str(" looks like a binary file (");
        msg.push_str(&decimal_size(bytes.len()));
        msg.push_str(
            " bytes) — not shown as text. Use `shell` with a suitable tool if you need to inspect it.",
        );
        return Err(msg);
    }
    match decode(bytes) {
        None => {
            let mut msg = path.to_owned();
            msg.push_str(" is not valid UTF-8 text — not shown");
            Err(msg)
        },
        Some(text) => {
            proof {
                vstd::utf8::encode_utf8_decode_utf8(text@);
            }
            let ls = split_lines(&text);
            assert(strs(ls@).len() == ls@.len());
            let total: usize = ls.len();
            let skip: usize = match offset {
                Some(o) => if o > 1 { o - 1 } else { 0 },
                None => 0,
            };
            let want: usize = match limit {
                Some(l) => l,
                None => DEFAULT_READ_LINES,
            };
            let end: usize = if skip < total && want < total - skip { skip + want } else { total };
            let mut out = number_lines(&ls, skip, end);
            if total == 0 {
                out.push_str("(empty file)\n");
            } else if end < total {
                out.push_str("… ");
                out.push_str(&decimal_size(total - end));
                out.push_str(" more line(s); read with offset=");
                out.push_str(&decimal_size(end + 1));
                out.push_str(" to continue\n");
            }
            Ok(out)
        },
    }
}

// ---------------------------------------------------------------------------
// Taking the gutter off
// ---------------------------------------------------------------------------

/// A piece without the newline it may end in.
pub open spec fn body_of(piece: Seq<char>) -> Seq<char> {
    if piece.len() > 0 && piece.last() == '\n' {
        piece.drop_last()
    } else {
        piece
    }
}

/// A line number: decimal digits, at least one, with white space around them.
pub open spec fn numeric(s: Seq<char>) -> bool {
    trim(s).len() > 0 && forall|i: int| 0 <= i < trim(s).len() ==> is_digit(#[trigger] trim(s)[i])
}

/// A piece without its gutter: what follows its first tab, where a line number
/// precedes that. A blank line is itself.
pub open spec fn ungutter(piece: Seq<char>) -> Option<Seq<char>> {
    let body = body_of(piece);
    if blank(body) {
        Some(piece)
    } else {
        match find(body, seq!['\t'], 0) {
            Some(i) => if numeric(body.take(i)) {
                Some(body.skip(i + 1) + piece.skip(body.len() as int))
            } else {
                None
            },
            None => None,
        }
    }
}

/// `old` without its gutter, where every line that is not blank carries one and
/// there is such a line.
pub open spec fn stripped_gutter(old: Seq<char>) -> Option<Seq<char>> {
    let ps = pieces(old);
    if (forall|i: int| 0 <= i < ps.len() ==> ungutter(#[trigger] ps[i]) is Some) && (exists|i: int|
        0 <= i < ps.len() && !blank(body_of(#[trigger] ps[i]))) {
        Some(concat(Seq::new(ps.len(), |i: int| ungutter(ps[i])->0)))
    } else {
        None
    }
}

fn is_numeric(s: &str) -> (r: bool)
    ensures
        r == numeric(s@),
{
    let t = trimmed(s);
    let cs = chars_of(&t);
    if cs.len() == 0 {
        return false;
    }
    let mut i: usize = 0;
    while i < cs.len()
        invariant
            i <= cs@.len(),
            cs@ == trim(s@),
            forall|k: int| 0 <= k < i ==> is_digit(#[trigger] trim(s@)[k]),
        decreases cs.len() - i,
    {
        if !(cs[i] >= '0' && cs[i] <= '9') {
            assert(!is_digit(trim(s@)[i as int]));
            return false;
        }
        i = i + 1;
    }
    true
}

fn ungutter_piece(piece: &str) -> (r: Option<(String, bool)>)
    ensures
        r is Some <==> ungutter(piece@) is Some,
        r is Some ==> (r->0).0@ == ungutter(piece@)->0,
        r is Some ==> (r->0).1 == !blank(body_of(piece@)),
{
    let cs = chars_of(piece);
    let n: usize = cs.len();
    let end: usize = if n > 0 && cs[n - 1] == '\n' { n - 1 } else { n };
    let body = string_of(&cs, 0, end);
    assert(body@ =~= body_of(piece@));
    if is_blank(&body) {
        return Some((piece.to_owned(), false));
    }
    proof {
        reveal_strlit("\t");
        assert("\t"@ =~= seq!['\t']);
    }
    match split_once(&body, "\t") {
        Some((num, rest)) => {
            if is_numeric(&num) {
                let mut out = rest;
                let tail = string_of(&cs, end, n);
                assert(tail@ =~= piece@.skip(end as int));
                out.push_str(&tail);
                Some((out, true))
            } else {
                None
            }
        },
        None => None,
    }
}

/// Strips the gutter from every line of `old`, or gives `None` where the block
/// does not look guttered.
pub fn strip_read_gutter(old: &str) -> (r: Option<String>)
    ensures
        r is Some <==> stripped_gutter(old@) is Some,
        r is Some ==> (r->0)@ == stripped_gutter(old@)->0,
{
    let ps = split_inclusive(old);
    let ghost gs = pieces(old@);
    assert(strs(ps@).len() == ps@.len());
    let mut out = String::new();
    let mut any = false;
    let mut i: usize = 0;
    assert(Seq::new(0, |k: int| ungutter(gs[k])->0) =~= seq![]);
    while i < ps.len()
        invariant
            i <= ps@.len(),
            gs == pieces(old@),
            strs(ps@) == gs,
            gs.len() == ps@.len(),
            forall|k: int| 0 <= k < i ==> ungutter(#[trigger] gs[k]) is Some,
            any <==> exists|k: int| 0 <= k < i && !blank(body_of(#[trigger] gs[k])),
            out@ == concat(Seq::new(i as nat, |k: int| ungutter(gs[k])->0)),
        decreases ps.len() - i,
    {
        assert(strs(ps@)[i as int] == ps@[i as int]@);
        match ungutter_piece(&ps[i]) {
            Some((line, solid)) => {
                proof {
                    let next = Seq::new((i + 1) as nat, |k: int| ungutter(gs[k])->0);
                    assert(next.drop_last() =~= Seq::new(i as nat, |k: int| ungutter(gs[k])->0));
                    assert(next.last() == line@);
                    if solid {
                        assert(!blank(body_of(gs[i as int])));
                    }
                }
                out.push_str(&line);
                any = any || solid;
            },
            None => {
                assert(ungutter(gs[i as int]) is None);
                return None;
            },
        }
        i = i + 1;
    }
    if any {
        Some(out)
    } else {
        None
    }
}

// ---------------------------------------------------------------------------
// Laws
// ---------------------------------------------------------------------------

/// A whole line: one newline, at its end.
pub open spec fn whole_line(s: Seq<char>) -> bool {
    s.len() > 0 && s.last() == '\n' && forall|i: int| 0 <= i < s.len() - 1 ==> #[trigger] s[i] != '\n'
}

/// Whole lines joined fall apart into the same lines.
pub proof fn lemma_pieces_of_lines(ls: Seq<Seq<char>>)
    requires
        forall|i: int| 0 <= i < ls.len() ==> whole_line(#[trigger] ls[i]),
    ensures
        pieces(concat(ls)) == ls,
    decreases ls.len(),
{
    if ls.len() == 0 {
        assert(pieces(concat(ls)) =~= ls);
    } else {
        let rest = ls.drop_first();
        let all = concat(ls);
        lemma_concat_split(ls, 0);
        assert(ls.take(0) =~= seq![]);
        assert(ls.skip(1) =~= rest);
        assert(all =~= ls[0] + concat(rest));
        let n = ls[0].len() as int;
        assert(whole_line(ls[0]));
        assert forall|i: int| 0 <= i < n - 1 implies #[trigger] all[i] != '\n' by {
            assert(all[i] == ls[0][i]);
        }
        assert(all[n - 1] == ls[0][n - 1]);
        lemma_line_end_is(all, n);
        assert(all.take(n) =~= ls[0]);
        assert(all.skip(n) =~= concat(rest));
        assert forall|i: int| 0 <= i < rest.len() implies whole_line(#[trigger] rest[i]) by {
            assert(rest[i] == ls[i + 1]);
        }
        lemma_pieces_of_lines(rest);
        assert(pieces(all) =~= ls);
    }
}

/// A number in decimal is one digit or more.
pub proof fn lemma_dec_digits(n: nat)
    ensures
        dec(n).len() > 0,
        forall|i: int| 0 <= i < dec(n).len() ==> is_digit(#[trigger] dec(n)[i]),
    decreases n,
{
    if n >= 10 {
        lemma_dec_digits(n / 10);
    }
}

/// No line of a text holds a newline.
pub proof fn lemma_lines_have_no_newline(s: Seq<char>, i: int, k: int)
    requires
        0 <= i < lines(s).len(),
        0 <= k < lines(s)[i].len(),
    ensures
        lines(s)[i][k] != '\n',
    decreases s.len(),
{
    let n = line_end(s);
    lemma_line_end(s);
    if i == 0 {
        let first = s.take(n);
        assert(pieces(s)[0] == first);
        assert(lines(s)[0] == chomp(first));
        if k == n - 1 {
            assert(chomp(first)[k] == first[k]);
        } else {
            assert(first[k] == s[k]);
        }
    } else {
        let rest = s.skip(n);
        assert(pieces(s)[i] == pieces(rest)[i - 1]);
        assert(lines(s)[i] == lines(rest)[i - 1]);
        lemma_lines_have_no_newline(rest, i - 1, k);
    }
}

proof fn lemma_trim_padded(d: Seq<char>, n: nat)
    requires
        d.len() > 0,
        !is_ws(d[0]),
        !is_ws(d.last()),
    ensures
        trim(Seq::new(n, |i: int| ' ') + d) == d,
    decreases n,
{
    let s = Seq::new(n, |i: int| ' ') + d;
    if n == 0 {
        assert(s =~= d);
    } else {
        assert(s.drop_first() =~= Seq::new((n - 1) as nat, |i: int| ' ') + d);
        assert(s[0] == ' ');
        lemma_trim_padded(d, (n - 1) as nat);
    }
}

proof fn lemma_ungutter_line(n: nat, line: Seq<char>)
    requires
        forall|k: int| 0 <= k < line.len() ==> #[trigger] line[k] != '\n',
    ensures
        whole_line(gutter_line(n, line)),
        !blank(body_of(gutter_line(n, line))),
        ungutter(gutter_line(n, line)) == Some(line.push('\n')),
{
    let d = dec(n);
    let num = pad_left(d, 6);
    let g = gutter_line(n, line);
    let body = num.push('\t') + line;
    let p = num.len() - d.len();
    lemma_dec_digits(n);
    assert(g =~= body.push('\n'));
    assert(body_of(g) =~= body);
    assert forall|i: int| 0 <= i < num.len() implies #[trigger] num[i] == ' ' || is_digit(
        num[i],
    ) by {
        if i >= p {
            assert(num[i] == d[i - p]);
        }
    }
    assert forall|i: int| 0 <= i < g.len() - 1 implies #[trigger] g[i] != '\n' by {
        if i < num.len() {
            assert(g[i] == num[i]);
        } else if i > num.len() {
            assert(g[i] == line[i - num.len() - 1]);
        }
    }
    assert(body[p as int] == d[0]);
    assert(is_digit(d[0]));
    assert(!is_ws(body[p as int]));
    lemma_find(body, seq!['\t'], 0);
    assert(body.subrange(num.len() as int, num.len() as int + 1) =~= seq!['\t']);
    assert(at(body, seq!['\t'], num.len() as int));
    let i = find(body, seq!['\t'], 0)->0;
    if i < num.len() {
        assert(body.subrange(i, i + 1)[0] == body[i]);
        assert(body[i] == num[i]);
    }
    assert(i == num.len());
    assert(body.take(i) =~= num);
    assert(is_digit(d.last()));
    lemma_trim_padded(d, p as nat);
    assert(num =~= Seq::new(p as nat, |i: int| ' ') + d);
    assert(body.skip(i + 1) =~= line);
    assert(g.skip(body.len() as int) =~= seq!['\n']);
    assert(line + seq!['\n'] =~= line.push('\n'));
}

/// Lines copied out of a read with their gutter, and stripped of it, are the lines
/// of the file.
pub proof fn stripping_undoes_reading(text: Seq<char>, from: int, to: int)
    requires
        0 <= from < to <= lines(text).len(),
    ensures
        stripped_gutter(numbered(lines(text), from, to)) == Some(
            concat(Seq::new((to - from) as nat, |k: int| lines(text)[from + k].push('\n'))),
        ),
{
    let ls = lines(text);
    let sh = shown_lines(ls, from, to);
    assert forall|i: int| 0 <= i < sh.len() implies {
        &&& whole_line(#[trigger] sh[i])
        &&& !blank(body_of(sh[i]))
        &&& ungutter(sh[i]) == Some(ls[from + i].push('\n'))
    } by {
        assert forall|k: int| 0 <= k < ls[from + i].len() implies #[trigger] ls[from + i][k]
            != '\n' by {
            lemma_lines_have_no_newline(text, from + i, k);
        }
        lemma_ungutter_line((from + i + 1) as nat, ls[from + i]);
    }
    lemma_pieces_of_lines(sh);
    assert(!blank(body_of(sh[0])));
    assert(Seq::new(sh.len(), |i: int| ungutter(sh[i])->0) =~= Seq::new(
        (to - from) as nat,
        |k: int| ls[from + k].push('\n'),
    ));
}

/// A read shows the lines that are asked for and no others, each with its number: from
/// the offset, or the first line where there is none, as many as the limit allows. What
/// is left of the file behind them is counted, and the note on it names the line to go on
/// from.
pub proof fn reads_show_the_lines(
    path: Seq<char>,
    bytes: Seq<u8>,
    offset: Option<usize>,
    limit: Option<usize>,
) -> (n: nat)
    requires
        valid_utf8(bytes),
        !looks_binary(bytes),
    ensures
        ({
            let ls = lines(decode_utf8(bytes));
            let first = match offset {
                Some(o) => if o < 1 { 1int } else { o as int },
                None => 1,
            };
            let most = match limit {
                Some(l) => l as int,
                None => DEFAULT_READ_LINES as int,
            };
            let left = ls.len() - (first - 1 + n);
            &&& n <= most
            &&& first - 1 + n <= ls.len() || n == 0
            &&& n < most ==> first - 1 + n >= ls.len()
            &&& read_report(path, bytes, offset, limit) == Ok::<Seq<char>, Seq<char>>(
                concat(
                    Seq::new(
                        n,
                        |k: int|
                            (pad_left(dec((first + k) as nat), 6) + seq!['\t'] + ls[first - 1 + k]
                                + seq!['\n']),
                    ),
                ) + (if ls.len() == 0 {
                    "(empty file)\n"@
                } else if left > 0 {
                    "… "@ + dec(left as nat) + " more line(s); read with offset="@ + dec(
                        (first + n) as nat,
                    ) + " to continue\n"@
                } else {
                    seq![]
                }),
            )
        }),
{
    let ls = lines(decode_utf8(bytes));
    let first = match offset {
        Some(o) => if o < 1 { 1int } else { o as int },
        None => 1,
    };
    let most = match limit {
        Some(l) => l as int,
        None => DEFAULT_READ_LINES as int,
    };
    let total = ls.len() as int;
    let end = if first - 1 + most < total { first - 1 + most } else { total };
    let n = (if first - 1 < end { end - (first - 1) } else { 0 }) as nat;
    let shown = Seq::new(
        n,
        |k: int|
            (pad_left(dec((first + k) as nat), 6) + seq!['\t'] + ls[first - 1 + k] + seq!['\n']),
    );
    assert forall|k: int| 0 <= k < n implies #[trigger] shown[k] == shown_lines(
        ls,
        first - 1,
        end,
    )[k] by {
        assert(shown[k] =~= gutter_line((first + k) as nat, ls[first - 1 + k]));
    }
    assert(shown =~= shown_lines(ls, first - 1, end));
    assert(concat(shown) + Seq::<char>::empty() =~= concat(shown));
    let body = concat(shown);
    if end < total {
        assert(body + "… "@ + dec((total - end) as nat) + " more line(s); read with offset="@ + dec(
            (end + 1) as nat,
        ) + " to continue\n"@ =~= body + ("… "@ + dec((total - end) as nat)
            + " more line(s); read with offset="@ + dec((end + 1) as nat) + " to continue\n"@));
    }
    n
}

/// What is not text is not shown: bytes with a zero among the first that are looked at,
/// and bytes that are not UTF-8.
pub proof fn only_text_is_read(
    path: Seq<char>,
    bytes: Seq<u8>,
    offset: Option<usize>,
    limit: Option<usize>,
)
    ensures
        read_report(path, bytes, offset, limit) is Err <==> !valid_utf8(bytes) || exists|i: int|
            0 <= i < bytes.len() && i < BINARY_SNIFF_BYTES && #[trigger] bytes[i] == 0u8,
{
}

/// A text loses its line numbers only where every line of it has one: a number, white space
/// around it or not, and a tab, or nothing but white space; a line in which no tab stands,
/// and which is not blank, keeps the text as it is.
pub proof fn only_numbered_text_is_stripped(old: Seq<char>, i: int)
    requires
        stripped_gutter(old) is Some,
        0 <= i < pieces(old).len(),
        !blank(body_of(pieces(old)[i])),
    ensures
        exists|k: int|
            {
                &&& 0 <= k < pieces(old)[i].len()
                &&& #[trigger] pieces(old)[i][k] == '\t'
                &&& trim(pieces(old)[i].take(k)).len() > 0
                &&& forall|j: int|
                    0 <= j < trim(pieces(old)[i].take(k)).len() ==> '0' <= #[trigger] trim(
                        pieces(old)[i].take(k),
                    )[j] <= '9'
            },
{
    let piece = pieces(old)[i];
    assert(ungutter(piece) is Some);
    let body = body_of(piece);
    let tab = seq!['\t'];
    lemma_find(body, tab, 0);
    let k = find(body, tab, 0)->0;
    assert(numeric(body.take(k)));
    assert(body.subrange(k, k + 1) == tab);
    assert(body.subrange(k, k + 1)[0] == body[k]);
    assert(piece[k] == body[k]);
    assert(piece.take(k) =~= body.take(k));
    assert forall|j: int| 0 <= j < trim(piece.take(k)).len() implies '0' <= #[trigger] trim(
        piece.take(k),
    )[j] <= '9' by {
        assert(is_digit(trim(body.take(k))[j]));
    }
}

/// An excerpt shows lines as a read does: from the line that is asked for, or the first,
/// as many as are asked for, and at least one where there is one.
pub proof fn excerpts_show_the_lines(text: Seq<char>, line: nat, count: nat)
    ensures
        ({
            let ls = lines(text);
            let first = if line == 0 { 1int } else { line as int };
            let want = if count == 0 { 1int } else { count as int };
            let n = if first - 1 >= ls.len() {
                0int
            } else if first - 1 + want <= ls.len() {
                want
            } else {
                ls.len() - (first - 1)
            };
            excerpt_text(text, line, count) == concat(
                Seq::new(
                    n as nat,
                    |k: int|
                        (pad_left(dec((first + k) as nat), 6) + seq!['\t'] + ls[first - 1 + k]
                            + seq!['\n']),
                ),
            )
        }),
{
    let ls = lines(text);
    let first = if line == 0 { 1int } else { line as int };
    let want = if count == 0 { 1int } else { count as int };
    let end = if first - 1 + want < ls.len() { first - 1 + want } else { ls.len() as int };
    let n = if first - 1 >= ls.len() {
        0int
    } else if first - 1 + want <= ls.len() {
        want
    } else {
        ls.len() - (first - 1)
    };
    let shown = Seq::new(
        n as nat,
        |k: int|
            (pad_left(dec((first + k) as nat), 6) + seq!['\t'] + ls[first - 1 + k] + seq!['\n']),
    );
    assert forall|k: int| 0 <= k < n implies #[trigger] shown[k] == shown_lines(
        ls,
        first - 1,
        end,
    )[k] by {
        assert(shown[k] =~= gutter_line((first + k) as nat, ls[first - 1 + k]));
    }
    assert(shown =~= shown_lines(ls, first - 1, end));
}

} // verus!
