//! Recovering an edit that missed for a reason with exactly one correct reading:
//! a copied line-number gutter, the other line ending, or one uniform shift of the
//! indentation.

use crate::search::{at, contains, ends_with, has, has_suffix, left_over,
    lemma_places, lemma_replace_joins, lemma_successive, lemma_replace_not_empty, replace, replace_all,
    replacing_exchanges_the_joints, starts_with, strip_prefix, strip_suffix, successive};
use crate::text::{blank, chars_of, is_blank, is_ws, lemma_line_end, lemma_line_end_is, line_end,
    lines, pieces, split_inclusive, split_lines, strs};
use crate::view::{body_of, strip_read_gutter, stripped_gutter};
use crate::words::{byte_len, bytes_in, concat, dec, decimal_size, join, lemma_concat_add,
    lemma_concat_split, lemma_pieces_concat, plural, plural_suffix};
use vstd::prelude::*;

verus! {

broadcast use vstd::string::group_string_axioms;

/// Ceiling on the size of a file that gets near-miss analysis.
pub const MAX_DIAGNOSTIC_BYTES: usize = 2097152;

/// Ceiling on the lines of a block that gets near-miss analysis.
pub const MAX_DIAGNOSTIC_LINES: usize = 200;

/// One find/replace within a file.
#[derive(Debug)]
pub struct EditSpec {
    pub old: String,
    pub new: String,
    pub replace_all: bool,
}

/// A repaired edit: text that does occur in the file, the replacement adjusted the
/// same way, and what was changed.
#[derive(Debug)]
pub struct RepairedEdit {
    pub old: String,
    pub new: String,
    pub note: String,
}

/// A [`RepairedEdit`] by what it holds.
pub struct Repair {
    pub old: Seq<char>,
    pub new: Seq<char>,
    pub note: Seq<char>,
}

impl View for RepairedEdit {
    type V = Repair;

    open spec fn view(&self) -> Repair {
        Repair { old: self.old@, new: self.new@, note: self.note@ }
    }
}

/// How the indentation of a file differs from that of a block.
#[derive(Debug)]
pub enum Shift {
    /// The file is indented by this much more than the block.
    Deeper(String),
    /// The block is indented by this much more than the file.
    Shallower(String),
}

/// How one line of a file differs from one line of a block.
pub enum LineShift {
    Same,
    Deeper(Seq<char>),
    Shallower(Seq<char>),
}

impl View for Shift {
    type V = LineShift;

    open spec fn view(&self) -> LineShift {
        match self {
            Shift::Deeper(p) => LineShift::Deeper(p@),
            Shift::Shallower(p) => LineShift::Shallower(p@),
        }
    }
}

/// How the file's line `w` differs from the block's line `o`, where indentation is
/// all that differs. Two blank lines do not differ.
pub open spec fn line_shift(o: Seq<char>, w: Seq<char>) -> Option<LineShift> {
    if blank(o) && blank(w) {
        Some(LineShift::Same)
    } else if ends_with(w, o) {
        let p = w.take(w.len() - o.len());
        if !blank(p) {
            None
        } else if p.len() == 0 {
            Some(LineShift::Same)
        } else {
            Some(LineShift::Deeper(p))
        }
    } else if ends_with(o, w) && blank(o.take(o.len() - w.len())) {
        Some(LineShift::Shallower(o.take(o.len() - w.len())))
    } else {
        None
    }
}

/// A line is blank in both the block and the file.
pub open spec fn both_blank(o: Seq<char>, w: Seq<char>) -> bool {
    blank(o) && blank(w)
}

/// Every line of the block differs from the file's by `s`, but for those that are blank
/// in both, and one line does differ.
pub open spec fn shifted_by(old: Seq<Seq<char>>, window: Seq<Seq<char>>, s: LineShift) -> bool {
    &&& s != LineShift::Same
    &&& forall|i: int|
        0 <= i < old.len() && i < window.len() ==> {
            ||| both_blank(old[i], window[i])
            ||| #[trigger] line_shift(old[i], window[i]) == Some(s)
        }
    &&& exists|i: int|
        0 <= i < old.len() && i < window.len() && #[trigger] line_shift(old[i], window[i]) == Some(
            s,
        )
}

/// The one shift by which the block differs from the window, if there is one.
pub open spec fn uniform(old: Seq<Seq<char>>, window: Seq<Seq<char>>) -> Option<LineShift> {
    if exists|s: LineShift| shifted_by(old, window, s) {
        Some(choose|s: LineShift| shifted_by(old, window, s))
    } else {
        None
    }
}

proof fn lemma_uniform_is(old: Seq<Seq<char>>, window: Seq<Seq<char>>, s: LineShift)
    requires
        shifted_by(old, window, s),
    ensures
        uniform(old, window) == Some(s),
{
    let t = choose|t: LineShift| shifted_by(old, window, t);
    assert(shifted_by(old, window, t));
    let i = choose|i: int|
        0 <= i < old.len() && i < window.len() && #[trigger] line_shift(old[i], window[i]) == Some(
            s,
        );
    assert(line_shift(old[i], window[i]) == Some(t));
}

/// The shift of one line that is not blank in both, or `None` where the lines do not
/// differ or differ otherwise.
fn shift_line(o: &str, w: &str) -> (r: Option<Shift>)
    requires
        !both_blank(o@, w@),
    ensures
        match line_shift(o@, w@) {
            None => r is None,
            Some(LineShift::Same) => r is None,
            Some(s) => r is Some && (r->0)@ == s,
        },
{
    match strip_suffix(w, o) {
        Some(p) => {
            if is_blank(&p) && !p.as_str().is_empty() {
                Some(Shift::Deeper(p))
            } else {
                None
            }
        },
        None => match strip_suffix(o, w) {
            Some(p) => {
                if is_blank(&p) {
                    Some(Shift::Shallower(p))
                } else {
                    None
                }
            },
            None => None,
        },
    }
}

fn same_shift(a: &Shift, b: &Shift) -> (r: bool)
    ensures
        r == (a@ == b@),
{
    match (a, b) {
        (Shift::Deeper(x), Shift::Deeper(y)) => *x == *y,
        (Shift::Shallower(x), Shift::Shallower(y)) => *x == *y,
        _ => false,
    }
}

/// The single prefix by which the window of `file` at `start` and `old` differ, or
/// `None` where the difference is not one uniform shift.
pub fn uniform_shift(old: &Vec<String>, file: &Vec<String>, start: usize) -> (r: Option<Shift>)
    requires
        start + old@.len() <= file@.len(),
    ensures
        match r {
            Some(s) => uniform(
                strs(old@),
                strs(file@).subrange(start as int, start + old@.len()),
            ) == Some(s@),
            None => uniform(strs(old@), strs(file@).subrange(start as int, start + old@.len()))
                is None,
        },
{
    let ghost o = strs(old@);
    let ghost w = strs(file@).subrange(start as int, start + old@.len());
    let mut shift: Option<Shift> = None;
    let mut i: usize = 0;
    while i < old.len()
        invariant
            i <= old.len(),
            start + old.len() <= file.len(),
            o == strs(old@),
            w == strs(file@).subrange(start as int, start + old@.len()),
            o.len() == w.len() == old@.len(),
            match shift {
                None => forall|k: int|
                    #![trigger line_shift(o[k], w[k])]
                    #![trigger both_blank(o[k], w[k])]
                    0 <= k < i ==> both_blank(o[k], w[k]),
                Some(s) => {
                    &&& s@ != LineShift::Same
                    &&& forall|k: int|
                        0 <= k < i ==> (both_blank(o[k], w[k]) || #[trigger] line_shift(o[k], w[k])
                            == Some(s@))
                    &&& exists|k: int|
                        0 <= k < i && #[trigger] line_shift(o[k], w[k]) == Some(s@)
                },
            },
        decreases old.len() - i,
    {
        assert(o[i as int] == old@[i as int]@);
        assert(w[i as int] == file@[start + i]@);
        if is_blank(&old[i]) && is_blank(&file[start + i]) {
            assert(both_blank(o[i as int], w[i as int]));
            i = i + 1;
            continue;
        }
        match shift_line(&old[i], &file[start + i]) {
            None => {
                proof {
                    assert(forall|s: LineShift| !shifted_by(o, w, s)) by {
                        assert(line_shift(o[i as int], w[i as int]) is None
                            || line_shift(o[i as int], w[i as int]) == Some(LineShift::Same));
                    }
                }
                return None;
            },
            Some(candidate) => {
                assert(line_shift(o[i as int], w[i as int]) == Some(candidate@));
                let differs = match &shift {
                    None => false,
                    Some(existing) => !same_shift(existing, &candidate),
                };
                if differs {
                    proof {
                        let s0 = shift->0@;
                        let k = choose|k: int|
                            0 <= k < i && #[trigger] line_shift(o[k], w[k]) == Some(s0);
                        assert forall|s: LineShift| !shifted_by(o, w, s) by {
                            if shifted_by(o, w, s) {
                                assert(line_shift(o[k], w[k]) == Some(s));
                                assert(line_shift(o[i as int], w[i as int]) == Some(s));
                            }
                        }
                    }
                    return None;
                }
                shift = Some(candidate);
            },
        }
        i = i + 1;
    }
    proof {
        if shift is Some {
            assert(shifted_by(o, w, shift->0@));
            lemma_uniform_is(o, w, shift->0@);
        } else {
            assert(forall|s: LineShift| !shifted_by(o, w, s));
        }
    }
    shift
}

// ---------------------------------------------------------------------------
// Blocks of lines
// ---------------------------------------------------------------------------

/// Lines `start..start + span` of `text` exactly as they stand there, the last
/// newline kept only on demand.
pub open spec fn block(text: Seq<char>, start: int, span: int, newline: bool) -> Seq<char> {
    let whole = concat(pieces(text).subrange(start, start + span));
    if newline {
        whole
    } else {
        body_of(whole)
    }
}

/// The text of lines `start..start + span`, where there are such lines
/// and all of them are there.
pub fn line_block(text: &str, start: usize, span: usize, newline: bool) -> (r: Option<String>)
    requires
        0 < start + span <= usize::MAX,
    ensures
        r is Some <==> span > 0 && start + span <= pieces(text@).len(),
        r matches Some(t) ==> t@ == block(text@, start as int, span as int, newline),
{
    let ps = split_inclusive(text);
    assert(strs(ps@).len() == ps@.len());
    if span == 0 || start + span > ps.len() {
        return None;
    }
    let mut out = String::new();
    let mut i: usize = start;
    assert(pieces(text@).subrange(start as int, start as int) =~= seq![]);
    while i < start + span
        invariant
            start <= i <= start + span <= ps.len(),
            strs(ps@) == pieces(text@),
            out@ == concat(pieces(text@).subrange(start as int, i as int)),
        decreases start + span - i,
    {
        assert(strs(ps@)[i as int] == ps@[i as int]@);
        proof {
            let next = pieces(text@).subrange(start as int, i + 1);
            assert(next.drop_last() =~= pieces(text@).subrange(start as int, i as int));
        }
        out.push_str(&ps[i]);
        i = i + 1;
    }
    if !newline {
        let cs = chars_of(&out);
        if cs.len() > 0 && cs[cs.len() - 1] == '\n' {
            let r = crate::text::string_of(&cs, 0, cs.len() - 1);
            assert(r@ =~= out@.drop_last());
            return Some(r);
        }
    }
    Some(out)
}

/// A piece with `prefix` in front, unless it is blank.
pub open spec fn indent_piece(piece: Seq<char>, prefix: Seq<char>) -> Seq<char> {
    if blank(piece) {
        piece
    } else {
        prefix + piece
    }
}

/// A piece without `prefix`, where it begins with it.
pub open spec fn dedent_piece(piece: Seq<char>, prefix: Seq<char>) -> Seq<char> {
    if starts_with(piece, prefix) {
        piece.skip(prefix.len() as int)
    } else {
        piece
    }
}

/// `s` with `prefix` in front of every line that is not blank.
pub open spec fn indented(s: Seq<char>, prefix: Seq<char>) -> Seq<char> {
    concat(Seq::new(pieces(s).len(), |i: int| indent_piece(pieces(s)[i], prefix)))
}

/// `s` without `prefix` at the start of every line that has it.
pub open spec fn dedented(s: Seq<char>, prefix: Seq<char>) -> Seq<char> {
    concat(Seq::new(pieces(s).len(), |i: int| dedent_piece(pieces(s)[i], prefix)))
}

/// Prepends `prefix` to every line that is not blank.
pub fn indent_lines(s: &str, prefix: &str) -> (r: String)
    ensures
        r@ == indented(s@, prefix@),
{
    let ps = split_inclusive(s);
    let ghost gs = pieces(s@);
    assert(strs(ps@).len() == ps@.len());
    let mut out = String::new();
    let mut i: usize = 0;
    assert(Seq::new(0, |k: int| indent_piece(gs[k], prefix@)) =~= seq![]);
    while i < ps.len()
        invariant
            i <= ps@.len(),
            strs(ps@) == gs,
            gs.len() == ps@.len(),
            out@ == concat(Seq::new(i as nat, |k: int| indent_piece(gs[k], prefix@))),
        decreases ps.len() - i,
    {
        assert(strs(ps@)[i as int] == ps@[i as int]@);
        let ghost before = out@;
        proof {
            let next = Seq::new((i + 1) as nat, |k: int| indent_piece(gs[k], prefix@));
            assert(next.drop_last() =~= Seq::new(i as nat, |k: int| indent_piece(gs[k], prefix@)));
            assert(next.last() == indent_piece(gs[i as int], prefix@));
        }
        if !is_blank(&ps[i]) {
            out.push_str(prefix);
        }
        out.push_str(&ps[i]);
        assert(out@ =~= before + indent_piece(gs[i as int], prefix@));
        i = i + 1;
    }
    out
}

/// Removes `prefix` from every line that has it.
pub fn dedent_lines(s: &str, prefix: &str) -> (r: String)
    ensures
        r@ == dedented(s@, prefix@),
{
    let ps = split_inclusive(s);
    let ghost gs = pieces(s@);
    assert(strs(ps@).len() == ps@.len());
    let mut out = String::new();
    let mut i: usize = 0;
    assert(Seq::new(0, |k: int| dedent_piece(gs[k], prefix@)) =~= seq![]);
    while i < ps.len()
        invariant
            i <= ps@.len(),
            strs(ps@) == gs,
            gs.len() == ps@.len(),
            out@ == concat(Seq::new(i as nat, |k: int| dedent_piece(gs[k], prefix@))),
        decreases ps.len() - i,
    {
        assert(strs(ps@)[i as int] == ps@[i as int]@);
        proof {
            let next = Seq::new((i + 1) as nat, |k: int| dedent_piece(gs[k], prefix@));
            assert(next.drop_last() =~= Seq::new(i as nat, |k: int| dedent_piece(gs[k], prefix@)));
            assert(next.last() == dedent_piece(gs[i as int], prefix@));
        }
        match strip_prefix(&ps[i], prefix) {
            Some(rest) => out.push_str(&rest),
            None => out.push_str(&ps[i]),
        }
        i = i + 1;
    }
    out
}

/// An indentation in words.
pub open spec fn indent_words(prefix: Seq<char>) -> Seq<char> {
    let n = prefix.len();
    if forall|i: int| 0 <= i < n ==> #[trigger] prefix[i] == ' ' {
        dec(n) + " space"@ + plural_suffix(n as int)
    } else if forall|i: int| 0 <= i < n ==> #[trigger] prefix[i] == '\t' {
        dec(n) + " tab"@ + plural_suffix(n as int)
    } else {
        dec(n) + " whitespace character"@ + plural_suffix(n as int)
    }
}

fn all_chars(cs: &Vec<char>, c: char) -> (r: bool)
    ensures
        r == (forall|i: int| 0 <= i < cs@.len() ==> #[trigger] cs@[i] == c),
{
    let mut i: usize = 0;
    while i < cs.len()
        invariant
            i <= cs@.len(),
            forall|k: int| 0 <= k < i ==> #[trigger] cs@[k] == c,
        decreases cs.len() - i,
    {
        if cs[i] != c {
            assert(cs@[i as int] != c);
            return false;
        }
        i = i + 1;
    }
    true
}

/// "4 spaces", "1 tab" or "3 whitespace characters".
pub fn describe_indent(prefix: &str) -> (r: String)
    ensures
        r@ == indent_words(prefix@),
{
    let cs = chars_of(prefix);
    let n = cs.len();
    let mut out = decimal_size(n);
    if all_chars(&cs, ' ') {
        out.push_str(" space");
    } else if all_chars(&cs, '\t') {
        out.push_str(" tab");
    } else {
        out.push_str(" whitespace character");
    }
    out.push_str(plural(n));
    out
}

// ---------------------------------------------------------------------------
// The repairs
// ---------------------------------------------------------------------------

/// The window of `text` at line `start` differs from `old` by one uniform shift.
pub open spec fn fits(text: Seq<char>, old: Seq<char>, start: int) -> bool {
    let n = lines(old).len();
    &&& 0 <= start <= lines(text).len() - n
    &&& uniform(lines(old), lines(text).subrange(start, start + n)) is Some
}

/// Whether `text` and `old` are small enough for near-miss analysis.
pub open spec fn analysable(text: Seq<char>, old: Seq<char>) -> bool {
    byte_len(text) <= MAX_DIAGNOSTIC_BYTES && lines(old).len() <= MAX_DIAGNOSTIC_LINES
}

/// The edit moved to the window of `text` at line `start`.
pub open spec fn shifted_edit(
    text: Seq<char>,
    old: Seq<char>,
    new: Seq<char>,
    start: int,
) -> Repair {
    let n = lines(old).len() as int;
    let found = block(text, start, n, ends_with(old, seq!['\n']));
    match uniform(lines(old), lines(text).subrange(start, start + n)) {
        Some(LineShift::Shallower(p)) => Repair {
            old: found,
            new: dedented(new, p),
            note: "`old` was indented "@ + indent_words(p) + " more than the file at line "@ + dec(
                (start + 1) as nat,
            ) + "; matched that block and outdented the replacement to match."@,
        },
        Some(LineShift::Deeper(p)) => Repair {
            old: found,
            new: indented(new, p),
            note: "`old` was indented "@ + indent_words(p) + " less than the file at line "@ + dec(
                (start + 1) as nat,
            ) + "; matched that block and indented the replacement to match."@,
        },
        _ => arbitrary(),
    }
}

/// The repair of a block that differs from the file by one uniform shift in
/// exactly one place.
pub open spec fn reindent(text: Seq<char>, old: Seq<char>, new: Seq<char>) -> Option<Repair> {
    if analysable(text, old) && !contains(text, "\r\n"@) && !contains(old, "\r"@) && lines(old).len()
        > 0 && exists|start: int| only_fit(text, old, start) {
        Some(shifted_edit(text, old, new, choose|start: int| only_fit(text, old, start)))
    } else {
        None
    }
}

/// The window at `start` fits, and no other does.
pub open spec fn only_fit(text: Seq<char>, old: Seq<char>, start: int) -> bool {
    fits(text, old, start) && forall|t: int| #[trigger] fits(text, old, t) ==> t == start
}

/// [`reindent`] on strings.
pub fn reindent_repair(text: &str, old: &str, new: &str) -> (r: Option<RepairedEdit>)
    ensures
        match r {
            Some(fix) => reindent(text@, old@, new@) == Some(fix@),
            None => reindent(text@, old@, new@) is None,
        },
{
    let old_lines = split_lines(old);
    assert(strs(old_lines@).len() == old_lines@.len());
    if bytes_in(text) > MAX_DIAGNOSTIC_BYTES || old_lines.len() > MAX_DIAGNOSTIC_LINES {
        return None;
    }
    if has(text, "\r\n") || has(old, "\r") {
        return None;
    }
    if old_lines.len() == 0 {
        return None;
    }
    let ls = split_lines(text);
    assert(strs(ls@).len() == ls@.len());
    if old_lines.len() > ls.len() {
        assert(forall|t: int| !fits(text@, old@, t));
        return None;
    }
    let last: usize = ls.len() - old_lines.len();
    let mut found: Option<(usize, Shift)> = None;
    let mut start: usize = 0;
    while start <= last
        invariant
            start <= last + 1,
            last + old_lines.len() == ls.len(),
            strs(ls@) == lines(text@),
            strs(old_lines@) == lines(old@),
            strs(ls@).len() == ls@.len(),
            strs(old_lines@).len() == old_lines@.len(),
            old_lines@.len() > 0,
            match found {
                Some((at, s)) => {
                    &&& at < start
                    &&& fits(text@, old@, at as int)
                    &&& uniform(
                        lines(old@),
                        lines(text@).subrange(at as int, at + lines(old@).len()),
                    ) == Some(s@)
                    &&& forall|t: int| t < start && #[trigger] fits(text@, old@, t) ==> t == at
                },
                None => forall|t: int| t < start ==> !#[trigger] fits(text@, old@, t),
            },
        decreases last + 1 - start,
    {
        match uniform_shift(&old_lines, &ls, start) {
            Some(shift) => {
                assert(fits(text@, old@, start as int));
                if found.is_some() {
                    proof {
                        let at = (found->0).0 as int;
                        assert forall|s: int| !only_fit(text@, old@, s) by {
                            if only_fit(text@, old@, s) {
                                assert(fits(text@, old@, at) && fits(text@, old@, start as int));
                            }
                        }
                    }
                    return None;
                }
                found = Some((start, shift));
            },
            None => {
                assert(!fits(text@, old@, start as int));
            },
        }
        start = start + 1;
    }
    match found {
        None => {
            assert forall|t: int| !fits(text@, old@, t) by {}
            None
        },
        Some((at, shift)) => {
            proof {
                assert(only_fit(text@, old@, at as int));
                let s = choose|s: int| only_fit(text@, old@, s);
                assert(s == at);
                reveal_strlit("\n");
                assert("\n"@ =~= seq!['\n']);
            }
            let exact = line_block(text, at, old_lines.len(), has_suffix(old, "\n"))?;
            let mut note = "`old` was indented ".to_owned();
            match shift {
                Shift::Deeper(prefix) => {
                    note.push_str(&describe_indent(&prefix));
                    note.push_str(" less than the file at line ");
                    note.push_str(&decimal_size(at + 1));
                    note.push_str("; matched that block and indented the replacement to match.");
                    Some(RepairedEdit { old: exact, new: indent_lines(new, &prefix), note })
                },
                Shift::Shallower(prefix) => {
                    note.push_str(&describe_indent(&prefix));
                    note.push_str(" more than the file at line ");
                    note.push_str(&decimal_size(at + 1));
                    note.push_str("; matched that block and outdented the replacement to match.");
                    Some(RepairedEdit { old: exact, new: dedent_lines(new, &prefix), note })
                },
            }
        },
    }
}

/// `s` with every line ending made `\n`.
pub open spec fn to_lf(s: Seq<char>) -> Seq<char> {
    replace(s, "\r\n"@, "\n"@, 0)
}

/// `s` with every `\n` made `\r\n`.
pub open spec fn to_crlf(s: Seq<char>) -> Seq<char> {
    replace(s, "\n"@, "\r\n"@, 0)
}

/// The repair of an edit whose `old` is not in `text`: the first of the gutter, the
/// line endings and the indentation that makes it match.
pub open spec fn repair(text: Seq<char>, old: Seq<char>, new: Seq<char>) -> Option<Repair> {
    let bare = stripped_gutter(old);
    let crlf = contains(text, "\r\n"@);
    if bare is Some && !blank(bare->0) && contains(text, bare->0) {
        Some(
            match stripped_gutter(new) {
                Some(n) => Repair {
                    old: bare->0,
                    new: n,
                    note: "stripped the `read` line-number gutter (\"NNN\\t\") from `old` and `new` and applied the edit. Copy from `read` output without the gutter next time."@,
                },
                None => Repair {
                    old: bare->0,
                    new: new,
                    note: "stripped the `read` line-number gutter (\"NNN\\t\") from `old` and applied the edit. Copy from `read` output without the gutter next time."@,
                },
            },
        )
    } else if crlf && !contains(old, "\r\n"@) && contains(text, to_crlf(old)) {
        Some(
            Repair {
                old: to_crlf(old),
                new: to_crlf(to_lf(new)),
                note: "converted `old` and `new` from LF to the CRLF line endings this file uses, and applied the edit."@,
            },
        )
    } else if !crlf && contains(old, "\r\n"@) && contains(text, to_lf(old)) {
        Some(
            Repair {
                old: to_lf(old),
                new: to_lf(new),
                note: "converted `old` and `new` from CRLF to the LF line endings this file uses, and applied the edit."@,
            },
        )
    } else {
        reindent(text, old, new)
    }
}

/// `s` with every line ending made `\n`.
pub fn lf(s: &str) -> (r: String)
    ensures
        r@ == to_lf(s@),
{
    proof {
        reveal_strlit("\r\n");
    }
    replace_all(s, "\r\n", "\n")
}

fn crlf(s: &str) -> (r: String)
    ensures
        r@ == to_crlf(s@),
{
    proof {
        reveal_strlit("\n");
    }
    replace_all(s, "\n", "\r\n")
}

/// Recovers an edit whose `old` missed for a reason with exactly one correct
/// reading. `new` is always adjusted alongside `old`.
pub fn repair_edit(text: &str, spec: &EditSpec) -> (r: Option<RepairedEdit>)
    ensures
        match r {
            Some(fix) => repair(text@, spec.old@, spec.new@) == Some(fix@),
            None => repair(text@, spec.old@, spec.new@) is None,
        },
{
    match strip_read_gutter(&spec.old) {
        Some(bare) => {
            if !is_blank(&bare) && has(text, &bare) {
                return match strip_read_gutter(&spec.new) {
                    Some(n) => Some(
                        RepairedEdit {
                            old: bare,
                            new: n,
                            note: "stripped the `read` line-number gutter (\"NNN\\t\") from `old` and `new` and applied the edit. Copy from `read` output without the gutter next time.".to_owned(),
                        },
                    ),
                    None => Some(
                        RepairedEdit {
                            old: bare,
                            new: spec.new.clone(),
                            note: "stripped the `read` line-number gutter (\"NNN\\t\") from `old` and applied the edit. Copy from `read` output without the gutter next time.".to_owned(),
                        },
                    ),
                };
            }
        },
        None => {},
    }
    let crlf_file = has(text, "\r\n");
    let crlf_old = has(&spec.old, "\r\n");
    if crlf_file && !crlf_old {
        let old = crlf(&spec.old);
        if has(text, &old) {
            return Some(
                RepairedEdit {
                    old,
                    new: crlf(&lf(&spec.new)),
                    note: "converted `old` and `new` from LF to the CRLF line endings this file uses, and applied the edit.".to_owned(),
                },
            );
        }
    }
    if !crlf_file && crlf_old {
        let old = lf(&spec.old);
        if has(text, &old) {
            return Some(
                RepairedEdit {
                    old,
                    new: lf(&spec.new),
                    note: "converted `old` and `new` from CRLF to the LF line endings this file uses, and applied the edit.".to_owned(),
                },
            );
        }
    }
    reindent_repair(text, &spec.old, &spec.new)
}

// ---------------------------------------------------------------------------
// Laws
// ---------------------------------------------------------------------------

/// The text of some whole lines of a file stands in the file.
pub proof fn lemma_block_occurs(text: Seq<char>, start: int, span: int, newline: bool)
    requires
        0 <= start,
        0 <= span,
        start + span <= lines(text).len(),
    ensures
        contains(text, block(text, start, span, newline)),
{
    let ps = pieces(text);
    let a = ps.take(start);
    let b = ps.subrange(start, start + span);
    let c = ps.skip(start + span);
    lemma_pieces_concat(text);
    assert(ps =~= a + b + c);
    lemma_concat_add(a + b, c);
    lemma_concat_add(a, b);
    let whole = concat(b);
    let k = concat(a).len() as int;
    assert(text == concat(a) + whole + concat(c));
    assert(text.subrange(k, k + whole.len()) =~= whole);
    assert(at(text, whole, k));
    let part = block(text, start, span, newline);
    assert(part =~= whole.take(part.len() as int));
    assert(text.subrange(k, k + part.len()) =~= part);
    assert(at(text, part, k));
}

/// A window that fits holds more than a newline.
proof fn lemma_fit_not_empty(text: Seq<char>, old: Seq<char>, start: int, newline: bool)
    requires
        fits(text, old, start),
    ensures
        block(text, start, lines(old).len() as int, newline).len() > 0,
{
    let n = lines(old).len() as int;
    let o = lines(old);
    let w = lines(text).subrange(start, start + n);
    let s = choose|s: LineShift| shifted_by(o, w, s);
    assert(shifted_by(o, w, s));
    let i = choose|i: int|
        0 <= i < o.len() && i < w.len() && #[trigger] line_shift(o[i], w[i]) == Some(s);
    if w[i].len() == 0 {
        assert(blank(w[i]));
        assert(o[i].take(o[i].len() - w[i].len()) =~= o[i]);
    }
    let sub = pieces(text).subrange(start, start + n);
    assert(sub[i] == pieces(text)[start + i]);
    assert(w[i] == crate::text::chomp(sub[i]));
    lemma_concat_split(sub, i);
    let whole = concat(sub);
    if whole.len() == 1 {
        assert(whole =~= sub[i]);
    }
}

/// A repaired edit matches: the text it looks for is not empty and stands in the
/// file.
pub proof fn repaired_edit_matches(text: Seq<char>, old: Seq<char>, new: Seq<char>)
    requires
        old.len() > 0,
    ensures
        repair(text, old, new) matches Some(fix) ==> fix.old.len() > 0 && contains(text, fix.old),
{
    if repair(text, old, new) is Some {
        reveal_strlit("\r\n");
        reveal_strlit("\n");
        lemma_replace_not_empty(old, "\r\n"@, "\n"@);
        lemma_replace_not_empty(old, "\n"@, "\r\n"@);
        let bare = stripped_gutter(old);
        if bare is Some && !blank(bare->0) {
            assert(bare->0.len() > 0);
        }
        if reindent(text, old, new) is Some {
            let start = choose|start: int| only_fit(text, old, start);
            assert(only_fit(text, old, start));
            let nl = ends_with(old, seq!['\n']);
            lemma_block_occurs(text, start, lines(old).len() as int, nl);
            lemma_fit_not_empty(text, old, start, nl);
            let s = uniform(
                lines(old),
                lines(text).subrange(start, start + lines(old).len()),
            )->0;
            assert(shifted_by(
                lines(old),
                lines(text).subrange(start, start + lines(old).len()),
                s,
            ));
        }
    }
}

/// No blank line of `s` begins with `prefix`.
pub open spec fn no_blank_line_has(s: Seq<char>, prefix: Seq<char>) -> bool {
    forall|i: int|
        0 <= i < pieces(s).len() && blank(#[trigger] pieces(s)[i]) && prefix.len() > 0
            ==> !starts_with(pieces(s)[i], prefix)
}

proof fn lemma_first_piece(s: Seq<char>, prefix: Seq<char>)
    requires
        s.len() > 0,
    ensures
        ({
            let l = s.take(line_end(s));
            let rest = s.skip(line_end(s));
            &&& indented(s, prefix) == indent_piece(l, prefix) + indented(rest, prefix)
            &&& dedented(s, prefix) == dedent_piece(l, prefix) + dedented(rest, prefix)
        }),
{
    lemma_line_end(s);
    let l = s.take(line_end(s));
    let rest = s.skip(line_end(s));
    let a = Seq::new(pieces(s).len(), |i: int| indent_piece(pieces(s)[i], prefix));
    let b = Seq::new(pieces(rest).len(), |i: int| indent_piece(pieces(rest)[i], prefix));
    assert(pieces(s)[0] == l);
    assert(pieces(s).skip(1) =~= pieces(rest));
    assert(a[0] == indent_piece(l, prefix));
    assert(a.skip(1) =~= b) by {
        assert forall|i: int| 0 <= i < b.len() implies a.skip(1)[i] == b[i] by {
            assert(pieces(s).skip(1)[i] == pieces(rest)[i]);
        }
    }
    lemma_concat_split(a, 0);
    assert(concat(a.take(0)) + a[0] =~= a[0]);
    let c = Seq::new(pieces(s).len(), |i: int| dedent_piece(pieces(s)[i], prefix));
    let d = Seq::new(pieces(rest).len(), |i: int| dedent_piece(pieces(rest)[i], prefix));
    assert(c[0] == dedent_piece(l, prefix));
    assert(c.skip(1) =~= d) by {
        assert forall|i: int| 0 <= i < d.len() implies c.skip(1)[i] == d[i] by {
            assert(pieces(s).skip(1)[i] == pieces(rest)[i]);
        }
    }
    lemma_concat_split(c, 0);
    assert(concat(c.take(0)) + c[0] =~= c[0]);
}

/// Taking an indentation away undoes putting it on, but on a text with a blank line that
/// begins with it: a blank line is not indented, and would lose what it has.
pub proof fn dedenting_undoes_indenting(s: Seq<char>, prefix: Seq<char>)
    requires
        forall|i: int| 0 <= i < prefix.len() ==> #[trigger] prefix[i] != '\n',
        no_blank_line_has(s, prefix),
    ensures
        dedented(indented(s, prefix), prefix) == s,
    decreases s.len(),
{
    if s.len() == 0 {
        assert(indented(s, prefix) =~= seq![]);
        assert(dedented(indented(s, prefix), prefix) =~= s);
    } else {
        lemma_line_end(s);
        lemma_first_piece(s, prefix);
        let n = line_end(s);
        let l = s.take(n);
        let rest = s.skip(n);
        let m = indent_piece(l, prefix);
        let t = indented(s, prefix);
        assert(pieces(s)[0] == l);
        assert(no_blank_line_has(rest, prefix)) by {
            assert forall|i: int|
                0 <= i < pieces(rest).len() && blank(#[trigger] pieces(rest)[i]) && prefix.len() > 0
                implies !starts_with(pieces(rest)[i], prefix) by {
                assert(pieces(s)[i + 1] == pieces(rest)[i]);
            }
        }
        dedenting_undoes_indenting(rest, prefix);
        assert(m.len() > 0 && m.last() == l.last());
        assert forall|i: int| 0 <= i < m.len() - 1 implies #[trigger] m[i] != '\n' by {
            let k = m.len() - l.len();
            if i < k {
                assert(m[i] == prefix[i]);
            } else {
                assert(m[i] == s[i - k]);
            }
        }
        assert(dedent_piece(m, prefix) =~= l) by {
            if blank(l) {
                if prefix.len() == 0 {
                    assert(l.skip(0) =~= l);
                }
            } else {
                assert(m.take(prefix.len() as int) =~= prefix);
                assert(m.skip(prefix.len() as int) =~= l);
            }
        }
        lemma_line_end_is(m, m.len() as int);
        if rest.len() == 0 {
            assert(indented(rest, prefix) =~= seq![]);
            assert(t =~= m);
        } else {
            assert(s[n - 1] == '\n');
            assert forall|i: int| 0 <= i < m.len() - 1 implies #[trigger] t[i] != '\n' by {
                assert(t[i] == m[i]);
            }
            assert(t[m.len() - 1] == m.last());
            lemma_line_end_is(t, m.len() as int);
        }
        lemma_first_piece(t, prefix);
        assert(t.take(m.len() as int) =~= m);
        assert(t.skip(m.len() as int) =~= indented(rest, prefix));
        assert(l + rest =~= s);
    }
}

proof fn lemma_char_at(s: Seq<char>, c: char, i: int)
    requires
        0 <= i < s.len(),
    ensures
        at(s, seq![c], i) == (s[i] == c),
{
    let one = s.subrange(i, i + 1);
    assert(one[0] == s[i]);
    if s[i] == c {
        assert(one =~= seq![c]);
    }
}

/// What is left of a text between its newlines holds none.
proof fn lemma_left_over_plain(s: Seq<char>, ps: Seq<int>, k: int, i: int)
    requires
        successive(s, seq!['\n'], 0, ps),
        0 <= k <= ps.len(),
        0 <= i < left_over(s, 1, 0, ps)[k].len(),
    ensures
        left_over(s, 1, 0, ps)[k][i] != '\n',
{
    let from = if k == 0 {
        0
    } else {
        ps[k - 1] + 1
    };
    let to = if k == ps.len() {
        s.len() as int
    } else {
        ps[k]
    };
    let nl = seq!['\n'];
    lemma_successive(s, nl, 0, ps, k - 1);
    lemma_successive(s, nl, 0, ps, k);
    let j = from + i;
    assert(left_over(s, 1, 0, ps)[k] == s.subrange(from, to));
    assert(from <= to <= s.len());
    assert(s.subrange(from, to)[i] == s[j]);
    if s[j] == '\n' {
        lemma_char_at(s, '\n', j);
        lemma_successive(s, nl, 0, ps, j);
        let m = choose|m: int| 0 <= m < ps.len() && #[trigger] ps[m] <= j < ps[m] + 1;
        lemma_places(s, nl, 0, ps, m, k - 1);
        lemma_places(s, nl, 0, ps, k, m);
    }
}

/// Line endings converted to CRLF and back are as they were.
pub proof fn line_endings_convert_back(s: Seq<char>)
    ensures
        to_lf(to_crlf(s)) == s,
{
    reveal_strlit("\r\n");
    reveal_strlit("\n");
    let nl = "\n"@;
    let cr = "\r\n"@;
    assert(nl =~= seq!['\n']);
    assert(cr =~= seq!['\r', '\n']);
    let ps = lemma_replace_joins(s, nl, cr, 0);
    let parts = left_over(s, 1, 0, ps);
    assert(s.skip(0) =~= s);
    assert forall|k: int, m: int|
        0 <= k < parts.len() - 1 && 0 <= m < parts[k].len() implies !#[trigger] at(
        parts[k] + cr,
        cr,
        m,
    ) by {
        let all = parts[k] + cr;
        if at(all, cr, m) {
            assert(all.subrange(m, m + 2)[1] == '\n');
            assert(all[m + 1] == '\n');
            if m + 1 < parts[k].len() {
                lemma_left_over_plain(s, ps, k, m + 1);
            } else {
                assert(all[m + 1] == '\r');
            }
        }
    }
    assert(!contains(parts.last(), cr)) by {
        if contains(parts.last(), cr) {
            let m = choose|m: int| at(parts.last(), cr, m);
            assert(parts.last().subrange(m, m + 2)[1] == '\n');
            lemma_left_over_plain(s, ps, parts.len() - 1, m + 1);
        }
    }
    replacing_exchanges_the_joints(parts, cr, nl);
}

/// Once a text has CRLF line endings, every newline in it follows a carriage return, and
/// it has as many newlines as before.
pub proof fn every_newline_gets_a_return(s: Seq<char>, i: int)
    requires
        0 <= i < to_crlf(s).len(),
        to_crlf(s)[i] == '\n',
    ensures
        i > 0,
        to_crlf(s)[i - 1] == '\r',
{
    reveal_strlit("\r\n");
    reveal_strlit("\n");
    let nl = "\n"@;
    let cr = "\r\n"@;
    assert(nl =~= seq!['\n']);
    assert(cr =~= seq!['\r', '\n']);
    let ps = lemma_replace_joins(s, nl, cr, 0);
    let parts = left_over(s, 1, 0, ps);
    assert forall|k: int, m: int| 0 <= k < parts.len() && 0 <= m < parts[k].len() implies (
    #[trigger] parts[k][m]) != '\n' by {
        lemma_left_over_plain(s, ps, k, m);
    }
    lemma_joined_by_crlf(parts, i);
}

proof fn lemma_joined_by_crlf(parts: Seq<Seq<char>>, i: int)
    requires
        forall|k: int, m: int|
            0 <= k < parts.len() && 0 <= m < parts[k].len() ==> (#[trigger] parts[k][m]) != '\n',
        0 <= i < join(parts, seq!['\r', '\n']).len(),
        join(parts, seq!['\r', '\n'])[i] == '\n',
    ensures
        i > 0,
        join(parts, seq!['\r', '\n'])[i - 1] == '\r',
    decreases parts.len(),
{
    let cr = seq!['\r', '\n'];
    if parts.len() == 1 {
        assert(parts[0][i] != '\n');
    } else {
        let before = parts.drop_last();
        let head = join(before, cr);
        let n = head.len() as int;
        let all = join(parts, cr);
        assert(all == head + cr + parts.last());
        if i < n {
            assert forall|k: int, m: int| 0 <= k < before.len() && 0 <= m < before[k].len() implies (
            #[trigger] before[k][m]) != '\n' by {
                assert(parts[k][m] != '\n');
            }
            lemma_joined_by_crlf(before, i);
        } else if i >= n + 2 {
            assert(parts[parts.len() - 1][i - n - 2] != '\n');
        }
    }
}

/// An edit that is copied with the numbers of a read, or with the other kind of line
/// ending, is repaired on both sides: what is looked for and what replaces it lose their
/// numbers, or get the line endings of the file.
pub proof fn both_sides_are_repaired(text: Seq<char>, old: Seq<char>, new: Seq<char>)
    ensures
        stripped_gutter(old) matches Some(bare) ==> !blank(bare) && contains(text, bare) ==> (
        repair(text, old, new) matches Some(fix) && fix.old == bare && fix.new
            == match stripped_gutter(new) {
            Some(n) => n,
            None => new,
        }),
        stripped_gutter(old) is None && contains(text, "\r\n"@) && !contains(old, "\r\n"@)
            && contains(text, to_crlf(old)) ==> (repair(text, old, new) matches Some(fix) && fix.old
            == to_crlf(old) && fix.new == to_crlf(to_lf(new))),
        stripped_gutter(old) is None && !contains(text, "\r\n"@) && contains(old, "\r\n"@)
            && contains(text, to_lf(old)) ==> (repair(text, old, new) matches Some(fix) && fix.old
            == to_lf(old) && fix.new == to_lf(new)),
{
}

/// An edit that differs from one block of the file by its indentation alone is repaired
/// to that block, and the text that replaces it is shifted by the same indentation, line
/// by line, but for blank lines: `.0` is where the block begins, `.1` the indentation,
/// and `.2` says that the file is the deeper of the two.
pub proof fn blocks_shift_as_one(text: Seq<char>, old: Seq<char>, new: Seq<char>) -> (how: (
    int,
    Seq<char>,
    bool,
))
    requires
        reindent(text, old, new) is Some,
    ensures
        ({
            let (start, p, deeper) = how;
            let n = lines(old).len() as int;
            let fix = reindent(text, old, new)->0;
            let found = concat(pieces(text).subrange(start, start + n));
            &&& 0 <= start <= lines(text).len() - n
            &&& p.len() > 0
            &&& forall|i: int| 0 <= i < p.len() ==> is_ws(#[trigger] p[i])
            &&& forall|i: int|
                0 <= i < n ==> {
                    let o = #[trigger] lines(old)[i];
                    let w = lines(text)[start + i];
                    ||| blank(o) && blank(w)
                    ||| deeper && w == p + o
                    ||| !deeper && o == p + w
                }
            &&& fix.old == (if old.len() > 0 && old.last() == '\n' || found.len() == 0
                || found.last() != '\n' {
                found
            } else {
                found.drop_last()
            })
            &&& fix.new == concat(
                Seq::new(
                    pieces(new).len(),
                    |i: int|
                        if deeper {
                            if blank(pieces(new)[i]) {
                                pieces(new)[i]
                            } else {
                                p + pieces(new)[i]
                            }
                        } else if pieces(new)[i].len() >= p.len() && pieces(new)[i].take(
                            p.len() as int,
                        ) == p {
                            pieces(new)[i].skip(p.len() as int)
                        } else {
                            pieces(new)[i]
                        },
                ),
            )
        }),
{
    let start = choose|start: int| only_fit(text, old, start);
    assert(only_fit(text, old, start));
    let n = lines(old).len() as int;
    let window = lines(text).subrange(start, start + n);
    let s = uniform(lines(old), window)->0;
    assert(shifted_by(lines(old), window, s));
    let (p, deeper) = match s {
        LineShift::Deeper(p) => (p, true),
        LineShift::Shallower(p) => (p, false),
        LineShift::Same => (seq![], true),
    };
    let w0 = choose|i: int|
        0 <= i < lines(old).len() && i < window.len() && #[trigger] line_shift(
            lines(old)[i],
            window[i],
        ) == Some(s);
    assert(line_shift(lines(old)[w0], window[w0]) == Some(s));
    assert(p.len() > 0 && blank(p)) by {
        let o = lines(old)[w0];
        let w = window[w0];
        if !deeper {
            if p.len() == 0 {
                assert(o.len() == w.len());
                assert(o.subrange(0, o.len() as int) =~= o);
                assert(w.subrange(0, w.len() as int) =~= w);
            }
        }
    }
    assert forall|i: int| 0 <= i < n implies {
        let o = #[trigger] lines(old)[i];
        let w = lines(text)[start + i];
        ||| blank(o) && blank(w)
        ||| deeper && w == p + o
        ||| !deeper && o == p + w
    } by {
        let o = lines(old)[i];
        let w = window[i];
        assert(w == lines(text)[start + i]);
        if !both_blank(o, w) {
            assert(line_shift(o, w) == Some(s));
            if deeper {
                assert(w =~= w.take(w.len() - o.len()) + w.subrange(
                    w.len() - o.len(),
                    w.len() as int,
                ));
            } else {
                assert(o =~= o.take(o.len() - w.len()) + o.subrange(
                    o.len() - w.len(),
                    o.len() as int,
                ));
            }
        }
    }
    let found = concat(pieces(text).subrange(start, start + n));
    assert(ends_with(old, seq!['\n']) == (old.len() > 0 && old.last() == '\n')) by {
        if old.len() > 0 {
            lemma_char_at(old, '\n', old.len() - 1);
        }
    }
    let moved = Seq::new(
        pieces(new).len(),
        |i: int|
            if deeper {
                if blank(pieces(new)[i]) {
                    pieces(new)[i]
                } else {
                    p + pieces(new)[i]
                }
            } else if pieces(new)[i].len() >= p.len() && pieces(new)[i].take(p.len() as int) == p {
                pieces(new)[i].skip(p.len() as int)
            } else {
                pieces(new)[i]
            },
    );
    if deeper {
        assert(moved =~= Seq::new(pieces(new).len(), |i: int| indent_piece(pieces(new)[i], p)));
    } else {
        let there = Seq::new(pieces(new).len(), |i: int| dedent_piece(pieces(new)[i], p));
        assert forall|i: int| 0 <= i < there.len() implies #[trigger] there[i] == moved[i] by {
            let piece = pieces(new)[i];
            if piece.len() >= p.len() {
                assert(piece.take(p.len() as int) =~= piece.subrange(0, p.len() as int));
            }
        }
        assert(moved =~= there);
    }
    (start, p, deeper)
}

} // verus!
