//! Splitting text into runs of characters, joining texts, and writing numbers.

use crate::paths::ascii_alnum;
use crate::search::lemma_join_front;
use crate::text::{chars_of, is_whitespace, is_ws, lemma_line_end, line_end, pieces, string_of,
    strs};
use vstd::prelude::*;
use vstd::utf8::{encode_scalar, encode_utf8};

verus! {

broadcast use vstd::string::group_string_axioms;

// ---------------------------------------------------------------------------
// Runs
// ---------------------------------------------------------------------------

/// The length of the longest prefix of `s` whose characters all satisfy `keep`.
pub open spec fn run_len(s: Seq<char>, keep: spec_fn(char) -> bool) -> int
    decreases s.len(),
{
    if s.len() > 0 && keep(s[0]) {
        1 + run_len(s.drop_first(), keep)
    } else {
        0
    }
}

/// The maximal runs of characters of `s` that satisfy `keep`, in order.
pub open spec fn runs(s: Seq<char>, keep: spec_fn(char) -> bool) -> Seq<Seq<char>>
    decreases s.len(),
{
    if s.len() == 0 {
        seq![]
    } else if !keep(s[0]) {
        runs(s.drop_first(), keep)
    } else {
        proof {
            lemma_run_len(s, keep);
        }
        seq![s.take(run_len(s, keep))] + runs(s.skip(run_len(s, keep)), keep)
    }
}

/// A run lies within the text, and is not empty where its first character is kept.
pub proof fn lemma_run_len(s: Seq<char>, keep: spec_fn(char) -> bool)
    ensures
        0 <= run_len(s, keep) <= s.len(),
        s.len() > 0 && keep(s[0]) ==> run_len(s, keep) > 0,
    decreases s.len(),
{
    if s.len() > 0 && keep(s[0]) {
        lemma_run_len(s.drop_first(), keep);
    }
}

/// A scan that stopped at the first character that fails `keep`.
proof fn lemma_run_len_is(s: Seq<char>, keep: spec_fn(char) -> bool, n: int)
    requires
        0 <= n <= s.len(),
        forall|i: int| 0 <= i < n ==> keep(#[trigger] s[i]),
        n < s.len() ==> !keep(s[n]),
    ensures
        run_len(s, keep) == n,
    decreases s.len(),
{
    if n > 0 {
        let t = s.drop_first();
        assert forall|i: int| 0 <= i < n - 1 implies keep(#[trigger] t[i]) by {
            assert(t[i] == s[i + 1]);
        }
        lemma_run_len_is(t, keep, n - 1);
    }
}

/// [`runs`], given which characters are kept.
fn split_runs(cs: &Vec<char>, kept: &Vec<bool>, Ghost(keep): Ghost<spec_fn(char) -> bool>) -> (r:
    Vec<String>)
    requires
        kept@.len() == cs@.len(),
        forall|i: int| 0 <= i < cs@.len() ==> #[trigger] kept@[i] == keep(cs@[i]),
    ensures
        strs(r@) == runs(cs@, keep),
{
    let mut out: Vec<String> = Vec::new();
    let mut i: usize = 0;
    assert(cs@.skip(0) =~= cs@);
    assert(strs(out@) + runs(cs@, keep) =~= runs(cs@, keep));
    while i < cs.len()
        invariant
            i <= cs@.len() == kept@.len(),
            forall|k: int| 0 <= k < cs@.len() ==> #[trigger] kept@[k] == keep(cs@[k]),
            strs(out@) + runs(cs@.skip(i as int), keep) == runs(cs@, keep),
        decreases cs.len() - i,
    {
        let ghost rest = cs@.skip(i as int);
        assert(rest[0] == cs@[i as int]);
        if !kept[i] {
            assert(rest.drop_first() =~= cs@.skip(i + 1));
            i = i + 1;
        } else {
            let mut j: usize = i;
            while j < cs.len() && kept[j]
                invariant
                    i <= j <= cs@.len() == kept@.len(),
                    forall|k: int| 0 <= k < cs@.len() ==> #[trigger] kept@[k] == keep(cs@[k]),
                    forall|k: int| i <= k < j ==> kept@[k],
                decreases cs.len() - j,
            {
                j = j + 1;
            }
            let piece = string_of(cs, i, j);
            let ghost before = strs(out@);
            out.push(piece);
            proof {
                assert forall|k: int| 0 <= k < j - i implies keep(#[trigger] rest[k]) by {
                    assert(rest[k] == cs@[i + k]);
                    assert(kept@[i + k]);
                }
                if j < cs@.len() {
                    assert(rest[j - i] == cs@[j as int]);
                }
                lemma_run_len_is(rest, keep, j - i);
                if j == i {
                    assert(kept@[i as int]);
                    assert(false);
                }
                assert(rest.take(j - i) =~= cs@.subrange(i as int, j as int));
                assert(rest.skip(j - i) =~= cs@.skip(j as int));
                assert(strs(out@) =~= before.push(piece@));
                assert(before + (seq![piece@] + runs(cs@.skip(j as int), keep)) =~= before.push(
                    piece@,
                ) + runs(cs@.skip(j as int), keep));
            }
            i = j;
        }
    }
    proof {
        assert(cs@.skip(i as int).len() == 0);
        assert(strs(out@) + Seq::<Seq<char>>::empty() =~= strs(out@));
    }
    out
}

/// The words of `s`: its runs of characters that are not white space.
pub open spec fn words(s: Seq<char>) -> Seq<Seq<char>> {
    runs(s, |c: char| !is_ws(c))
}

/// The words of `s`.
pub fn split_whitespace(s: &str) -> (r: Vec<String>)
    ensures
        strs(r@) == words(s@),
{
    let cs = chars_of(s);
    let mut kept: Vec<bool> = Vec::new();
    let mut i: usize = 0;
    while i < cs.len()
        invariant
            i <= cs@.len(),
            kept@.len() == i,
            forall|k: int| 0 <= k < i ==> #[trigger] kept@[k] == !is_ws(cs@[k]),
        decreases cs.len() - i,
    {
        kept.push(!is_whitespace(cs[i]));
        i = i + 1;
    }
    split_runs(&cs, &kept, Ghost(|c: char| !is_ws(c)))
}

/// The runs of `s` between the occurrences of `sep`, empty ones left out.
pub open spec fn segments(s: Seq<char>, sep: char) -> Seq<Seq<char>> {
    runs(s, other_than(sep))
}

/// Every character but `sep`.
pub open spec fn other_than(sep: char) -> spec_fn(char) -> bool {
    |c: char| c != sep
}

/// The runs of `s` between the occurrences of `sep`.
pub fn split_segments(s: &str, sep: char) -> (r: Vec<String>)
    ensures
        strs(r@) == segments(s@, sep),
{
    let cs = chars_of(s);
    let mut kept: Vec<bool> = Vec::new();
    let mut i: usize = 0;
    while i < cs.len()
        invariant
            i <= cs@.len(),
            kept@.len() == i,
            forall|k: int| 0 <= k < i ==> #[trigger] kept@[k] == (cs@[k] != sep),
        decreases cs.len() - i,
    {
        kept.push(cs[i] != sep);
        i = i + 1;
    }
    split_runs(&cs, &kept, Ghost(other_than(sep)))
}

/// What a text looks like in quotes, with its special characters escaped.
pub uninterp spec fn quoted(s: Seq<char>) -> Seq<char>;

/// `format!("{s:?}")`: the text in quotes. Which characters are escaped, and how, is
/// left to std.
#[verifier::external_body]
pub(crate) fn quote(s: &str) -> (r: String)
    ensures
        r@ == quoted(s@),
{
    format!("{s:?}")
}

/// What `char::is_alphanumeric` answers of a character beyond ASCII: the Unicode tables
/// of letters and numbers.
pub uninterp spec fn wide_alphanumeric(c: char) -> bool;

/// A letter or a number.
pub open spec fn alphanumeric(c: char) -> bool {
    if c as int <= 127 {
        ascii_alnum(c)
    } else {
        wide_alphanumeric(c)
    }
}

/// `char::is_alphanumeric` depends on its character alone: of ASCII it accepts the letters
/// and the digits; which others it accepts is left to the Unicode tables.
pub assume_specification[ char::is_alphanumeric ](c: char) -> (r: bool)
    ensures
        r == if c as int <= 127 {
            ascii_alnum(c)
        } else {
            wide_alphanumeric(c)
        },
;

/// The word tokens of `s`: its runs of letters, numbers and underscores.
pub open spec fn word_tokens(s: Seq<char>) -> Seq<Seq<char>> {
    runs(s, |c: char| alphanumeric(c) || c == '_')
}

/// The word tokens of `line`.
pub fn tokens(line: &str) -> (r: Vec<String>)
    ensures
        strs(r@) == word_tokens(line@),
{
    let cs = chars_of(line);
    let mut kept: Vec<bool> = Vec::new();
    let mut i: usize = 0;
    while i < cs.len()
        invariant
            i <= cs@.len(),
            kept@.len() == i,
            forall|k: int|
                0 <= k < i ==> #[trigger] kept@[k] == (alphanumeric(cs@[k]) || cs@[k] == '_'),
        decreases cs.len() - i,
    {
        let c = cs[i];
        let is = c.is_alphanumeric() || c == '_';
        kept.push(is);
        i = i + 1;
    }
    split_runs(&cs, &kept, Ghost(|c: char| alphanumeric(c) || c == '_'))
}

// ---------------------------------------------------------------------------
// Joining
// ---------------------------------------------------------------------------

/// The texts one after the other.
pub open spec fn concat(parts: Seq<Seq<char>>) -> Seq<char>
    decreases parts.len(),
{
    if parts.len() == 0 {
        seq![]
    } else {
        concat(parts.drop_last()) + parts.last()
    }
}

/// Joining two lists is joining each and putting one behind the other.
pub proof fn lemma_concat_add(a: Seq<Seq<char>>, b: Seq<Seq<char>>)
    ensures
        concat(a + b) == concat(a) + concat(b),
    decreases b.len(),
{
    if b.len() == 0 {
        assert(a + b =~= a);
        assert(concat(a) + concat(b) =~= concat(a));
    } else {
        lemma_concat_add(a, b.drop_last());
        assert((a + b).drop_last() =~= a + b.drop_last());
        assert(concat(a) + (concat(b.drop_last()) + b.last()) =~= concat(a) + concat(b.drop_last())
            + b.last());
    }
}

/// A list of one text joins to that text.
pub proof fn lemma_concat_one(a: Seq<char>)
    ensures
        concat(seq![a]) == a,
{
    reveal_with_fuel(concat, 2);
    assert(seq![a].drop_last() =~= Seq::<Seq<char>>::empty());
    assert(concat(seq![a]) =~= a);
}

/// A list joined is what stands before one of its texts, that text, and the rest.
pub proof fn lemma_concat_split(parts: Seq<Seq<char>>, i: int)
    requires
        0 <= i < parts.len(),
    ensures
        concat(parts) == concat(parts.take(i)) + parts[i] + concat(parts.skip(i + 1)),
{
    assert(parts =~= parts.take(i) + seq![parts[i]] + parts.skip(i + 1));
    lemma_concat_add(parts.take(i) + seq![parts[i]], parts.skip(i + 1));
    lemma_concat_add(parts.take(i), seq![parts[i]]);
    lemma_concat_one(parts[i]);
}

/// The pieces of a text joined are the text.
pub proof fn lemma_pieces_concat(s: Seq<char>)
    ensures
        concat(pieces(s)) == s,
    decreases s.len(),
{
    if s.len() > 0 {
        let n = line_end(s);
        lemma_line_end(s);
        lemma_pieces_concat(s.skip(n));
        lemma_concat_add(seq![s.take(n)], pieces(s.skip(n)));
        lemma_concat_one(s.take(n));
        assert(s.take(n) + s.skip(n) =~= s);
    } else {
        assert(concat(pieces(s)) =~= s);
    }
}

/// The texts with `sep` between each two.
pub open spec fn join(parts: Seq<Seq<char>>, sep: Seq<char>) -> Seq<char>
    decreases parts.len(),
{
    if parts.len() == 0 {
        seq![]
    } else if parts.len() == 1 {
        parts[0]
    } else {
        join(parts.drop_last(), sep) + sep + parts.last()
    }
}

/// `parts[from..to]` with `sep` between each two.
pub fn joined_range(parts: &Vec<String>, from: usize, to: usize, sep: &str) -> (r: String)
    requires
        from <= to <= parts@.len(),
    ensures
        r@ == join(strs(parts@).subrange(from as int, to as int), sep@),
{
    let mut out = String::new();
    let mut i: usize = from;
    while i < to
        invariant
            from <= i <= to <= parts@.len(),
            out@ == join(strs(parts@).subrange(from as int, i as int), sep@),
        decreases to - i,
    {
        let ghost now = strs(parts@).subrange(from as int, i as int);
        let ghost next = strs(parts@).subrange(from as int, i + 1);
        if i > from {
            out.push_str(sep);
            out.push_str(&parts[i]);
        } else {
            out = parts[i].clone();
        }
        proof {
            assert(next.drop_last() =~= now);
            assert(next.last() == parts@[i as int]@);
        }
        i = i + 1;
    }
    out
}

/// The texts with `sep` between each two.
pub fn joined(parts: &Vec<String>, sep: &str) -> (r: String)
    ensures
        r@ == join(strs(parts@), sep@),
{
    let r = joined_range(parts, 0, parts.len(), sep);
    assert(strs(parts@).subrange(0, parts@.len() as int) =~= strs(parts@));
    r
}

// ---------------------------------------------------------------------------
// Numbers
// ---------------------------------------------------------------------------

/// The character of a decimal digit.
pub open spec fn digit(d: int) -> char {
    ('0' as int + d) as char
}

/// `n` written in decimal.
pub open spec fn dec(n: nat) -> Seq<char>
    decreases n,
{
    if n < 10 {
        seq![digit(n as int)]
    } else {
        dec(n / 10).push(digit((n % 10) as int))
    }
}

fn digit_char(d: u128) -> (r: char)
    requires
        d < 10,
    ensures
        r == digit(d as int),
{
    (48u8 + d as u8) as char
}

/// `n` written in decimal.
pub fn decimal(n: u128) -> (r: String)
    ensures
        r@ == dec(n as nat),
    decreases n,
{
    if n < 10 {
        let mut s = String::new();
        s.push(digit_char(n));
        assert(s@ =~= dec(n as nat));
        s
    } else {
        let mut s = decimal(n / 10);
        s.push(digit_char(n % 10));
        s
    }
}

/// `n` written in decimal.
pub fn decimal_size(n: usize) -> (r: String)
    ensures
        r@ == dec(n as nat),
{
    decimal(n as u128)
}

/// `s` with spaces in front until it is `width` characters long.
pub open spec fn pad_left(s: Seq<char>, width: int) -> Seq<char> {
    Seq::new((if s.len() < width { width - s.len() } else { 0 }) as nat, |i: int| ' ') + s
}

/// `s` with spaces behind until it is `width` characters long.
pub open spec fn pad_right(s: Seq<char>, width: int) -> Seq<char> {
    s + Seq::new((if s.len() < width { width - s.len() } else { 0 }) as nat, |i: int| ' ')
}

fn spaces(n: usize) -> (r: String)
    ensures
        r@ == Seq::new(n as nat, |i: int| ' '),
{
    let mut out = String::new();
    let mut i: usize = 0;
    while i < n
        invariant
            i <= n,
            out@ == Seq::new(i as nat, |k: int| ' '),
        decreases n - i,
    {
        out.push(' ');
        i = i + 1;
        assert(Seq::new(i as nat, |k: int| ' ') =~= Seq::new((i - 1) as nat, |k: int| ' ').push(' '));
    }
    out
}

/// `s` with spaces in front until it is `width` characters long.
pub fn padded_left(s: &str, width: usize) -> (r: String)
    ensures
        r@ == pad_left(s@, width as int),
{
    let n = chars_of(s).len();
    let mut out = spaces(if n < width { width - n } else { 0 });
    out.push_str(s);
    out
}

/// `s` with spaces behind until it is `width` characters long.
pub fn padded_right(s: &str, width: usize) -> (r: String)
    ensures
        r@ == pad_right(s@, width as int),
{
    let n = chars_of(s).len();
    let mut out = s.to_owned();
    out.push_str(&spaces(if n < width { width - n } else { 0 }));
    out
}

/// `""` for one, `"s"` for any other number.
pub open spec fn plural_suffix(n: int) -> Seq<char> {
    if n == 1 {
        seq![]
    } else {
        seq!['s']
    }
}

/// `""` for one, `"s"` for any other number.
pub fn plural(n: usize) -> (r: &'static str)
    ensures
        r@ == plural_suffix(n as int),
{
    proof {
        reveal_strlit("");
        reveal_strlit("s");
    }
    if n == 1 {
        assert(""@ =~= seq![]);
        ""
    } else {
        assert("s"@ =~= seq!['s']);
        "s"
    }
}

// ---------------------------------------------------------------------------
// Bytes
// ---------------------------------------------------------------------------

/// The number of bytes of `s` in UTF-8.
pub open spec fn byte_len(s: Seq<char>) -> nat {
    encode_utf8(s).len()
}

/// The number of bytes of `c` in UTF-8.
pub open spec fn width(c: char) -> nat {
    encode_scalar(c as u32).len()
}

/// The number of bytes of `s` in UTF-8.
pub fn bytes_in(s: &str) -> (r: usize)
    ensures
        r == byte_len(s@),
{
    s.as_bytes().len()
}

/// The number of bytes of `c` in UTF-8.
pub fn char_width(c: char) -> (r: usize)
    ensures
        r == width(c),
        1 <= r <= 4,
{
    let v = c as u32;
    if v <= 0x7f {
        1
    } else if v <= 0x7ff {
        2
    } else if v <= 0xffff {
        3
    } else {
        4
    }
}

/// How many leading characters of `s` fit in `room` bytes of UTF-8.
pub open spec fn fitting(s: Seq<char>, room: int) -> int
    decreases s.len(),
{
    if s.len() == 0 || width(s[0]) > room {
        0
    } else {
        1 + fitting(s.drop_first(), room - width(s[0]))
    }
}

/// How many leading characters of `cs` fit in `room` bytes of UTF-8.
pub fn fitting_chars(cs: &Vec<char>, room: usize) -> (r: usize)
    ensures
        r == fitting(cs@, room as int),
        r <= cs@.len(),
{
    let mut left: usize = room;
    let mut i: usize = 0;
    assert(cs@.skip(0) =~= cs@);
    while i < cs.len()
        invariant
            i <= cs@.len(),
            i + fitting(cs@.skip(i as int), left as int) == fitting(cs@, room as int),
        decreases cs.len() - i,
    {
        let w = char_width(cs[i]);
        assert(cs@.skip(i as int)[0] == cs@[i as int]);
        if w > left {
            return i;
        }
        assert(cs@.skip(i as int).drop_first() =~= cs@.skip(i + 1));
        left = left - w;
        i = i + 1;
    }
    i
}

/// What fits into a number of bytes is the longest beginning of a text that does: it takes
/// up no more, and one character more would.
pub proof fn as_much_fits_as_can(s: Seq<char>, room: int)
    requires
        0 <= room,
    ensures
        0 <= fitting(s, room) <= s.len(),
        byte_len(s.take(fitting(s, room))) <= room,
        fitting(s, room) < s.len() ==> byte_len(s.take(fitting(s, room) + 1)) > room,
    decreases s.len(),
{
    let n = fitting(s, room);
    if s.len() > 0 {
        let rest = s.drop_first();
        if width(s[0]) > room {
            assert(s.take(0) =~= seq![]);
            let one = s.take(1);
            assert(one.drop_first() =~= seq![]);
            assert(encode_utf8(one) =~= encode_scalar(s[0] as u32));
        } else {
            as_much_fits_as_can(rest, room - width(s[0]));
            assert(s.take(n).drop_first() =~= rest.take(n - 1));
            assert(byte_len(s.take(n)) == width(s[0]) + byte_len(rest.take(n - 1)));
            if n < s.len() {
                assert(s.take(n + 1).drop_first() =~= rest.take(n));
                assert(byte_len(s.take(n + 1)) == width(s[0]) + byte_len(rest.take(n)));
            }
        }
    } else {
        assert(s.take(0) =~= seq![]);
    }
}

/// Padding puts spaces in front of a text, or behind it, until it is as wide as asked for,
/// and never takes anything off it.
pub proof fn padding_adds_spaces(s: Seq<char>, width: int)
    ensures
        ({
            let l = pad_left(s, width);
            let r = pad_right(s, width);
            &&& l.len() == r.len() == (if s.len() < width {
                width
            } else {
                s.len() as int
            })
            &&& l.skip(l.len() - s.len()) == s
            &&& r.take(s.len() as int) == s
            &&& forall|i: int| 0 <= i < l.len() - s.len() ==> #[trigger] l[i] == ' '
            &&& forall|i: int| s.len() <= i < r.len() ==> #[trigger] r[i] == ' '
        }),
{
    let l = pad_left(s, width);
    let r = pad_right(s, width);
    assert(l.skip(l.len() - s.len()) =~= s);
    assert(r.take(s.len() as int) =~= s);
}

/// Taking a text apart at a separator undoes joining texts by it, where none of them is
/// empty or holds it.
pub proof fn splitting_undoes_joining(names: Seq<Seq<char>>, sep: char)
    requires
        forall|i: int| 0 <= i < names.len() ==> (#[trigger] names[i]).len() > 0,
        forall|i: int| 0 <= i < names.len() ==> !(#[trigger] names[i]).contains(sep),
    ensures
        segments(join(names, seq![sep]), sep) == names,
    decreases names.len(),
{
    let keep = other_than(sep);
    if names.len() == 0 {
        assert(segments(join(names, seq![sep]), sep) =~= names);
    } else {
        let first = names[0];
        let rest = names.drop_first();
        assert forall|i: int| 0 <= i < first.len() implies keep(#[trigger] first[i]) by {
            if first[i] == sep {
                assert(first.contains(sep));
            }
        }
        assert forall|i: int| 0 <= i < rest.len() implies (#[trigger] rest[i]).len() > 0
            && !rest[i].contains(sep) by {
            assert(rest[i] == names[i + 1]);
        }
        splitting_undoes_joining(rest, sep);
        if rest.len() == 0 {
            assert(names =~= seq![first]);
            let s = join(names, seq![sep]);
            assert(s == first);
            lemma_run_len_is(s, keep, s.len() as int);
            assert(s.take(s.len() as int) =~= first);
            assert(runs(s.skip(s.len() as int), keep) =~= seq![]);
            assert(segments(s, sep) =~= names);
        } else {
            assert(names =~= seq![first] + rest);
            lemma_join_front(first, rest, seq![sep]);
            let tail = join(rest, seq![sep]);
            let s = first + seq![sep] + tail;
            let n = first.len() as int;
            assert forall|i: int| 0 <= i < n implies keep(#[trigger] s[i]) by {
                assert(s[i] == first[i]);
            }
            assert(s[n] == sep);
            lemma_run_len_is(s, keep, n);
            assert(s.take(n) =~= first);
            let behind = s.skip(n);
            assert(behind[0] == sep);
            assert(behind.drop_first() =~= tail);
            assert(runs(behind, keep) == runs(tail, keep));
            assert(segments(s, sep) =~= seq![first] + rest);
        }
    }
}

/// The words of a text are found whatever white space stands in front of them and between
/// them.
pub proof fn words_stand_between_white_space(before: Seq<char>, word: Seq<char>, rest: Seq<char>)
    requires
        forall|i: int| 0 <= i < before.len() ==> is_ws(#[trigger] before[i]),
        word.len() > 0,
        forall|i: int| 0 <= i < word.len() ==> !is_ws(#[trigger] word[i]),
        rest.len() > 0 ==> is_ws(rest[0]),
    ensures
        words(before + word + rest) == seq![word] + words(rest),
    decreases before.len(),
{
    let keep = |c: char| !is_ws(c);
    let s = before + word + rest;
    if before.len() > 0 {
        assert(s[0] == before[0]);
        assert(s.drop_first() =~= before.drop_first() + word + rest);
        assert forall|i: int| 0 <= i < before.drop_first().len() implies is_ws(
            #[trigger] before.drop_first()[i],
        ) by {
            assert(before.drop_first()[i] == before[i + 1]);
        }
        words_stand_between_white_space(before.drop_first(), word, rest);
        assert(!keep(s[0]));
    } else {
        let n = word.len() as int;
        assert(s =~= word + rest);
        assert forall|i: int| 0 <= i < n implies keep(#[trigger] s[i]) by {
            assert(s[i] == word[i]);
        }
        if n < s.len() {
            assert(s[n] == rest[0]);
        }
        lemma_run_len_is(s, keep, n);
        assert(s.take(n) =~= word);
        assert(s.skip(n) =~= rest);
        assert(keep(s[0]));
    }
}

/// The white space that is known: space, tab, the line endings and the spaces of print; no
/// letter, digit or mark of ASCII is.
pub proof fn white_space_is_known(c: char)
    ensures
        is_ws(' ') && is_ws('\t') && is_ws('\n') && is_ws('\r') && is_ws('\u{b}') && is_ws('\u{c}')
            && is_ws('\u{85}') && is_ws('\u{a0}') && is_ws('\u{2003}') && is_ws('\u{2028}')
            && is_ws('\u{3000}'),
        '!' <= c <= '~' ==> !is_ws(c),
{
}

} // verus!
