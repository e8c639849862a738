//! Text as a sequence of characters: the operations of the standard library that
//! the rest of the crate is stated in terms of, each with its meaning.

use vstd::prelude::*;

verus! {

broadcast use vstd::string::group_string_axioms;

/// Appends one character; std: "Appends the given `char` to the end of this `String`".
pub assume_specification[ String::push ](s: &mut String, c: char)
    ensures
        final(s)@ == old(s)@.push(c),
;

/// Appends a string slice; std: "Appends a given string slice onto the end of this `String`".
pub assume_specification[ String::push_str ](s: &mut String, other: &str)
    ensures
        final(s)@ == old(s)@ + other@,
;

// ---------------------------------------------------------------------------
// Characters
// ---------------------------------------------------------------------------

/// The characters with Unicode's `White_Space` property.
pub open spec fn is_ws(c: char) -> bool {
    ||| '\u{9}' <= c <= '\u{d}'
    ||| c == ' '
    ||| c == '\u{85}'
    ||| c == '\u{a0}'
    ||| c == '\u{1680}'
    ||| '\u{2000}' <= c <= '\u{200a}'
    ||| c == '\u{2028}'
    ||| c == '\u{2029}'
    ||| c == '\u{202f}'
    ||| c == '\u{205f}'
    ||| c == '\u{3000}'
}

/// Whether `c` is white space.
pub fn is_whitespace(c: char) -> (r: bool)
    ensures
        r == is_ws(c),
{
    ('\u{9}' <= c && c <= '\u{d}') || c == ' ' || c == '\u{85}' || c == '\u{a0}' || c == '\u{1680}'
        || ('\u{2000}' <= c && c <= '\u{200a}') || c == '\u{2028}' || c == '\u{2029}' || c
        == '\u{202f}' || c == '\u{205f}' || c == '\u{3000}'
}

/// Whether `c` is one of the ten decimal digits of ASCII.
pub open spec fn is_digit(c: char) -> bool {
    '0' <= c <= '9'
}

// ---------------------------------------------------------------------------
// Between `str`, `String` and characters
// ---------------------------------------------------------------------------

/// What a vector of strings holds, as text.
pub open spec fn strs(v: Seq<String>) -> Seq<Seq<char>> {
    Seq::new(v.len(), |i: int| v[i]@)
}

/// The characters of `s`.
pub fn chars_of(s: &str) -> (r: Vec<char>)
    ensures
        r@ == s@,
{
    let mut out: Vec<char> = Vec::new();
    for c in it: s.chars()
        invariant
            out@ == s@.take(it.index()),
            it.seq() == s@,
    {
        out.push(c);
        assert(s@.take(it.index() + 1) =~= s@.take(it.index()).push(c));
    }
    assert(s@.take(s@.len() as int) =~= s@);
    out
}

/// The characters `cs[from..to]` as a string.
pub fn string_of(cs: &Vec<char>, from: usize, to: usize) -> (r: String)
    requires
        from <= to <= cs@.len(),
    ensures
        r@ == cs@.subrange(from as int, to as int),
{
    let mut out = String::new();
    let mut i: usize = from;
    while i < to
        invariant
            from <= i <= to <= cs@.len(),
            out@ == cs@.subrange(from as int, i as int),
        decreases to - i,
    {
        out.push(cs[i]);
        i = i + 1;
        assert(cs@.subrange(from as int, i as int) =~= cs@.subrange(from as int, i - 1).push(
            cs@[i - 1],
        ));
    }
    out
}

/// Whether `a` and `b` are the same text.
pub fn same(a: &str, b: &str) -> (r: bool)
    ensures
        r == (a@ == b@),
{
    let x = chars_of(a);
    let y = chars_of(b);
    if x.len() != y.len() {
        return false;
    }
    let mut i: usize = 0;
    while i < x.len()
        invariant
            i <= x@.len() == y@.len(),
            x@ == a@,
            y@ == b@,
            forall|k: int| 0 <= k < i ==> x@[k] == y@[k],
        decreases x.len() - i,
    {
        if x[i] != y[i] {
            assert(a@[i as int] != b@[i as int]);
            return false;
        }
        i = i + 1;
    }
    assert(a@ =~= b@);
    true
}


/// Appends a text to a list of texts.
pub fn push_text(out: &mut Vec<String>, line: String)
    ensures
        strs(final(out)@) == strs(old(out)@).push(line@),
{
    out.push(line);
    assert(strs(out@) =~= strs(old(out)@).push(line@));
}

/// Pairs of texts.
pub open spec fn pair_texts(v: Seq<(String, String)>) -> Seq<(Seq<char>, Seq<char>)> {
    Seq::new(v.len(), |i: int| (v[i].0@, v[i].1@))
}

/// Appends a pair of texts to a list of them.
pub fn push_pair(out: &mut Vec<(String, String)>, word: &str, text: String)
    ensures
        pair_texts(final(out)@) == pair_texts(old(out)@).push((word@, text@)),
{
    out.push((word.to_owned(), text));
    assert(pair_texts(out@) =~= pair_texts(old(out)@).push((word@, text@)));
}

// ---------------------------------------------------------------------------
// White space at the ends
// ---------------------------------------------------------------------------

/// Whether every character of `s` is white space (an empty `s` qualifies).
pub open spec fn blank(s: Seq<char>) -> bool {
    forall|i: int| 0 <= i < s.len() ==> is_ws(#[trigger] s[i])
}

/// `s` without its leading white space.
pub open spec fn trim_start(s: Seq<char>) -> Seq<char>
    decreases s.len(),
{
    if s.len() > 0 && is_ws(s[0]) {
        trim_start(s.drop_first())
    } else {
        s
    }
}

/// `s` without its trailing white space.
pub open spec fn trim_end(s: Seq<char>) -> Seq<char>
    decreases s.len(),
{
    if s.len() > 0 && is_ws(s.last()) {
        trim_end(s.drop_last())
    } else {
        s
    }
}

/// `s` without white space at either end.
pub open spec fn trim(s: Seq<char>) -> Seq<char> {
    trim_end(trim_start(s))
}

/// Trimming leaves nothing exactly when there was nothing but white space.
pub proof fn lemma_trim_blank(s: Seq<char>)
    ensures
        trim(s).len() == 0 <==> blank(s),
{
    lemma_trim_start_blank(s);
    lemma_trim_end_blank(trim_start(s));
    if blank(s) {
        assert(blank(trim_start(s)));
    }
}

proof fn lemma_trim_start_blank(s: Seq<char>)
    ensures
        trim_start(s).len() == 0 <==> blank(s),
        trim_start(s).len() > 0 ==> !is_ws(trim_start(s)[0]),
    decreases s.len(),
{
    if s.len() > 0 && is_ws(s[0]) {
        lemma_trim_start_blank(s.drop_first());
        if blank(s.drop_first()) {
            assert forall|i: int| 0 <= i < s.len() implies is_ws(#[trigger] s[i]) by {
                if i > 0 {
                    assert(s.drop_first()[i - 1] == s[i]);
                }
            }
        }
        if blank(s) {
            assert forall|i: int| 0 <= i < s.drop_first().len() implies is_ws(
                #[trigger] s.drop_first()[i],
            ) by {
                assert(s.drop_first()[i] == s[i + 1]);
            }
        }
    } else if s.len() > 0 {
        assert(!is_ws(s[0]));
    }
}

proof fn lemma_trim_end_blank(s: Seq<char>)
    ensures
        trim_end(s).len() == 0 <==> blank(s),
    decreases s.len(),
{
    if s.len() > 0 && is_ws(s.last()) {
        lemma_trim_end_blank(s.drop_last());
        if blank(s.drop_last()) {
            assert forall|i: int| 0 <= i < s.len() implies is_ws(#[trigger] s[i]) by {
                if i < s.len() - 1 {
                    assert(s.drop_last()[i] == s[i]);
                }
            }
        }
        if blank(s) {
            assert forall|i: int| 0 <= i < s.drop_last().len() implies is_ws(
                #[trigger] s.drop_last()[i],
            ) by {
                assert(s.drop_last()[i] == s[i]);
            }
        }
    } else if s.len() > 0 {
        assert(!is_ws(s[s.len() - 1]));
    }
}

/// Whether `s` holds nothing but white space.
pub fn is_blank(s: &str) -> (r: bool)
    ensures
        r == blank(s@),
{
    let cs = chars_of(s);
    let mut i: usize = 0;
    while i < cs.len()
        invariant
            i <= cs@.len(),
            cs@ == s@,
            forall|k: int| 0 <= k < i ==> is_ws(#[trigger] s@[k]),
        decreases cs.len() - i,
    {
        if !is_whitespace(cs[i]) {
            assert(!is_ws(s@[i as int]));
            return false;
        }
        i = i + 1;
    }
    true
}

/// The first index of `cs[from..]` that is not white space, or the length.
fn skip_ws(cs: &Vec<char>) -> (r: usize)
    ensures
        r <= cs@.len(),
        trim_start(cs@) == cs@.skip(r as int),
{
    let mut i: usize = 0;
    assert(cs@.skip(0) =~= cs@);
    while i < cs.len() && is_whitespace(cs[i])
        invariant
            i <= cs@.len(),
            trim_start(cs@) == trim_start(cs@.skip(i as int)),
        decreases cs.len() - i,
    {
        assert(cs@.skip(i as int).drop_first() =~= cs@.skip(i + 1));
        i = i + 1;
    }
    i
}

/// One past the last index of `cs[from..]` that is not white space, or `from`.
fn keep_until(cs: &Vec<char>, from: usize) -> (r: usize)
    requires
        from <= cs@.len(),
    ensures
        from <= r <= cs@.len(),
        trim_end(cs@.skip(from as int)) == cs@.subrange(from as int, r as int),
{
    let mut i: usize = cs.len();
    assert(cs@.skip(from as int) =~= cs@.subrange(from as int, i as int));
    while i > from && is_whitespace(cs[i - 1])
        invariant
            from <= i <= cs@.len(),
            trim_end(cs@.skip(from as int)) == trim_end(cs@.subrange(from as int, i as int)),
        decreases i,
    {
        assert(cs@.subrange(from as int, i as int).drop_last() =~= cs@.subrange(
            from as int,
            i - 1,
        ));
        i = i - 1;
    }
    i
}

/// `s` without white space at either end.
pub fn trimmed(s: &str) -> (r: String)
    ensures
        r@ == trim(s@),
{
    let cs = chars_of(s);
    let a = skip_ws(&cs);
    let b = keep_until(&cs, a);
    string_of(&cs, a, b)
}

/// `s` without trailing white space.
pub fn trimmed_end(s: &str) -> (r: String)
    ensures
        r@ == trim_end(s@),
{
    let cs = chars_of(s);
    let b = keep_until(&cs, 0);
    assert(cs@.skip(0) =~= cs@);
    string_of(&cs, 0, b)
}

// ---------------------------------------------------------------------------
// Lines
// ---------------------------------------------------------------------------

/// The length of the first line of `s`, its newline counted.
pub open spec fn line_end(s: Seq<char>) -> int
    decreases s.len(),
{
    if s.len() == 0 {
        0
    } else if s[0] == '\n' {
        1
    } else {
        1 + line_end(s.drop_first())
    }
}

/// `s` cut after every newline; the pieces joined give `s` back.
pub open spec fn pieces(s: Seq<char>) -> Seq<Seq<char>>
    decreases s.len(),
{
    if s.len() == 0 {
        seq![]
    } else {
        proof {
            lemma_line_end(s);
        }
        seq![s.take(line_end(s))] + pieces(s.skip(line_end(s)))
    }
}

/// A piece without the line ending it may carry, `\n` or `\r\n`.
pub open spec fn chomp(s: Seq<char>) -> Seq<char> {
    if s.len() > 0 && s.last() == '\n' {
        let body = s.drop_last();
        if body.len() > 0 && body.last() == '\r' {
            body.drop_last()
        } else {
            body
        }
    } else {
        s
    }
}

/// The lines of `s` without their endings.
pub open spec fn lines(s: Seq<char>) -> Seq<Seq<char>> {
    Seq::new(pieces(s).len(), |i: int| chomp(pieces(s)[i]))
}

/// The first line ends within the text and is not empty, and only its last
/// character can be a newline.
pub proof fn lemma_line_end(s: Seq<char>)
    ensures
        0 <= line_end(s) <= s.len(),
        s.len() > 0 ==> line_end(s) > 0,
        forall|i: int| 0 <= i < line_end(s) - 1 ==> #[trigger] s[i] != '\n',
        line_end(s) < s.len() ==> s[line_end(s) - 1] == '\n',
    decreases s.len(),
{
    if s.len() > 0 && s[0] != '\n' {
        let t = s.drop_first();
        lemma_line_end(t);
        assert forall|i: int| 0 <= i < line_end(s) - 1 implies #[trigger] s[i] != '\n' by {
            if i > 0 {
                assert(t[i - 1] == s[i]);
            }
        }
    }
}

/// Where a scan of `s` stopped right after the first newline, or at the end, is
/// the end of its first line.
pub proof fn lemma_line_end_is(s: Seq<char>, n: int)
    requires
        0 < n <= s.len(),
        forall|i: int| 0 <= i < n - 1 ==> #[trigger] s[i] != '\n',
        s[n - 1] == '\n' || n == s.len(),
    ensures
        line_end(s) == n,
    decreases s.len(),
{
    if s[0] == '\n' {
        assert(n == 1);
    } else if n > 1 {
        let t = s.drop_first();
        assert forall|i: int| 0 <= i < n - 2 implies #[trigger] t[i] != '\n' by {
            assert(t[i] == s[i + 1]);
        }
        assert(t[n - 2] == s[n - 1]);
        lemma_line_end_is(t, n - 1);
    } else {
        assert(s.drop_first().len() == 0);
    }
}

/// One past the newline that ends the line starting at `from`, or the length.
fn scan_line(cs: &Vec<char>, from: usize) -> (r: usize)
    requires
        from < cs@.len(),
    ensures
        from < r <= cs@.len(),
        line_end(cs@.skip(from as int)) == r - from,
{
    let mut i: usize = from;
    let ghost t = cs@.skip(from as int);
    while i < cs.len()
        invariant
            from <= i <= cs@.len(),
            t == cs@.skip(from as int),
            forall|k: int| 0 <= k < i - from ==> #[trigger] t[k] != '\n',
        decreases cs.len() - i,
    {
        if cs[i] == '\n' {
            assert(t[i - from] == '\n');
            proof {
                lemma_line_end_is(t, i - from + 1);
            }
            return i + 1;
        }
        assert(t[i - from] == cs@[i as int]);
        i = i + 1;
    }
    proof {
        assert(t.len() == i - from);
        lemma_line_end_is(t, t.len() as int);
    }
    i
}

/// `s` cut after every newline.
pub fn split_inclusive(s: &str) -> (r: Vec<String>)
    ensures
        strs(r@) == pieces(s@),
{
    let cs = chars_of(s);
    let mut out: Vec<String> = Vec::new();
    let mut i: usize = 0;
    assert(cs@.skip(0) =~= cs@);
    assert(strs(out@) + pieces(cs@) =~= pieces(cs@));
    while i < cs.len()
        invariant
            i <= cs@.len(),
            cs@ == s@,
            strs(out@) + pieces(cs@.skip(i as int)) == pieces(s@),
        decreases cs.len() - i,
    {
        let j = scan_line(&cs, i);
        let piece = string_of(&cs, i, j);
        let ghost before = strs(out@);
        out.push(piece);
        proof {
            let rest = cs@.skip(i as int);
            assert(rest.take(j - i) =~= cs@.subrange(i as int, j as int));
            assert(rest.skip(j - i) =~= cs@.skip(j as int));
            assert(strs(out@) =~= before.push(piece@));
            assert(before + (seq![piece@] + pieces(cs@.skip(j as int))) =~= before.push(piece@)
                + pieces(cs@.skip(j as int)));
        }
        i = j;
    }
    proof {
        assert(cs@.skip(i as int).len() == 0);
        assert(strs(out@) + Seq::<Seq<char>>::empty() =~= strs(out@));
    }
    out
}

/// A piece without its line ending.
pub fn chomped(s: &str) -> (r: String)
    ensures
        r@ == chomp(s@),
{
    let cs = chars_of(s);
    let mut n: usize = cs.len();
    if n > 0 && cs[n - 1] == '\n' {
        n = n - 1;
        if n > 0 && cs[n - 1] == '\r' {
            n = n - 1;
        }
    }
    let r = string_of(&cs, 0, n);
    proof {
        assert(r@ =~= chomp(s@));
    }
    r
}

/// The lines of `s` without their endings.
pub fn split_lines(s: &str) -> (r: Vec<String>)
    ensures
        strs(r@) == lines(s@),
{
    let parts = split_inclusive(s);
    let mut out: Vec<String> = Vec::new();
    let mut i: usize = 0;
    while i < parts.len()
        invariant
            i <= parts@.len(),
            strs(parts@) == pieces(s@),
            out@.len() == i,
            forall|k: int| 0 <= k < i ==> (#[trigger] out@[k])@ == chomp(pieces(s@)[k]),
        decreases parts.len() - i,
    {
        assert(strs(parts@)[i as int] == parts@[i as int]@);
        out.push(chomped(&parts[i]));
        i = i + 1;
    }
    assert(strs(parts@).len() == parts@.len());
    assert(strs(out@) =~= lines(s@));
    out
}

// ---------------------------------------------------------------------------
// Lines of texts put together
// ---------------------------------------------------------------------------

/// Where a text ends with a line, the lines of what follows it are its own.
pub proof fn lemma_pieces_add(a: Seq<char>, b: Seq<char>)
    requires
        a.len() == 0 || a.last() == '\n',
    ensures
        pieces(a + b) == pieces(a) + pieces(b),
    decreases a.len(),
{
    if a.len() == 0 {
        assert(a + b =~= b);
        assert(pieces(a) + pieces(b) =~= pieces(b));
    } else {
        lemma_line_end(a);
        let n = line_end(a);
        assert(a[n - 1] == '\n');
        assert forall|i: int| 0 <= i < n - 1 implies #[trigger] (a + b)[i] != '\n' by {
            assert((a + b)[i] == a[i]);
        }
        lemma_line_end_is(a + b, n);
        assert((a + b).take(n) =~= a.take(n));
        assert((a + b).skip(n) =~= a.skip(n) + b);
        lemma_pieces_add(a.skip(n), b);
        assert(pieces(a + b) =~= pieces(a) + pieces(b));
    }
}

/// A newline after a text that does not end with a line ends its last line and changes no
/// other.
pub proof fn lemma_pieces_ended(s: Seq<char>)
    requires
        s.len() > 0,
        s.last() != '\n',
    ensures
        pieces(s).len() > 0,
        pieces(s).last().len() > 0,
        pieces(s).last().last() == s.last(),
        pieces(s.push('\n')) == pieces(s).drop_last().push(pieces(s).last().push('\n')),
    decreases s.len(),
{
    lemma_line_end(s);
    let n = line_end(s);
    let t = s.push('\n');
    if n == s.len() {
        assert(s.take(n) =~= s);
        assert(s.skip(n) =~= seq![]);
        assert(pieces(s) =~= seq![s]);
        assert forall|i: int| 0 <= i < n implies #[trigger] t[i] != '\n' by {
            if i == n - 1 {
                assert(t[i] == s.last());
            } else {
                assert(t[i] == s[i]);
            }
        }
        lemma_line_end_is(t, n + 1);
        assert(t.take(n + 1) =~= t);
        assert(t.skip(n + 1) =~= seq![]);
        assert(pieces(t) =~= seq![t]);
        assert(pieces(t) =~= pieces(s).drop_last().push(pieces(s).last().push('\n')));
    } else {
        let rest = s.skip(n);
        assert(rest.last() == s.last());
        lemma_pieces_ended(rest);
        assert forall|i: int| 0 <= i < n - 1 implies #[trigger] t[i] != '\n' by {
            assert(t[i] == s[i]);
        }
        lemma_line_end_is(t, n);
        assert(t.take(n) =~= s.take(n));
        assert(t.skip(n) =~= rest.push('\n'));
        assert(pieces(s).last() == pieces(rest).last());
        assert(pieces(t) =~= pieces(s).drop_last().push(pieces(s).last().push('\n')));
    }
}

proof fn lemma_trim_start_shorter(s: Seq<char>)
    requires
        s.len() > 0,
        !blank(s.drop_last()),
    ensures
        trim_start(s).len() > 0,
        trim_start(s).last() == s.last(),
        trim_start(s).drop_last() == trim_start(s.drop_last()),
    decreases s.len(),
{
    let d = s.drop_last();
    assert(d.len() > 0);
    assert(d[0] == s[0]);
    if is_ws(s[0]) {
        assert(s.drop_first().drop_last() =~= d.drop_first());
        assert(!blank(d.drop_first())) by {
            let i = choose|i: int| 0 <= i < d.len() && !is_ws(#[trigger] d[i]);
            assert(d.drop_first()[i - 1] == d[i]);
        }
        lemma_trim_start_shorter(s.drop_first());
    }
}

/// White space at the end makes no difference to what trimming leaves.
pub proof fn lemma_trim_shorter(s: Seq<char>)
    requires
        s.len() > 0,
        is_ws(s.last()),
    ensures
        trim(s) == trim(s.drop_last()),
{
    let d = s.drop_last();
    if blank(d) {
        assert(blank(s)) by {
            assert forall|i: int| 0 <= i < s.len() implies is_ws(#[trigger] s[i]) by {
                if i < d.len() {
                    assert(d[i] == s[i]);
                }
            }
        }
        lemma_trim_blank(s);
        lemma_trim_blank(d);
        assert(trim(s) =~= trim(d));
    } else {
        lemma_trim_start_shorter(s);
    }
}

// ---------------------------------------------------------------------------
// Laws
// ---------------------------------------------------------------------------

/// Trimming the end takes off white space and nothing else, and all of it: what is left
/// stood in front of it, and does not end in white space.
pub proof fn trimming_the_end_takes_white_space(s: Seq<char>)
    ensures
        trim_end(s).len() <= s.len(),
        s.take(trim_end(s).len() as int) == trim_end(s),
        forall|i: int| trim_end(s).len() <= i < s.len() ==> is_ws(#[trigger] s[i]),
        trim_end(s).len() > 0 ==> !is_ws(trim_end(s).last()),
    decreases s.len(),
{
    if s.len() > 0 && is_ws(s.last()) {
        let d = s.drop_last();
        trimming_the_end_takes_white_space(d);
        assert(s.take(trim_end(s).len() as int) =~= d.take(trim_end(s).len() as int));
        assert forall|i: int| trim_end(s).len() <= i < s.len() implies is_ws(#[trigger] s[i]) by {
            if i < d.len() {
                assert(d[i] == s[i]);
            }
        }
    } else {
        assert(s.take(s.len() as int) =~= s);
    }
}

/// Trimming the start takes off white space and nothing else, and all of it.
pub proof fn trimming_the_start_takes_white_space(s: Seq<char>)
    ensures
        trim_start(s).len() <= s.len(),
        s.skip(s.len() - trim_start(s).len()) == trim_start(s),
        forall|i: int| 0 <= i < s.len() - trim_start(s).len() ==> is_ws(#[trigger] s[i]),
        trim_start(s).len() > 0 ==> !is_ws(trim_start(s)[0]),
    decreases s.len(),
{
    if s.len() > 0 && is_ws(s[0]) {
        let d = s.drop_first();
        trimming_the_start_takes_white_space(d);
        assert(s.skip(s.len() - trim_start(s).len()) =~= d.skip(d.len() - trim_start(d).len()));
        assert forall|i: int| 0 <= i < s.len() - trim_start(s).len() implies is_ws(
            #[trigger] s[i],
        ) by {
            if i > 0 {
                assert(d[i - 1] == s[i]);
            }
        }
    } else {
        assert(s.skip(0) =~= s);
    }
}

/// Trimming leaves what stands between the white space in front and the white space
/// behind: it begins at `a`, ends before `b`, neither begins nor ends in white space,
/// and everything outside is white space.
pub proof fn trimming_leaves_the_middle(s: Seq<char>) -> (ends: (int, int))
    ensures
        0 <= ends.0 <= ends.1 <= s.len(),
        trim(s) == s.subrange(ends.0, ends.1),
        forall|i: int| 0 <= i < ends.0 ==> is_ws(#[trigger] s[i]),
        forall|i: int| ends.1 <= i < s.len() ==> is_ws(#[trigger] s[i]),
        trim(s).len() > 0 ==> !is_ws(trim(s)[0]) && !is_ws(trim(s).last()),
{
    trimming_the_start_takes_white_space(s);
    let t = trim_start(s);
    trimming_the_end_takes_white_space(t);
    let a = s.len() - t.len();
    let b = a + trim_end(t).len();
    assert(s.subrange(a, b) =~= t.take(trim_end(t).len() as int));
    assert forall|i: int| b <= i < s.len() implies is_ws(#[trigger] s[i]) by {
        assert(t[i - a] == s[i]);
    }
    (a, b)
}

/// The pieces of a text are its lines with what ends them: each but the last ends in its
/// only newline, the last in one or in none, and none is empty.
pub proof fn pieces_end_in_newlines(s: Seq<char>, k: int)
    requires
        0 <= k < pieces(s).len(),
    ensures
        pieces(s)[k].len() > 0,
        k < pieces(s).len() - 1 ==> pieces(s)[k].last() == '\n',
        forall|i: int| 0 <= i < pieces(s)[k].len() - 1 ==> #[trigger] pieces(s)[k][i] != '\n',
    decreases s.len(),
{
    lemma_line_end(s);
    let n = line_end(s);
    let rest = s.skip(n);
    if k == 0 {
        assert(pieces(s)[0] == s.take(n));
        if rest.len() == 0 {
            assert(pieces(rest).len() == 0);
        }
    } else {
        assert(pieces(s)[k] == pieces(rest)[k - 1]);
        pieces_end_in_newlines(rest, k - 1);
        assert forall|i: int| 0 <= i < pieces(s)[k].len() - 1 implies #[trigger] pieces(s)[k][i]
            != '\n' by {
            assert(pieces(rest)[k - 1][i] != '\n');
        }
    }
}

/// A line is its piece without what ends it: a newline, with the carriage return in front
/// of it where there is one. What ends no line stays.
pub proof fn lines_are_without_their_ends(s: Seq<char>, k: int)
    requires
        0 <= k < lines(s).len(),
    ensures
        lines(s).len() == pieces(s).len(),
        ({
            let piece = pieces(s)[k];
            let line = lines(s)[k];
            ||| piece == line && (piece.len() == 0 || piece.last() != '\n')
            ||| piece == line + seq!['\n'] && (line.len() == 0 || line.last() != '\r')
            ||| piece == line + seq!['\r', '\n']
        }),
{
    let piece = pieces(s)[k];
    let line = lines(s)[k];
    assert(line == chomp(piece));
    if piece.len() > 0 && piece.last() == '\n' {
        let body = piece.drop_last();
        if body.len() > 0 && body.last() == '\r' {
            assert(piece =~= line + seq!['\r', '\n']);
        } else {
            assert(piece =~= line + seq!['\n']);
        }
    }
}

} // verus!
