//! The output of a command as it arrives: lines that are done, and lines that are
//! still being overwritten.

use crate::choice::{ascending, lemma_one_more};
use crate::container::ExecResult;
use crate::text::strs;
use crate::words::concat;
use vstd::prelude::*;
use vstd::utf8::{decode_utf8, valid_utf8};

verus! {

broadcast use vstd::string::group_string_axioms;

/// The text that bytes stand for, with a replacement for what is not UTF-8.
pub uninterp spec fn lossy(bytes: Seq<u8>) -> Seq<char>;

/// `String::from_utf8_lossy`: a function of the bytes, and their text where they are
/// valid UTF-8. How invalid bytes are replaced is left to std.
#[verifier::external_body]
pub(crate) fn from_utf8_lossy(bytes: &Vec<u8>) -> (r: String)
    ensures
        r@ == lossy(bytes@),
        valid_utf8(bytes@) ==> r@ == decode_utf8(bytes@),
{
    String::from_utf8_lossy(bytes).into_owned()
}

/// Output taken apart so far.
pub struct Split {
    /// The lines that are done, each with its newline.
    pub committed: Seq<char>,
    /// The line that is still being overwritten, as last shown.
    pub current: Seq<char>,
    /// The bytes of the line that arrived since.
    pub line: Seq<u8>,
    /// A carriage return arrived last.
    pub pending_cr: bool,
    /// What was sent on: lines that are done end in a newline.
    pub sent: Seq<Seq<char>>,
}

/// The line is done.
pub open spec fn commit(s: Split) -> Split {
    Split {
        committed: s.committed + lossy(s.line).push('\n'),
        current: seq![],
        line: seq![],
        pending_cr: false,
        sent: s.sent.push(lossy(s.line).push('\n')),
    }
}

/// The line so far is shown, to be overwritten; nothing happens where it is empty.
pub open spec fn transient(s: Split) -> Split {
    if s.line.len() == 0 {
        Split { pending_cr: false, ..s }
    } else {
        Split {
            committed: s.committed,
            current: lossy(s.line),
            line: seq![],
            pending_cr: false,
            sent: s.sent.push(lossy(s.line)),
        }
    }
}

/// One more byte: a newline, alone or after a carriage return, ends a line, and a
/// carriage return alone starts the line over.
pub open spec fn feed_byte(s: Split, b: u8) -> Split {
    if s.pending_cr && b == 10 {
        commit(s)
    } else {
        let t = if s.pending_cr {
            transient(s)
        } else {
            s
        };
        if b == 10 {
            commit(t)
        } else if b == 13 {
            Split { pending_cr: true, ..t }
        } else {
            Split { line: t.line.push(b), ..t }
        }
    }
}

/// The first `n` bytes, one after the other.
pub open spec fn feed_bytes(s: Split, bytes: Seq<u8>, n: int) -> Split
    decreases n,
{
    if n <= 0 {
        s
    } else {
        feed_byte(feed_bytes(s, bytes, n - 1), bytes[n - 1])
    }
}

/// Why a command was ended.
#[derive(Debug, Clone, Copy, PartialEq, Eq, Structural)]
pub enum Interrupt {
    Cancelled,
    TimedOut,
}

/// The note on a command that was ended.
pub open spec fn interrupt_note(why: Interrupt) -> Seq<char> {
    match why {
        Interrupt::Cancelled => "[command cancelled]"@,
        Interrupt::TimedOut => "[command timed out]"@,
    }
}

/// The exit code of a command that was ended.
pub fn interrupt_code(why: Interrupt) -> (r: ExecResult)
    ensures
        r.exit_code == match why {
            Interrupt::Cancelled => 130i32,
            Interrupt::TimedOut => 124i32,
        },
{
    ExecResult {
        exit_code: match why {
            Interrupt::Cancelled => 130,
            Interrupt::TimedOut => 124,
        },
    }
}

/// Takes output apart as it arrives.
#[derive(Debug)]
pub struct OutputSplitter {
    committed: String,
    current: String,
    line: Vec<u8>,
    pending_cr: bool,
    sent: Vec<String>,
}

impl View for OutputSplitter {
    type V = Split;

    closed spec fn view(&self) -> Split {
        Split {
            committed: self.committed@,
            current: self.current@,
            line: self.line@,
            pending_cr: self.pending_cr,
            sent: strs(self.sent@),
        }
    }
}

impl OutputSplitter {
    /// Before any output.
    pub fn new() -> (r: OutputSplitter)
        ensures
            r@ == (Split {
                committed: seq![],
                current: seq![],
                line: seq![],
                pending_cr: false,
                sent: seq![],
            }),
    {
        let r = OutputSplitter {
            committed: String::new(),
            current: String::new(),
            line: Vec::new(),
            pending_cr: false,
            sent: Vec::new(),
        };
        assert(strs(r.sent@) =~= seq![]);
        r
    }

    fn commit_line(&mut self)
        ensures
            final(self)@ == commit(old(self)@),
    {
        let mut text = from_utf8_lossy(&self.line);
        text.push('\n');
        self.committed.push_str(&text);
        self.current = String::new();
        self.line = Vec::new();
        self.pending_cr = false;
        self.sent.push(text);
        assert(strs(self.sent@) =~= strs(old(self).sent@).push(text@));
        assert(self.line@ =~= seq![]);
    }

    fn transient_line(&mut self)
        ensures
            final(self)@ == transient(old(self)@),
    {
        self.pending_cr = false;
        if self.line.len() == 0 {
            return ;
        }
        let text = from_utf8_lossy(&self.line);
        self.current = text.clone();
        self.line = Vec::new();
        self.sent.push(text);
        assert(strs(self.sent@) =~= strs(old(self).sent@).push(text@));
        assert(self.line@ =~= seq![]);
    }

    fn take_byte(&mut self, b: u8)
        ensures
            final(self)@ == feed_byte(old(self)@, b),
    {
        if self.pending_cr {
            if b == 10 {
                self.commit_line();
                return ;
            }
            self.transient_line();
        }
        if b == 10 {
            self.commit_line();
        } else if b == 13 {
            self.pending_cr = true;
        } else {
            self.line.push(b);
        }
    }

    /// Takes the next bytes of the output.
    pub fn feed(&mut self, bytes: &[u8])
        ensures
            final(self)@ == feed_bytes(old(self)@, bytes@, bytes@.len() as int),
    {
        let mut i: usize = 0;
        while i < bytes.len()
            invariant
                i <= bytes@.len(),
                self@ == feed_bytes(old(self)@, bytes@, i as int),
            decreases bytes.len() - i,
        {
            self.take_byte(bytes[i]);
            i = i + 1;
        }
    }

    /// The output has ended: what is left of a line is shown.
    pub fn finish(&mut self)
        ensures
            final(self)@ == (Split {
                pending_cr: old(self)@.pending_cr,
                ..transient(old(self)@)
            }),
    {
        let pending = self.pending_cr;
        self.transient_line();
        self.pending_cr = pending;
    }

    /// The command was ended: the note on that is shown, as a line of its own.
    pub fn interrupted(&mut self, why: Interrupt)
        ensures
            final(self)@ == (Split {
                current: old(self)@.current + interrupt_note(why),
                sent: old(self)@.sent.push(interrupt_note(why).push('\n')),
                ..old(self)@
            }),
    {
        let mut note = (match why {
            Interrupt::Cancelled => "[command cancelled]",
            Interrupt::TimedOut => "[command timed out]",
        }).to_owned();
        self.current.push_str(&note);
        note.push('\n');
        self.sent.push(note);
        assert(strs(self.sent@) =~= strs(old(self).sent@).push(note@));
    }

    /// The whole output so far: the lines that are done, and the one being overwritten
    /// as last shown.
    pub fn accumulated(&self) -> (r: String)
        ensures
            r@ == self@.committed + self@.current,
    {
        let mut out = self.committed.clone();
        out.push_str(&self.current);
        out
    }

    /// What is to be sent on, from the oldest; none of it is given twice.
    pub fn take_chunks(&mut self) -> (r: Vec<String>)
        ensures
            strs(r@) == old(self)@.sent,
            final(self)@ == (Split { sent: seq![], ..old(self)@ }),
    {
        let mut out: Vec<String> = Vec::new();
        std::mem::swap(&mut out, &mut self.sent);
        assert(strs(self.sent@) =~= seq![]);
        out
    }
}

/// A line that is done stays as it is: whatever arrives, the text committed before is
/// still there, in front.
pub proof fn committed_text_stays(s: Split, bytes: Seq<u8>, n: int)
    ensures
        s.committed.len() <= feed_bytes(s, bytes, n).committed.len(),
        feed_bytes(s, bytes, n).committed.take(s.committed.len() as int) == s.committed,
    decreases n,
{
    if n > 0 {
        committed_text_stays(s, bytes, n - 1);
        let a = feed_bytes(s, bytes, n - 1).committed;
        let b = feed_bytes(s, bytes, n).committed;
        assert(b.take(s.committed.len() as int) =~= a.take(s.committed.len() as int));
    } else {
        assert(s.committed.take(s.committed.len() as int) =~= s.committed);
    }
}

/// How output is cut into packets makes no difference: two packets one after the
/// other come to the same as both at once.
pub proof fn packets_do_not_matter(s: Split, a: Seq<u8>, b: Seq<u8>)
    ensures
        feed_bytes(feed_bytes(s, a, a.len() as int), b, b.len() as int) == feed_bytes(
            s,
            a + b,
            (a + b).len() as int,
        ),
{
    lemma_feed_prefix(s, a, a + b, a.len() as int);
    lemma_feed_rest(s, a, b, b.len() as int);
}

proof fn lemma_feed_prefix(s: Split, a: Seq<u8>, c: Seq<u8>, n: int)
    requires
        0 <= n <= a.len() <= c.len(),
        forall|i: int| 0 <= i < a.len() ==> #[trigger] c[i] == a[i],
    ensures
        feed_bytes(s, a, n) == feed_bytes(s, c, n),
    decreases n,
{
    if n > 0 {
        lemma_feed_prefix(s, a, c, n - 1);
        assert(c[n - 1] == a[n - 1]);
    }
}

proof fn lemma_feed_rest(s: Split, a: Seq<u8>, b: Seq<u8>, n: int)
    requires
        0 <= n <= b.len(),
    ensures
        feed_bytes(feed_bytes(s, a, a.len() as int), b, n) == feed_bytes(s, a + b, a.len() + n),
    decreases n,
{
    if n > 0 {
        lemma_feed_rest(s, a, b, n - 1);
        assert((a + b)[a.len() + n - 1] == b[n - 1]);
    } else {
        lemma_feed_prefix(s, a, a + b, a.len() as int);
    }
}

/// Before any output.
pub open spec fn untouched() -> Split {
    Split { committed: seq![], current: seq![], line: seq![], pending_cr: false, sent: seq![] }
}

/// The output so far as a whole: the lines that are done, and behind them the line that
/// has not ended, where there is one.
pub open spec fn shown_at_end(s: Split) -> Seq<char> {
    s.committed + (if s.line.len() == 0 {
        s.current
    } else {
        lossy(s.line)
    })
}

/// Bytes that end no line are kept until the line ends.
proof fn lemma_feed_plain(s: Split, b: Seq<u8>, n: int)
    requires
        0 <= n <= b.len(),
        !s.pending_cr,
        forall|i: int| 0 <= i < n ==> #[trigger] b[i] != 10 && b[i] != 13,
    ensures
        feed_bytes(s, b, n) == (Split { line: s.line + b.take(n), ..s }),
    decreases n,
{
    if n > 0 {
        lemma_feed_plain(s, b, n - 1);
        assert(b[n - 1] != 10 && b[n - 1] != 13);
        assert((s.line + b.take(n - 1)).push(b[n - 1]) =~= s.line + b.take(n));
    } else {
        assert(s.line + b.take(0) =~= s.line);
    }
}

/// Where output holds no carriage return, every line of it is there, as it was and in
/// its order: one text for each newline byte, of the bytes in front of it since the
/// newline before, also where there are none, and each is sent on as a chunk of its own.
/// What follows the last newline is kept.
pub proof fn every_line_is_kept(bytes: Seq<u8>, n: int) -> (ps: Seq<int>)
    requires
        0 <= n <= bytes.len(),
        forall|i: int| 0 <= i < n ==> #[trigger] bytes[i] != 13,
    ensures
        ascending(ps, n),
        forall|i: int| 0 <= i < n ==> (#[trigger] ps.contains(i) <==> bytes[i] == 10),
        ({
            let s = feed_bytes(untouched(), bytes, n);
            let start = |k: int|
                if k == 0 {
                    0
                } else {
                    ps[k - 1] + 1
                };
            let texts = Seq::new(
                ps.len(),
                |k: int| lossy(bytes.subrange(start(k), ps[k])).push('\n'),
            );
            &&& s.sent == texts
            &&& s.committed == concat(texts)
            &&& s.line == bytes.subrange(start(ps.len() as int), n)
            &&& s.current.len() == 0
            &&& !s.pending_cr
        }),
    decreases n,
{
    if n == 0 {
        let ps: Seq<int> = seq![];
        let s = feed_bytes(untouched(), bytes, 0);
        let none: Seq<Seq<char>> = seq![];
        assert(concat(none) =~= seq![]);
        assert(Seq::new(
            ps.len(),
            |k: int|
                lossy(
                    bytes.subrange(
                        if k == 0 {
                            0
                        } else {
                            ps[k - 1] + 1
                        },
                        ps[k],
                    ),
                ).push('\n'),
        ) =~= none);
        assert(s.line =~= bytes.subrange(0, 0));
        ps
    } else {
        let before = every_line_is_kept(bytes, n - 1);
        assert(bytes[n - 1] != 13);
        lemma_one_more(before, n - 1);
        let s = feed_bytes(untouched(), bytes, n - 1);
        let from = if before.len() == 0 {
            0
        } else {
            before[before.len() - 1] + 1
        };
        assert(s.line == bytes.subrange(from, n - 1));
        if bytes[n - 1] == 10 {
            let ps = before.push(n - 1);
            let start = |k: int|
                if k == 0 {
                    0
                } else {
                    ps[k - 1] + 1
                };
            let texts = Seq::new(
                ps.len(),
                |k: int| lossy(bytes.subrange(start(k), ps[k])).push('\n'),
            );
            assert(texts.drop_last() =~= s.sent);
            assert(texts.last() == lossy(s.line).push('\n'));
            assert(texts =~= s.sent.push(lossy(s.line).push('\n')));
            assert(bytes.subrange(n, n) =~= seq![]);
            ps
        } else {
            assert(s.line.push(bytes[n - 1]) =~= bytes.subrange(from, n));
            before
        }
    }
}

/// A newline in valid UTF-8 stands for itself, and both sides of it are valid.
proof fn lemma_decode_at_newline(bytes: Seq<u8>, i: int)
    requires
        valid_utf8(bytes),
        0 <= i < bytes.len(),
        bytes[i] == 10,
    ensures
        valid_utf8(bytes.take(i)),
        valid_utf8(bytes.skip(i + 1)),
        decode_utf8(bytes) == decode_utf8(bytes.take(i)).push('\n') + decode_utf8(
            bytes.skip(i + 1),
        ),
{
    vstd::utf8::is_char_boundary_iff_not_is_continuation_byte(bytes, i);
    vstd::utf8::valid_utf8_split(bytes, i);
    vstd::utf8::decode_utf8_split(bytes, i);
    let rest = bytes.subrange(i, bytes.len() as int);
    assert(bytes.subrange(0, i) =~= bytes.take(i));
    assert(rest[0] == 10);
    assert(10u8 & 0x7F == 10) by (bit_vector);
    assert(vstd::utf8::pop_first_scalar(rest) =~= bytes.skip(i + 1));
    assert(decode_utf8(rest) == seq!['\n'] + decode_utf8(bytes.skip(i + 1)));
    assert(decode_utf8(bytes.take(i)) + (seq!['\n'] + decode_utf8(bytes.skip(i + 1)))
        =~= decode_utf8(bytes.take(i)).push('\n') + decode_utf8(bytes.skip(i + 1)));
}

proof fn lemma_feed_text(s: Split, bytes: Seq<u8>)
    requires
        valid_utf8(bytes),
        forall|i: int| 0 <= i < bytes.len() ==> #[trigger] bytes[i] != 13,
        s.line.len() == 0,
        s.current.len() == 0,
        !s.pending_cr,
        forall|b: Seq<u8>| valid_utf8(b) ==> #[trigger] lossy(b) == decode_utf8(b),
    ensures
        shown_at_end(feed_bytes(s, bytes, bytes.len() as int)) == s.committed + decode_utf8(bytes),
    decreases bytes.len(),
{
    let n = bytes.len() as int;
    if exists|i: int| 0 <= i < n && bytes[i] == 10 {
        let i = lemma_first_newline(bytes, 0);
        let head = bytes.take(i);
        let nl = bytes.subrange(i, i + 1);
        let tail = bytes.skip(i + 1);
        lemma_decode_at_newline(bytes, i);
        lemma_feed_plain(s, head, i);
        assert(head.take(i) =~= head);
        assert(s.line + head =~= head);
        let a = feed_bytes(s, head, i);
        assert(a.line == head);
        packets_do_not_matter(s, head, nl);
        packets_do_not_matter(s, head + nl, tail);
        assert(head + nl + tail =~= bytes);
        let b = commit(a);
        assert(feed_bytes(a, nl, 0) == a);
        assert(nl[0] == 10);
        assert(feed_bytes(a, nl, 1) == b);
        assert(lossy(head) == decode_utf8(head));
        lemma_feed_text(b, tail);
        assert(s.committed + decode_utf8(head).push('\n') + decode_utf8(tail) =~= s.committed
            + decode_utf8(bytes));
    } else {
        lemma_feed_plain(s, bytes, n);
        assert(bytes.take(n) =~= bytes);
        assert(s.line + bytes =~= bytes);
        if n == 0 {
            assert(s.committed + s.current =~= s.committed + decode_utf8(bytes));
        } else {
            assert(lossy(bytes) == decode_utf8(bytes));
        }
    }
}

proof fn lemma_first_newline(bytes: Seq<u8>, from: int) -> (i: int)
    requires
        0 <= from <= bytes.len(),
        exists|k: int| from <= k < bytes.len() && bytes[k] == 10,
    ensures
        from <= i < bytes.len(),
        bytes[i] == 10,
        forall|k: int| from <= k < i ==> bytes[k] != 10,
    decreases bytes.len() - from,
{
    if bytes[from] == 10 {
        from
    } else {
        lemma_first_newline(bytes, from + 1)
    }
}

/// Output that is valid UTF-8 and holds no carriage return is given back unchanged: once
/// it has all been fed, and has ended, the whole of it is the text of its bytes. It rests
/// on valid UTF-8 being read as the text that it encodes.
pub proof fn output_comes_back_unchanged(bytes: Seq<u8>)
    requires
        valid_utf8(bytes),
        forall|i: int| 0 <= i < bytes.len() ==> #[trigger] bytes[i] != 13,
        forall|b: Seq<u8>| valid_utf8(b) ==> #[trigger] lossy(b) == decode_utf8(b),
    ensures
        ({
            let s = feed_bytes(untouched(), bytes, bytes.len() as int);
            let t = transient(s);
            t.committed + t.current == decode_utf8(bytes)
        }),
{
    lemma_feed_text(untouched(), bytes);
    assert(untouched().committed + decode_utf8(bytes) =~= decode_utf8(bytes));
}

/// A carriage return in front of a newline makes no difference.
pub proof fn line_endings_do_not_matter(s: Split)
    requires
        !s.pending_cr,
    ensures
        feed_bytes(s, seq![13u8, 10u8], 2) == feed_bytes(s, seq![10u8], 1),
{
    reveal_with_fuel(feed_bytes, 3);
}

/// A carriage return alone starts the line over: what stood on it is sent on once, as it
/// was, and is no longer part of the output, which ends in what follows.
pub proof fn carriage_returns_start_over(s: Split, b: Seq<u8>)
    requires
        !s.pending_cr,
        b.len() > 0,
        forall|i: int| 0 <= i < b.len() ==> #[trigger] b[i] != 10 && b[i] != 13,
    ensures
        ({
            let t = transient(feed_bytes(s, seq![13u8] + b, 1int + b.len()));
            &&& t.committed == s.committed
            &&& t.current == lossy(b)
            &&& t.sent == (if s.line.len() > 0 {
                s.sent.push(lossy(s.line))
            } else {
                s.sent
            }).push(lossy(b))
        }),
{
    let cr = seq![13u8];
    packets_do_not_matter(s, cr, b);
    let a = feed_bytes(s, cr, 1);
    assert(feed_bytes(s, cr, 0) == s);
    assert(a == (Split { pending_cr: true, ..s }));
    let first = b.take(1);
    let rest = b.skip(1);
    assert(first + rest =~= b);
    packets_do_not_matter(a, first, rest);
    assert(feed_bytes(a, first, 0) == a);
    assert(first[0] == b[0]);
    let c = feed_bytes(a, first, 1);
    assert(c == (Split { line: transient(a).line.push(b[0]), ..transient(a) }));
    assert(transient(a).line =~= seq![]);
    assert forall|i: int| 0 <= i < rest.len() implies #[trigger] rest[i] != 10 && rest[i] != 13 by {
        assert(rest[i] == b[i + 1]);
    }
    lemma_feed_plain(c, rest, rest.len() as int);
    assert(rest.take(rest.len() as int) =~= rest);
    assert(transient(a).line.push(b[0]) + rest =~= b);
}

} // verus!
