//! A session's journal on its way to a browser: its lines as they are written, the
//! frame of each, and when a stream of them ends.

use crate::choice::{ascending, lemma_one_more};
use crate::ranch::SessionStatus;
use crate::search::{contains, has};
use crate::text::{strs, trim_end, trimmed_end};
use crate::words::{dec, decimal};
use vstd::prelude::*;

verus! {

broadcast use vstd::string::group_string_axioms;

// ---------------------------------------------------------------------------
// Lines as they are written
// ---------------------------------------------------------------------------

/// The complete lines of some bytes, without their newlines, and what follows the last.
pub struct Tailed {
    pub lines: Seq<Seq<u8>>,
    pub partial: Seq<u8>,
}

/// What was there, and the first `n` bytes more.
pub open spec fn tailed(s: Tailed, bytes: Seq<u8>, n: int) -> Tailed
    decreases n,
{
    if n <= 0 {
        s
    } else {
        let t = tailed(s, bytes, n - 1);
        if bytes[n - 1] == 10 {
            Tailed { lines: t.lines.push(t.partial), partial: seq![] }
        } else {
            Tailed { lines: t.lines, partial: t.partial.push(bytes[n - 1]) }
        }
    }
}

/// Byte lines by what they hold.
pub open spec fn byte_lines(v: Seq<Vec<u8>>) -> Seq<Seq<u8>> {
    Seq::new(v.len(), |i: int| v[i]@)
}

/// Takes a file apart into lines while it is still being written: a line is given
/// once its newline is there.
#[derive(Debug)]
pub struct LineTail {
    partial: Vec<u8>,
}

impl LineTail {
    /// What is there of a line that has not ended.
    pub closed spec fn held(&self) -> Seq<u8> {
        self.partial@
    }

    /// Before anything was read.
    pub fn new() -> (r: LineTail)
        ensures
            r.held() == Seq::<u8>::empty(),
    {
        LineTail { partial: Vec::new() }
    }

    /// Takes what was appended, and gives every line that it completes.
    pub fn feed(&mut self, bytes: &[u8]) -> (r: Vec<Vec<u8>>)
        ensures
            ({
                let t = tailed(
                    Tailed { lines: seq![], partial: old(self).held() },
                    bytes@,
                    bytes@.len() as int,
                );
                byte_lines(r@) == t.lines && final(self).held() == t.partial
            }),
    {
        let ghost start = Tailed { lines: seq![], partial: self.partial@ };
        let mut lines: Vec<Vec<u8>> = Vec::new();
        let mut i: usize = 0;
        assert(byte_lines(lines@) =~= seq![]);
        while i < bytes.len()
            invariant
                i <= bytes@.len(),
                tailed(start, bytes@, i as int) == (Tailed {
                    lines: byte_lines(lines@),
                    partial: self.partial@,
                }),
            decreases bytes.len() - i,
        {
            if bytes[i] == 10 {
                let ghost before = byte_lines(lines@);
                let mut line: Vec<u8> = Vec::new();
                std::mem::swap(&mut line, &mut self.partial);
                lines.push(line);
                assert(byte_lines(lines@) =~= before.push(line@));
                assert(self.partial@ =~= seq![]);
            } else {
                self.partial.push(bytes[i]);
            }
            i = i + 1;
        }
        lines
    }
}

/// How a file is read makes no difference to its lines: what is read in two parts
/// gives the lines of the whole.
pub proof fn reads_do_not_matter(s: Tailed, a: Seq<u8>, b: Seq<u8>)
    ensures
        tailed(tailed(s, a, a.len() as int), b, b.len() as int) == tailed(
            s,
            a + b,
            (a + b).len() as int,
        ),
{
    lemma_tailed_rest(s, a, b, b.len() as int);
}

proof fn lemma_tailed_prefix(s: Tailed, a: Seq<u8>, b: Seq<u8>, n: int)
    requires
        0 <= n <= a.len(),
    ensures
        tailed(s, a, n) == tailed(s, a + b, n),
    decreases n,
{
    if n > 0 {
        lemma_tailed_prefix(s, a, b, n - 1);
        assert((a + b)[n - 1] == a[n - 1]);
    }
}

proof fn lemma_tailed_rest(s: Tailed, a: Seq<u8>, b: Seq<u8>, n: int)
    requires
        0 <= n <= b.len(),
    ensures
        tailed(tailed(s, a, a.len() as int), b, n) == tailed(s, a + b, a.len() + n),
    decreases n,
{
    if n > 0 {
        lemma_tailed_rest(s, a, b, n - 1);
        assert((a + b)[a.len() + n - 1] == b[n - 1]);
    } else {
        lemma_tailed_prefix(s, a, b, a.len() as int);
    }
}

// ---------------------------------------------------------------------------
// The frame of a line
// ---------------------------------------------------------------------------

/// JSON as the `serde_json` crate writes what it reads; `None` where it reads none.
pub uninterp spec fn normal_json(bytes: Seq<u8>) -> Option<Seq<char>>;

/// `serde_json::from_slice` into a value and that value's text: functions of the
/// bytes. Which bytes are JSON, and how the text is laid out, is left to that crate.
#[verifier::external_body]
fn json_text(bytes: &Vec<u8>) -> (r: Option<String>)
    ensures
        normal_json(bytes@) == match r {
            Some(t) => Some(t@),
            None => None,
        },
{
    match serde_json::from_slice::<serde_json::Value>(bytes) {
        Ok(value) => Some(value.to_string()),
        Err(_) => None,
    }
}

/// A line of a journal without a carriage return at its end.
pub open spec fn record(line: Seq<u8>) -> Seq<u8> {
    if line.len() > 0 && line.last() == 13 {
        line.drop_last()
    } else {
        line
    }
}

/// A line of a journal without a carriage return at its end.
pub fn record_bytes(line: &Vec<u8>) -> (r: Vec<u8>)
    ensures
        r@ == record(line@),
{
    let n: usize = if line.len() > 0 && line[line.len() - 1] == 13 {
        line.len() - 1
    } else {
        line.len()
    };
    let mut out: Vec<u8> = Vec::new();
    let mut i: usize = 0;
    while i < n
        invariant
            i <= n <= line@.len(),
            out@ == line@.take(i as int),
        decreases n - i,
    {
        out.push(line[i]);
        i = i + 1;
        assert(line@.take(i as int) =~= line@.take(i - 1).push(line@[i - 1]));
    }
    assert(out@ =~= record(line@));
    out
}

/// The frame of an event, given as JSON.
pub open spec fn framed(seq: nat, event: Seq<char>) -> Seq<char> {
    "{\"event\":{\"event\":"@ + event + ",\"seq\":"@ + dec(seq) + "}}"@
}

/// The frame of a line that holds `event` as JSON, or none. `known` is the frame of an
/// event that this build knows. A line that is no JSON is replaced by a notice.
pub open spec fn frame_of(seq: nat, event: Option<Seq<char>>, known: Option<Seq<char>>) -> Seq<
    char,
> {
    match known {
        Some(k) => trim_end(k),
        None => match event {
            Some(e) => framed(seq, e),
            None => framed(seq, "{\"notice\":\"(unreadable journal line)\"}"@),
        },
    }
}

/// The frame of a line, given what it holds as JSON.
pub fn frame_event(seq: u64, event: &Option<String>, known: &Option<String>) -> (r: String)
    ensures
        r@ == frame_of(seq as nat, crate::grep::opt(*event), crate::grep::opt(*known)),
{
    match known {
        Some(k) => {
            return trimmed_end(k);
        },
        None => {},
    }
    let mut out = "{\"event\":{\"event\":".to_owned();
    match event {
        Some(e) => {
            out.push_str(e);
        },
        None => {
            out.push_str("{\"notice\":\"(unreadable journal line)\"}");
        },
    }
    out.push_str(",\"seq\":");
    out.push_str(&decimal(seq as u128));
    out.push_str("}}");
    out
}

/// The frame of line `seq` of a journal. Every line has one: an event that this build
/// knows as it writes it, other JSON as it is, and anything else as a notice.
pub fn event_frame(seq: u64, line: &Vec<u8>, known: &Option<String>) -> (r: String)
    ensures
        r@ == frame_of(seq as nat, normal_json(record(line@)), crate::grep::opt(*known)),
{
    if known.is_some() {
        return frame_event(seq, &None, known);
    }
    frame_event(seq, &json_text(&record_bytes(line)), known)
}

// ---------------------------------------------------------------------------
// Which lines are sent
// ---------------------------------------------------------------------------

/// A stream of a journal's lines: the number of the next line, and the first one that
/// is wanted.
#[derive(Debug, Clone, Copy)]
pub struct Stream {
    pub next: u64,
    pub since: u64,
}

/// The frames of lines from number `next` on, of those that are wanted, among the
/// first `n`.
pub open spec fn wanted_frames(
    s: Stream,
    ls: Seq<Vec<u8>>,
    known: Seq<Option<String>>,
    n: int,
) -> Seq<Seq<char>>
    decreases n,
{
    if n <= 0 {
        seq![]
    } else if s.next + n - 1 >= s.since {
        wanted_frames(s, ls, known, n - 1).push(
            frame_of(
                (s.next + n - 1) as nat,
                normal_json(record(ls[n - 1]@)),
                crate::grep::opt(known[n - 1]),
            ),
        )
    } else {
        wanted_frames(s, ls, known, n - 1)
    }
}

impl Stream {
    /// A stream from its first line, or from the line that is asked for.
    pub fn new(since: Option<u64>) -> (r: Stream)
        ensures
            r.next == 0,
            r.since == match since {
                Some(n) => n,
                None => 0,
            },
    {
        Stream {
            next: 0,
            since: match since {
                Some(n) => n,
                None => 0,
            },
        }
    }

    /// The frames of the next lines, of those that are wanted: each line has the number
    /// after that of the line before it, sent or not.
    pub fn frames(&mut self, ls: &Vec<Vec<u8>>, known: &Vec<Option<String>>) -> (r: Vec<String>)
        requires
            known@.len() == ls@.len(),
            old(self).next + ls@.len() <= u64::MAX,
        ensures
            strs(r@) == wanted_frames(*old(self), ls@, known@, ls@.len() as int),
            final(self).next == old(self).next + ls@.len(),
            final(self).since == old(self).since,
    {
        let mut out: Vec<String> = Vec::new();
        let first: u64 = self.next;
        let mut i: usize = 0;
        assert(strs(out@) =~= seq![]);
        while i < ls.len()
            invariant
                i <= ls@.len() == known@.len(),
                first == old(self).next,
                self.since == old(self).since,
                self.next == first + i,
                first + ls@.len() <= u64::MAX,
                strs(out@) == wanted_frames(*old(self), ls@, known@, i as int),
            decreases ls.len() - i,
        {
            if self.next >= self.since {
                let ghost before = strs(out@);
                let f = event_frame(self.next, &ls[i], &known[i]);
                out.push(f);
                assert(strs(out@) =~= before.push(f@));
            }
            self.next = self.next + 1;
            i = i + 1;
        }
        out
    }
}

/// A stream has no gaps: of `n` lines, exactly those from the wanted one on have a
/// frame.
pub proof fn streams_have_no_gaps(s: Stream, ls: Seq<Vec<u8>>, known: Seq<Option<String>>, n: int)
    requires
        0 <= n,
    ensures
        wanted_frames(s, ls, known, n).len() == if s.next + n <= s.since {
            0
        } else if s.next >= s.since {
            n
        } else {
            s.next + n - s.since
        },
    decreases n,
{
    if n > 0 {
        streams_have_no_gaps(s, ls, known, n - 1);
    }
}

// ---------------------------------------------------------------------------
// When a stream ends
// ---------------------------------------------------------------------------

/// How a session that is over ended.
pub open spec fn end_word(s: SessionStatus) -> Seq<char> {
    match s {
        SessionStatus::Completed => "completed"@,
        SessionStatus::Failed => "failed"@,
        SessionStatus::Stale => "stale"@,
        _ => "ended"@,
    }
}

/// How a session that is over ended.
pub fn status_word(s: SessionStatus) -> (r: &'static str)
    ensures
        r@ == end_word(s),
{
    match s {
        SessionStatus::Completed => "completed",
        SessionStatus::Failed => "failed",
        SessionStatus::Stale => "stale",
        _ => "ended",
    }
}

/// Whether a subagent can have this id: one that cannot lead out of the directory of
/// the sessions.
pub fn valid_subagent(id: &str) -> (r: bool)
    ensures
        r == (id@.len() > 0 && !contains(id@, "/"@) && !contains(id@, ".."@)),
{
    let slash = has(id, "/");
    let dots = has(id, "..");
    !id.is_empty() && !slash && !dots
}

/// Milliseconds of quiet after which a stream that is to end does.
pub const DRAIN_QUIET_MS: u64 = 600;

/// What a parent's journal tells of its subagents.
#[derive(Debug)]
pub enum ParentEvent {
    SubagentDone(String),
    /// The jobs there are, each with its state.
    Jobs(Vec<(String, String)>),
    Other,
}

/// An event reports that a subagent is done.
pub open spec fn reports(event: ParentEvent, sub: Seq<char>) -> bool {
    match event {
        ParentEvent::SubagentDone(id) => id@ == sub,
        ParentEvent::Jobs(jobs) => exists|i: int|
            0 <= i < jobs@.len() && (#[trigger] jobs@[i]).0@ == sub && (jobs@[i].1@ == "done"@
                || jobs@[i].1@ == "failed"@),
        ParentEvent::Other => false,
    }
}

/// Whether an event reports that a subagent is done.
pub fn reports_done(event: &ParentEvent, sub: &str) -> (r: bool)
    ensures
        r == reports(*event, sub@),
{
    match event {
        ParentEvent::SubagentDone(id) => crate::text::same(id, sub),
        ParentEvent::Jobs(jobs) => {
            let mut i: usize = 0;
            while i < jobs.len()
                invariant
                    i <= jobs@.len(),
                    event matches ParentEvent::Jobs(j) && j@ == jobs@,
                    forall|k: int|
                        0 <= k < i ==> !((#[trigger] jobs@[k]).0@ == sub@ && (jobs@[k].1@
                            == "done"@ || jobs@[k].1@ == "failed"@)),
                decreases jobs.len() - i,
            {
                if crate::text::same(&jobs[i].0, sub) && (crate::text::same(&jobs[i].1, "done")
                    || crate::text::same(&jobs[i].1, "failed")) {
                    assert(jobs@[i as int].0@ == sub@);
                    return true;
                }
                i = i + 1;
            }
            false
        },
        ParentEvent::Other => false,
    }
}

/// Whether the stream of a subagent ends: its parent is over or has reported it done,
/// and nothing more has come for a while. A subagent that is merely quiet goes on.
pub fn watch_ends(parent_live: bool, sub_done: bool, quiet_ms: u64) -> (r: bool)
    ensures
        r == ((!parent_live || sub_done) && quiet_ms >= DRAIN_QUIET_MS),
{
    (!parent_live || sub_done) && quiet_ms >= DRAIN_QUIET_MS
}

/// Milliseconds after which a parent is asked about again.
pub const PARENT_RECHECK_MS: u64 = 1000;

/// The stream of a subagent under way. Times are in milliseconds of one clock.
#[derive(Debug)]
pub struct Watch {
    pub parent_live: bool,
    pub sub_done: bool,
    /// When its parent was asked about last.
    pub last_check_ms: u64,
    /// Since when nothing has come of the subagent.
    pub quiet_since_ms: u64,
}

/// The time from one moment to a later one.
pub open spec fn since(then: u64, now: u64) -> u64 {
    if now >= then {
        (now - then) as u64
    } else {
        0
    }
}

fn elapsed(then: u64, now: u64) -> (r: u64)
    ensures
        r == since(then, now),
{
    if now >= then {
        now - then
    } else {
        0
    }
}

/// A stream after one look at its journals: a line of the subagent starts the quiet anew,
/// a report that it is done stays, and its parent's state is that of the last answer.
pub open spec fn watched(w: Watch, now: u64, lines: bool, done: bool, live: bool) -> Watch {
    let asked = w.parent_live && since(w.last_check_ms, now) >= PARENT_RECHECK_MS;
    Watch {
        parent_live: if asked {
            live
        } else {
            w.parent_live
        },
        sub_done: w.sub_done || done,
        last_check_ms: if asked {
            now
        } else {
            w.last_check_ms
        },
        quiet_since_ms: if lines {
            now
        } else {
            w.quiet_since_ms
        },
    }
}

impl Watch {
    /// A stream that begins now.
    pub fn new(parent_live: bool, now: u64) -> (r: Watch)
        ensures
            r == (Watch {
                parent_live,
                sub_done: false,
                last_check_ms: now,
                quiet_since_ms: now,
            }),
    {
        Watch { parent_live, sub_done: false, last_check_ms: now, quiet_since_ms: now }
    }

    /// Whether the parent is to be asked about: it was live, and that was a while ago.
    pub fn asks(&self, now: u64) -> (r: bool)
        ensures
            r == (self.parent_live && since(self.last_check_ms, now) >= PARENT_RECHECK_MS),
    {
        self.parent_live && elapsed(self.last_check_ms, now) >= PARENT_RECHECK_MS
    }

    /// Goes on after one look: whether lines of the subagent came, whether its parent
    /// reported it done, and where the parent was asked about, whether it is live. Says
    /// whether the stream ends.
    pub fn step(&mut self, now: u64, lines: bool, done: bool, live: bool) -> (r: bool)
        ensures
            *final(self) == watched(*old(self), now, lines, done, live),
            r == ((!final(self).parent_live || final(self).sub_done) && since(
                final(self).quiet_since_ms,
                now,
            ) >= DRAIN_QUIET_MS),
    {
        let asked = self.asks(now);
        if lines {
            self.quiet_since_ms = now;
        }
        if done {
            self.sub_done = true;
        }
        if asked {
            self.last_check_ms = now;
            self.parent_live = live;
        }
        watch_ends(self.parent_live, self.sub_done, elapsed(self.quiet_since_ms, now))
    }
}

/// A stream does not end with lines that just came, nor while its parent is live and has
/// not reported the subagent done, however long it is quiet.
pub proof fn quiet_alone_ends_nothing(w: Watch, now: u64, lines: bool, done: bool, live: bool)
    requires
        lines || (w.parent_live && live && !w.sub_done && !done),
    ensures
        ({
            let t = watched(w, now, lines, done, live);
            !((!t.parent_live || t.sub_done) && since(t.quiet_since_ms, now) >= DRAIN_QUIET_MS)
        }),
{
}

/// Why the stream of a subagent ended.
pub fn watch_reason(started: bool) -> (r: &'static str)
    ensures
        r@ == if started {
            "subagent ended"@
        } else {
            "subagent never started"@
        },
{
    if started {
        "subagent ended"
    } else {
        "subagent never started"
    }
}

/// What is known of a session whose worker does not answer.
#[derive(Debug)]
pub enum Lookup {
    Unknown,
    /// It is over.
    Over { status: SessionStatus, has_journal: bool },
    /// It is said to be live, at this socket if it is known.
    Live { worker_sock: Option<String> },
}

/// What is done about a session whose worker does not answer.
#[derive(Debug)]
pub enum BridgeStep {
    /// The browser is told that the session ended, and why.
    Ended(String),
    /// The journal is replayed.
    Replay,
    /// The connection is closed without a word, for the browser to try again.
    Close,
    /// The worker is tried again, at this socket.
    Retry(String),
}

/// How long a worker that does not answer is waited for, in milliseconds.
pub const UNREACHABLE_WAIT_MS: u64 = 20000;

/// Whether a worker that does not answer was waited for long enough.
pub fn bridge_expired(elapsed_ms: u64) -> (r: bool)
    ensures
        r == (elapsed_ms >= UNREACHABLE_WAIT_MS),
{
    elapsed_ms >= UNREACHABLE_WAIT_MS
}

/// What is done about a session whose worker does not answer: one that is over is
/// replayed where it has a journal, one that is live is waited for until `expired`,
/// and only where there is nothing to show is it said to have ended.
pub fn bridge_step(lookup: Lookup, error: &str, sock: String, expired: bool) -> (r: BridgeStep)
    ensures
        match lookup {
            Lookup::Unknown => r matches BridgeStep::Ended(m) && m@ == "worker unreachable: "@
                + error@,
            Lookup::Over { status, has_journal } => if has_journal {
                r is Replay
            } else {
                r matches BridgeStep::Ended(m) && m@ == "session "@ + end_word(status)
            },
            Lookup::Live { worker_sock } => if expired {
                r is Close
            } else {
                r matches BridgeStep::Retry(s) && s == match worker_sock {
                    Some(w) => w,
                    None => sock,
                }
            },
        },
{
    match lookup {
        Lookup::Unknown => {
            let mut m = "worker unreachable: ".to_owned();
            m.push_str(error);
            BridgeStep::Ended(m)
        },
        Lookup::Over { status, has_journal } => {
            if has_journal {
                BridgeStep::Replay
            } else {
                let mut m = "session ".to_owned();
                m.push_str(status_word(status));
                BridgeStep::Ended(m)
            }
        },
        Lookup::Live { worker_sock } => {
            if expired {
                BridgeStep::Close
            } else {
                match worker_sock {
                    Some(w) => BridgeStep::Retry(w),
                    None => BridgeStep::Retry(sock),
                }
            }
        },
    }
}

// ---------------------------------------------------------------------------
// Who is let in
// ---------------------------------------------------------------------------

/// What a request to watch comes to.
#[derive(Debug, Clone, Copy, PartialEq, Eq, Structural)]
pub enum Admission {
    /// It does not show the token.
    Unauthorized,
    NoSuchSession,
    BadSubagent,
    Admitted,
}

/// Whether a session may be watched: by whoever shows the token, where there is one.
pub fn let_in(authed: bool, known: bool) -> (r: Admission)
    ensures
        r == if !authed {
            Admission::Unauthorized
        } else if !known {
            Admission::NoSuchSession
        } else {
            Admission::Admitted
        },
{
    if !authed {
        Admission::Unauthorized
    } else if !known {
        Admission::NoSuchSession
    } else {
        Admission::Admitted
    }
}

/// Whether a subagent of a session may be watched: as the session itself, and under an id
/// that cannot lead elsewhere.
pub fn let_in_subagent(authed: bool, known: bool, sub: &str) -> (r: Admission)
    ensures
        r == if !authed {
            Admission::Unauthorized
        } else if !known {
            Admission::NoSuchSession
        } else if sub@.len() == 0 || contains(sub@, "/"@) || contains(sub@, ".."@) {
            Admission::BadSubagent
        } else {
            Admission::Admitted
        },
{
    match let_in(authed, known) {
        Admission::Admitted => if valid_subagent(sub) {
            Admission::Admitted
        } else {
            Admission::BadSubagent
        },
        refused => refused,
    }
}

/// The journal of a subagent, below the project of the session that it belongs to.
pub fn subagent_journal(sub: &str) -> (r: String)
    ensures
        r@ == ".cowboy/sessions/"@ + sub@ + "/events.jsonl"@,
{
    let mut out = ".cowboy/sessions/".to_owned();
    out.push_str(sub);
    out.push_str("/events.jsonl");
    out
}

/// What has been read is its lines, one for each newline byte, of the bytes in front of it
/// since the newline before, also where there are none; what follows the last newline is
/// held.
pub proof fn lines_end_at_newlines(bytes: Seq<u8>, n: int) -> (ps: Seq<int>)
    requires
        0 <= n <= bytes.len(),
    ensures
        ascending(ps, n),
        forall|i: int| 0 <= i < n ==> (#[trigger] ps.contains(i) <==> bytes[i] == 10),
        ({
            let t = tailed(Tailed { lines: seq![], partial: seq![] }, bytes, n);
            &&& t.lines == Seq::new(
                ps.len(),
                |k: int|
                    bytes.subrange(
                        if k == 0 {
                            0
                        } else {
                            ps[k - 1] + 1
                        },
                        ps[k],
                    ),
            )
            &&& t.partial == bytes.subrange(
                if ps.len() == 0 {
                    0
                } else {
                    ps[ps.len() - 1] + 1
                },
                n,
            )
        }),
    decreases n,
{
    if n == 0 {
        let ps: Seq<int> = seq![];
        let t = tailed(Tailed { lines: seq![], partial: seq![] }, bytes, n);
        assert(t.partial =~= bytes.subrange(0, 0));
        assert(t.lines =~= Seq::new(
            ps.len(),
            |k: int|
                bytes.subrange(
                    if k == 0 {
                        0
                    } else {
                        ps[k - 1] + 1
                    },
                    ps[k],
                ),
        ));
        ps
    } else {
        let before = lines_end_at_newlines(bytes, n - 1);
        lemma_one_more(before, n - 1);
        let from = if before.len() == 0 {
            0
        } else {
            before[before.len() - 1] + 1
        };
        let t = tailed(Tailed { lines: seq![], partial: seq![] }, bytes, n);
        if bytes[n - 1] == 10 {
            let ps = before.push(n - 1);
            assert(t.lines =~= Seq::new(
                ps.len(),
                |k: int|
                    bytes.subrange(
                        if k == 0 {
                            0
                        } else {
                            ps[k - 1] + 1
                        },
                        ps[k],
                    ),
            ));
            assert(t.partial =~= bytes.subrange(n, n));
            ps
        } else {
            assert(t.partial =~= bytes.subrange(from, n));
            before
        }
    }
}

/// A stream sends a frame for every record from the one asked for on, each with its number
/// and in order, and for none before.
pub proof fn frames_begin_where_asked(
    s: Stream,
    ls: Seq<Vec<u8>>,
    known: Seq<Option<String>>,
    n: int,
) -> (js: Seq<int>)
    requires
        0 <= n <= ls.len() == known.len(),
    ensures
        ascending(js, n),
        forall|i: int| 0 <= i < n ==> (#[trigger] js.contains(i) <==> s.next + i >= s.since),
        wanted_frames(s, ls, known, n) == Seq::new(
            js.len(),
            |k: int|
                frame_of(
                    (s.next + js[k]) as nat,
                    normal_json(record(ls[js[k]]@)),
                    crate::grep::opt(known[js[k]]),
                ),
        ),
    decreases n,
{
    if n == 0 {
        let js: Seq<int> = seq![];
        assert(wanted_frames(s, ls, known, n) =~= Seq::new(
            js.len(),
            |k: int|
                frame_of(
                    (s.next + js[k]) as nat,
                    normal_json(record(ls[js[k]]@)),
                    crate::grep::opt(known[js[k]]),
                ),
        ));
        js
    } else {
        let before = frames_begin_where_asked(s, ls, known, n - 1);
        lemma_one_more(before, n - 1);
        if s.next + n - 1 >= s.since {
            let js = before.push(n - 1);
            assert(wanted_frames(s, ls, known, n) =~= Seq::new(
                js.len(),
                |k: int|
                    frame_of(
                        (s.next + js[k]) as nat,
                        normal_json(record(ls[js[k]]@)),
                        crate::grep::opt(known[js[k]]),
                    ),
            ));
            js
        } else {
            before
        }
    }
}

/// A record is its line without the carriage return that may end it; a frame is the one
/// that is known, without the white space behind it, or the record's event with its
/// number, or a notice where the record cannot be read.
pub proof fn records_become_frames(
    line: Seq<u8>,
    seq: nat,
    event: Option<Seq<char>>,
    known: Option<Seq<char>>,
)
    ensures
        record(line.push(13)) == line,
        line.len() == 0 || line.last() != 13 ==> record(line) == line,
        known matches Some(k) ==> frame_of(seq, event, known) == trim_end(k),
        known is None ==> frame_of(seq, event, known) == "{\"event\":{\"event\":"@ + (match event {
            Some(e) => e,
            None => "{\"notice\":\"(unreadable journal line)\"}"@,
        }) + ",\"seq\":"@ + dec(seq) + "}}"@,
{
    assert(line.push(13).drop_last() =~= line);
}

/// A watch never forgets that what it watches was done, nor that the session above is gone;
/// it asks after that session no more often than it should, and is quiet since the last
/// line.
pub proof fn watches_remember(w: Watch, now: u64, lines: bool, done: bool, live: bool)
    ensures
        ({
            let t = watched(w, now, lines, done, live);
            &&& t.sub_done <==> w.sub_done || done
            &&& !w.parent_live ==> !t.parent_live
            &&& now < w.last_check_ms + PARENT_RECHECK_MS ==> t.parent_live == w.parent_live
                && t.last_check_ms == w.last_check_ms
            &&& w.parent_live && now >= w.last_check_ms + PARENT_RECHECK_MS ==> t.parent_live
                == live && t.last_check_ms == now
            &&& lines ==> t.quiet_since_ms == now
            &&& !lines ==> t.quiet_since_ms == w.quiet_since_ms
        }),
{
}

} // verus!
