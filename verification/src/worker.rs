//! The process behind a session: which message it turns to next, which credentials it
//! hands on, and what it says of it.

use crate::approvals::opt_text;
use crate::choice::{ascending, lemma_one_more};
use crate::control::{decision, ApprovalScope, Reply, Verdict};
use crate::ranch::SessionStatus;
use crate::secrets::{asks_first, EnvGrant, FileGrant};
use crate::text::{push_text, strs};
use crate::words::{dec, decimal, decimal_size};
use vstd::prelude::*;

verus! {

broadcast use vstd::string::group_string_axioms;

/// What a worker is started with.
#[derive(Debug)]
pub struct WorkerArgs {
    pub root: String,
    pub task: Option<String>,
    /// Where it listens, if not at the usual place.
    pub sock: Option<String>,
    /// The session's number, where it is given.
    pub id: Option<String>,
    /// Whether the daemon is told of it.
    pub register: bool,
    /// The session that it goes on with.
    pub resume: Option<String>,
}

// ---------------------------------------------------------------------------
// Messages and turns
// ---------------------------------------------------------------------------

/// What an interruption asks for.
#[derive(Debug, Clone, Copy, PartialEq, Eq, Structural)]
pub enum InterruptKind {
    Turn,
    Instruct,
    End,
}

/// What happens to a worker.
#[derive(Debug)]
pub enum Event {
    Message(String),
    SwitchModel(String),
    Interrupt(InterruptKind),
    End,
    /// Nobody can send anything any more.
    Closed,
    /// Anything else that a client sends.
    Other,
    /// The turn that was running is over.
    TurnDone,
}

/// What is done once a turn that was cancelled is over.
#[derive(Debug)]
pub enum Afterwards {
    /// The worker ends.
    End,
    /// It forgets what was waiting.
    Idle,
    /// It takes another model.
    Switch(String),
}

/// What a worker is doing.
#[derive(Debug)]
pub enum Phase {
    /// It waits for something to do.
    Idle,
    /// A turn runs.
    Running,
    /// A turn was cancelled and is not over yet.
    Stopping(Afterwards),
    Ended,
}

/// What a worker does.
#[derive(Debug)]
pub enum Action {
    StartTurn(String),
    /// Cancels the turn that runs, and says so or not.
    Cancel { notice: bool },
    SwitchModel(String),
    /// The session is over.
    Finish,
}

/// A worker: what it is doing, and the messages that wait.
#[derive(Debug)]
pub struct Server {
    pub queue: Vec<String>,
    pub phase: Phase,
}

/// What a worker is doing, its texts taken as such.
pub enum PhaseText {
    Idle,
    Running,
    Ending,
    Forgetting,
    Switching(Seq<char>),
    Ended,
}

/// What a worker does, its texts taken as such.
pub enum ActionText {
    StartTurn(Seq<char>),
    Cancel(bool),
    SwitchModel(Seq<char>),
    Finish,
}

/// A worker, its texts taken as such.
pub struct ServerText {
    pub queue: Seq<Seq<char>>,
    pub phase: PhaseText,
}

/// What a worker is doing, its texts taken as such.
pub open spec fn phase_text(p: Phase) -> PhaseText {
    match p {
        Phase::Idle => PhaseText::Idle,
        Phase::Running => PhaseText::Running,
        Phase::Stopping(Afterwards::End) => PhaseText::Ending,
        Phase::Stopping(Afterwards::Idle) => PhaseText::Forgetting,
        Phase::Stopping(Afterwards::Switch(n)) => PhaseText::Switching(n@),
        Phase::Ended => PhaseText::Ended,
    }
}

/// What a worker does, its texts taken as such.
pub open spec fn action_text(a: Action) -> ActionText {
    match a {
        Action::StartTurn(m) => ActionText::StartTurn(m@),
        Action::Cancel { notice } => ActionText::Cancel(notice),
        Action::SwitchModel(n) => ActionText::SwitchModel(n@),
        Action::Finish => ActionText::Finish,
    }
}

/// What a worker does, its texts taken as such.
pub open spec fn action_texts(v: Seq<Action>) -> Seq<ActionText> {
    Seq::new(v.len(), |i: int| action_text(v[i]))
}

impl Server {
    /// A worker, its texts taken as such.
    pub open spec fn texts(&self) -> ServerText {
        ServerText { queue: strs(self.queue@), phase: phase_text(self.phase) }
    }
}

/// Whether something can happen to a worker: while a turn is being stopped only its end is
/// waited for, and nothing happens to one that has ended.
pub open spec fn can_happen(p: PhaseText, e: Event) -> bool {
    match p {
        PhaseText::Idle => !(e is TurnDone),
        PhaseText::Running => true,
        PhaseText::Ended => false,
        _ => e is TurnDone,
    }
}

/// A worker that turns to the first message that waits, or waits for one.
pub open spec fn turn_to_next(queue: Seq<Seq<char>>) -> (ServerText, Seq<ActionText>) {
    if queue.len() == 0 {
        (ServerText { queue, phase: PhaseText::Idle }, seq![])
    } else {
        (
            ServerText { queue: queue.drop_first(), phase: PhaseText::Running },
            seq![ActionText::StartTurn(queue[0])],
        )
    }
}

/// What becomes of a worker when something happens, and what it does.
pub open spec fn after(s: ServerText, e: Event) -> (ServerText, Seq<ActionText>) {
    match s.phase {
        PhaseText::Idle => match e {
            Event::Message(m) => turn_to_next(s.queue.push(m@)),
            Event::SwitchModel(n) => (s, seq![ActionText::SwitchModel(n@)]),
            Event::End | Event::Closed => (
                ServerText { phase: PhaseText::Ended, ..s },
                seq![ActionText::Finish],
            ),
            _ => (s, seq![]),
        },
        PhaseText::Running => match e {
            Event::Message(m) => (ServerText { queue: s.queue.push(m@), ..s }, seq![]),
            Event::SwitchModel(n) => (
                ServerText { phase: PhaseText::Switching(n@), ..s },
                seq![ActionText::Cancel(false)],
            ),
            Event::Interrupt(InterruptKind::End) => (
                ServerText { phase: PhaseText::Ending, ..s },
                seq![ActionText::Cancel(true)],
            ),
            Event::Interrupt(_) => (
                ServerText { phase: PhaseText::Forgetting, ..s },
                seq![ActionText::Cancel(true)],
            ),
            Event::End | Event::Closed => (
                ServerText { phase: PhaseText::Ending, ..s },
                seq![ActionText::Cancel(false)],
            ),
            Event::TurnDone => turn_to_next(s.queue),
            Event::Other => (s, seq![]),
        },
        PhaseText::Ending => (
            ServerText { phase: PhaseText::Ended, ..s },
            seq![ActionText::Finish],
        ),
        PhaseText::Forgetting => turn_to_next(seq![]),
        PhaseText::Switching(n) => {
            let (t, actions) = turn_to_next(s.queue);
            (t, seq![ActionText::SwitchModel(n)] + actions)
        },
        PhaseText::Ended => (s, seq![]),
    }
}

fn push_action(out: &mut Vec<Action>, a: Action)
    ensures
        action_texts(final(out)@) == action_texts(old(out)@).push(action_text(a)),
{
    out.push(a);
    assert(action_texts(out@) =~= action_texts(old(out)@).push(action_text(a)));
}

impl Server {
    /// A worker that has not started: its task, where it has one, waits.
    pub fn new(task: Option<String>) -> (r: (Server, Vec<Action>))
        ensures
            (r.0.texts(), action_texts(r.1@)) == turn_to_next(
                match task {
                    Some(t) => seq![t@],
                    None => seq![],
                },
            ),
    {
        let mut queue: Vec<String> = Vec::new();
        assert(strs(queue@) =~= seq![]);
        match task {
            Some(t) => {
                push_text(&mut queue, t);
                assert(strs(queue@) =~= seq![t@]);
            },
            None => {},
        }
        let mut s = Server { queue, phase: Phase::Idle };
        let mut out: Vec<Action> = Vec::new();
        assert(action_texts(out@) =~= seq![]);
        let ghost before = out@;
        s.next(&mut out);
        assert(action_texts(before) + turn_to_next(strs(queue@)).1 =~= turn_to_next(
            strs(queue@),
        ).1);
        (s, out)
    }

    fn next(&mut self, out: &mut Vec<Action>)
        ensures
            final(self).texts() == turn_to_next(strs(old(self).queue@)).0,
            action_texts(final(out)@) == action_texts(old(out)@) + turn_to_next(
                strs(old(self).queue@),
            ).1,
    {
        let ghost q = strs(self.queue@);
        let ghost before = action_texts(out@);
        if self.queue.len() == 0 {
            self.phase = Phase::Idle;
            assert(q.len() == 0);
            assert(action_texts(out@) =~= before + seq![]);
        } else {
            let m = self.queue.remove(0);
            assert(q[0] == m@);
            assert(strs(self.queue@) =~= q.drop_first());
            self.phase = Phase::Running;
            push_action(out, Action::StartTurn(m));
            assert(action_texts(out@) =~= before + seq![ActionText::StartTurn(q[0])]);
        }
    }

    /// What a worker does when something happens.
    pub fn step(&mut self, e: Event) -> (r: Vec<Action>)
        requires
            can_happen(old(self).texts().phase, e),
        ensures
            (final(self).texts(), action_texts(r@)) == after(old(self).texts(), e),
    {
        let mut out: Vec<Action> = Vec::new();
        let ghost start = self.texts();
        assert(action_texts(out@) =~= seq![]);
        let mut phase = Phase::Ended;
        std::mem::swap(&mut self.phase, &mut phase);
        match phase {
            Phase::Idle => {
                match e {
                    Event::Message(m) => {
                        push_text(&mut self.queue, m);
                        self.next(&mut out);
                        assert(action_texts(out@) =~= turn_to_next(start.queue.push(m@)).1);
                    },
                    Event::SwitchModel(n) => {
                        self.phase = Phase::Idle;
                        push_action(&mut out, Action::SwitchModel(n));
                        assert(action_texts(out@) =~= seq![ActionText::SwitchModel(n@)]);
                    },
                    Event::End | Event::Closed => {
                        push_action(&mut out, Action::Finish);
                        assert(action_texts(out@) =~= seq![ActionText::Finish]);
                    },
                    _ => {
                        self.phase = Phase::Idle;
                    },
                }
            },
            Phase::Running => {
                match e {
                    Event::Message(m) => {
                        self.phase = Phase::Running;
                        push_text(&mut self.queue, m);
                    },
                    Event::SwitchModel(n) => {
                        self.phase = Phase::Stopping(Afterwards::Switch(n));
                        push_action(&mut out, Action::Cancel { notice: false });
                        assert(action_texts(out@) =~= seq![ActionText::Cancel(false)]);
                    },
                    Event::Interrupt(kind) => {
                        self.phase = match kind {
                            InterruptKind::End => Phase::Stopping(Afterwards::End),
                            _ => Phase::Stopping(Afterwards::Idle),
                        };
                        push_action(&mut out, Action::Cancel { notice: true });
                        assert(action_texts(out@) =~= seq![ActionText::Cancel(true)]);
                    },
                    Event::End | Event::Closed => {
                        self.phase = Phase::Stopping(Afterwards::End);
                        push_action(&mut out, Action::Cancel { notice: false });
                        assert(action_texts(out@) =~= seq![ActionText::Cancel(false)]);
                    },
                    Event::TurnDone => {
                        self.next(&mut out);
                        assert(action_texts(out@) =~= turn_to_next(start.queue).1);
                    },
                    Event::Other => {
                        self.phase = Phase::Running;
                    },
                }
            },
            Phase::Stopping(afterwards) => match afterwards {
                Afterwards::End => {
                    push_action(&mut out, Action::Finish);
                    assert(action_texts(out@) =~= seq![ActionText::Finish]);
                },
                Afterwards::Idle => {
                    self.queue = Vec::new();
                    assert(strs(self.queue@) =~= seq![]);
                    self.next(&mut out);
                    assert(action_texts(out@) =~= turn_to_next(seq![]).1);
                },
                Afterwards::Switch(n) => {
                    push_action(&mut out, Action::SwitchModel(n));
                    assert(action_texts(out@) =~= seq![ActionText::SwitchModel(n@)]);
                    self.next(&mut out);
                },
            },
            Phase::Ended => {},
        }
        out
    }
}

// ---------------------------------------------------------------------------
// What the daemon is told
// ---------------------------------------------------------------------------

/// The number of a session: that under which it is logged, or else the one given, or
/// else one made from the time and the process.
pub fn session_id(logged: &Option<String>, given: &Option<String>, now_ms: u64, pid: u32) -> (r: String)
    ensures
        r@ == match (*logged, *given) {
            (Some(l), _) => l@,
            (None, Some(g)) => g@,
            (None, None) => dec(now_ms as nat) + "-"@ + dec(pid as nat),
        },
{
    match (logged, given) {
        (Some(l), _) => l.clone(),
        (None, Some(g)) => g.clone(),
        (None, None) => {
            let mut out = decimal(now_ms as u128);
            out.push_str("-");
            out.push_str(&decimal(pid as u128));
            out
        },
    }
}

/// The name of a session's socket.
pub fn socket_name(id: &str) -> (r: String)
    ensures
        r@ == "s-"@ + id@ + ".sock"@,
{
    let mut out = "s-".to_owned();
    out.push_str(id);
    out.push_str(".sock");
    out
}

/// The status that a worker reports of itself: blocked where there is a reason.
pub fn live_status(blocked_reason: &Option<String>) -> (r: SessionStatus)
    ensures
        r == if *blocked_reason is Some {
            SessionStatus::Blocked
        } else {
            SessionStatus::Running
        },
{
    if blocked_reason.is_some() {
        SessionStatus::Blocked
    } else {
        SessionStatus::Running
    }
}

/// What the daemon answered.
#[derive(Debug, Clone, Copy, PartialEq, Eq, Structural)]
pub enum DaemonReply {
    Fine,
    /// It knows of no such session.
    Refused,
    /// It cannot be reached.
    Unreachable,
}

/// Whether a worker tells the daemon of itself again: where the daemon has forgotten it.
/// One that cannot be reached is asked again later.
pub fn registers_again(reply: DaemonReply) -> (r: bool)
    ensures
        r == (reply == DaemonReply::Refused),
{
    match reply {
        DaemonReply::Refused => true,
        _ => false,
    }
}

// ---------------------------------------------------------------------------
// Credentials that need an answer
// ---------------------------------------------------------------------------

/// A variable that is granted, and whether the host has it.
#[derive(Debug)]
pub struct GatedEnv {
    pub grant: EnvGrant,
    pub present: bool,
}

/// A file that is granted, and whether the host has it.
#[derive(Debug)]
pub struct GatedFile {
    pub grant: FileGrant,
    pub present: bool,
}

impl GatedEnv {
    /// An answer is needed: the grant says so, and the host has it.
    pub open spec fn pends(&self) -> bool {
        asks_first(opt_text(self.grant.approval)) && self.present
    }

    fn is_pending(&self) -> (r: bool)
        ensures
            r == self.pends(),
    {
        self.grant.needs_approval() && self.present
    }
}

impl GatedFile {
    /// An answer is needed: the grant says so, and the host has it.
    pub open spec fn pends(&self) -> bool {
        asks_first(opt_text(self.grant.approval)) && self.present
    }

    fn is_pending(&self) -> (r: bool)
        ensures
            r == self.pends(),
    {
        self.grant.needs_approval() && self.present
    }
}

/// Whether anything needs an answer.
pub fn any_pending(envs: &Vec<GatedEnv>, files: &Vec<GatedFile>) -> (r: bool)
    ensures
        r == ((exists|i: int|
            0 <= i < envs@.len() && (#[trigger] envs@[i]).pends()) || (
        exists|i: int|
            0 <= i < files@.len() && (#[trigger] files@[i]).pends())),
{
    let mut i: usize = 0;
    while i < envs.len()
        invariant
            i <= envs@.len(),
            forall|k: int|
                0 <= k < i ==> !((#[trigger] envs@[k]).pends()),
        decreases envs.len() - i,
    {
        if envs[i].is_pending() {
            return true;
        }
        i = i + 1;
    }
    let mut k: usize = 0;
    while k < files.len()
        invariant
            k <= files@.len(),
            forall|j: int|
                0 <= j < k ==> !((#[trigger] files@[j]).pends()),
        decreases files.len() - k,
    {
        if files[k].is_pending() {
            return true;
        }
        k = k + 1;
    }
    false
}

/// Where the value of a variable comes from: a command, or else a variable of the host.
pub open spec fn source_words(e: EnvGrant) -> Seq<char> {
    match e.source_command {
        Some(c) => "`"@ + c@ + "`"@,
        None => "$"@ + e.source_env@,
    }
}

fn source_of(e: &EnvGrant) -> (r: String)
    ensures
        r@ == source_words(*e),
{
    match &e.source_command {
        Some(c) => {
            let mut out = "`".to_owned();
            out.push_str(c);
            out.push_str("`");
            out
        },
        None => {
            let mut out = "$".to_owned();
            out.push_str(&e.source_env);
            out
        },
    }
}

/// What is asked about a variable, where anything is.
pub fn env_question(e: &GatedEnv) -> (r: Option<String>)
    ensures
        match r {
            Some(q) => e.pends() && q@ == "credential: inject env "@ + e.grant.name@ + " (from "@
                + source_words(e.grant) + ") into the container?"@,
            None => !e.pends(),
        },
{
    if !e.is_pending() {
        return None;
    }
    let mut q = "credential: inject env ".to_owned();
    q.push_str(&e.grant.name);
    q.push_str(" (from ");
    q.push_str(&source_of(&e.grant));
    q.push_str(") into the container?");
    Some(q)
}

/// What is asked about a file, where anything is.
pub fn file_question(f: &GatedFile) -> (r: Option<String>)
    ensures
        match r {
            Some(q) => f.pends() && q@ == "credential: mount "@
                + f.grant.source@ + " → "@ + f.grant.target@ + " ("@ + (if f.grant.read_only {
                "read-only"@
            } else {
                "writable"@
            }) + ") into the container?"@,
            None => !f.pends(),
        },
{
    if !f.is_pending() {
        return None;
    }
    let mut q = "credential: mount ".to_owned();
    q.push_str(&f.grant.source);
    q.push_str(" → ");
    q.push_str(&f.grant.target);
    q.push_str(" (");
    q.push_str(
        if f.grant.read_only {
            "read-only"
        } else {
            "writable"
        },
    );
    q.push_str(") into the container?");
    Some(q)
}

/// A grant is handed on: where nothing was asked, or where the answer was to allow it.
pub open spec fn handed_on(asked: bool, answer: Option<Verdict>) -> bool {
    !asked || answer == Some(Verdict::Allow)
}

/// Those of the first `n` variables that are handed on.
pub open spec fn kept_envs(all: Seq<GatedEnv>, answers: Seq<Option<Verdict>>, n: int) -> Seq<EnvGrant>
    decreases n,
{
    if n <= 0 {
        seq![]
    } else if handed_on(all[n - 1].pends(), answers[n - 1]) {
        kept_envs(all, answers, n - 1).push(all[n - 1].grant)
    } else {
        kept_envs(all, answers, n - 1)
    }
}

/// What is said of those of the first `n` variables that are not.
pub open spec fn env_notices(all: Seq<GatedEnv>, answers: Seq<Option<Verdict>>, n: int) -> Seq<
    Seq<char>,
>
    decreases n,
{
    if n <= 0 {
        seq![]
    } else if handed_on(all[n - 1].pends(), answers[n - 1]) {
        env_notices(all, answers, n - 1)
    } else {
        env_notices(all, answers, n - 1).push(
            "credential denied: env "@ + all[n - 1].grant.name@ + " not injected"@,
        )
    }
}

/// Those of the first `n` files that are handed on.
pub open spec fn kept_files(
    all: Seq<GatedFile>,
    answers: Seq<Option<Verdict>>,
    n: int,
) -> Seq<FileGrant>
    decreases n,
{
    if n <= 0 {
        seq![]
    } else if handed_on(all[n - 1].pends(), answers[n - 1]) {
        kept_files(all, answers, n - 1).push(all[n - 1].grant)
    } else {
        kept_files(all, answers, n - 1)
    }
}

/// What is said of those of the first `n` files that are not.
pub open spec fn file_notices(all: Seq<GatedFile>, answers: Seq<Option<Verdict>>, n: int) -> Seq<
    Seq<char>,
>
    decreases n,
{
    if n <= 0 {
        seq![]
    } else if handed_on(all[n - 1].pends(), answers[n - 1]) {
        file_notices(all, answers, n - 1)
    } else {
        file_notices(all, answers, n - 1).push(
            "credential denied: "@ + all[n - 1].grant.source@ + " not mounted"@,
        )
    }
}

fn keeps(asked: bool, answer: Option<Verdict>) -> (r: bool)
    ensures
        r == handed_on(asked, answer),
{
    if !asked {
        return true;
    }
    match answer {
        Some(Verdict::Allow) => true,
        _ => false,
    }
}

/// The variables that are handed on, in their order, and what is said of the others.
/// `answers` holds what was answered to each that was asked about; no answer is a
/// refusal.
pub fn gate_env(all: Vec<GatedEnv>, answers: &Vec<Option<Verdict>>) -> (r: (
    Vec<EnvGrant>,
    Vec<String>,
))
    requires
        answers.len() == all.len(),
    ensures
        r.0@ == kept_envs(all@, answers@, all@.len() as int),
        strs(r.1@) == env_notices(all@, answers@, all@.len() as int),
{
    let mut kept: Vec<EnvGrant> = Vec::new();
    let mut notices: Vec<String> = Vec::new();
    let ghost start = all@;
    let mut rest = all;
    let n = rest.len();
    let mut i: usize = 0;
    assert(strs(notices@) =~= seq![]);
    while i < n
        invariant
            i <= n,
            n == start.len(),
            answers@.len() == n,
            rest@ =~= start.skip(i as int),
            kept@ == kept_envs(start, answers@, i as int),
            strs(notices@) == env_notices(start, answers@, i as int),
        decreases n - i,
    {
        let e = rest.remove(0);
        assert(e == start[i as int]);
        assert(rest@ =~= start.skip(i + 1));
        if keeps(e.is_pending(), answers[i]) {
            kept.push(e.grant);
        } else {
            let mut line = "credential denied: env ".to_owned();
            line.push_str(&e.grant.name);
            line.push_str(" not injected");
            push_text(&mut notices, line);
        }
        i = i + 1;
    }
    (kept, notices)
}

/// The files that are handed on, in their order, and what is said of the others.
pub fn gate_files(all: Vec<GatedFile>, answers: &Vec<Option<Verdict>>) -> (r: (
    Vec<FileGrant>,
    Vec<String>,
))
    requires
        answers.len() == all.len(),
    ensures
        r.0@ == kept_files(all@, answers@, all@.len() as int),
        strs(r.1@) == file_notices(all@, answers@, all@.len() as int),
{
    let mut kept: Vec<FileGrant> = Vec::new();
    let mut notices: Vec<String> = Vec::new();
    let ghost start = all@;
    let mut rest = all;
    let n = rest.len();
    let mut i: usize = 0;
    assert(strs(notices@) =~= seq![]);
    while i < n
        invariant
            i <= n,
            n == start.len(),
            answers@.len() == n,
            rest@ =~= start.skip(i as int),
            kept@ == kept_files(start, answers@, i as int),
            strs(notices@) == file_notices(start, answers@, i as int),
        decreases n - i,
    {
        let f = rest.remove(0);
        assert(f == start[i as int]);
        assert(rest@ =~= start.skip(i + 1));
        if keeps(f.is_pending(), answers[i]) {
            kept.push(f.grant);
        } else {
            let mut line = "credential denied: ".to_owned();
            line.push_str(&f.grant.source);
            line.push_str(" not mounted");
            push_text(&mut notices, line);
        }
        i = i + 1;
    }
    (kept, notices)
}

// ---------------------------------------------------------------------------
// Answers about the network
// ---------------------------------------------------------------------------

/// Whether an answer is kept for sessions to come.
pub fn is_kept(verdict: Verdict, scope: ApprovalScope) -> (r: bool)
    ensures
        r == (verdict == Verdict::Allow && (scope == ApprovalScope::Project || scope
            == ApprovalScope::Global)),
{
    match (verdict, scope) {
        (Verdict::Allow, ApprovalScope::Project | ApprovalScope::Global) => true,
        _ => false,
    }
}

/// A word for an answer.
pub open spec fn verdict_word(v: Verdict) -> Seq<char> {
    match v {
        Verdict::Allow => "allow"@,
        Verdict::Deny => "deny"@,
        Verdict::Ask => "ask"@,
    }
}

/// A word for an answer.
pub fn verdict_str(v: Verdict) -> (r: &'static str)
    ensures
        r@ == verdict_word(v),
{
    match v {
        Verdict::Allow => "allow",
        Verdict::Deny => "deny",
        Verdict::Ask => "ask",
    }
}

/// What is shown of an answer about a destination.
pub fn network_line(verdict: Verdict, destination: &str, reason: &str) -> (r: String)
    ensures
        r@ == verdict_word(verdict) + " "@ + destination@ + " ("@ + reason@ + ")"@,
{
    let mut out = verdict_str(verdict).to_owned();
    out.push_str(" ");
    out.push_str(destination);
    out.push_str(" (");
    out.push_str(reason);
    out.push_str(")");
    out
}

/// What a question about the network came to: the answer, whether it is kept for
/// sessions to come, why it was given, and what is shown of it.
#[derive(Debug)]
pub struct Settled {
    pub verdict: Verdict,
    pub scope: ApprovalScope,
    pub kept: bool,
    pub reason: &'static str,
    pub shown: Option<String>,
}

/// The answer is the user's, or no where there is none; and it is kept where the user
/// allowed it for the project or for all of them.
pub open spec fn settled(asked: Option<Reply>, r: Settled) -> bool {
    &&& (r.verdict, r.scope) == match asked {
        Some(Reply::Answered(v, s)) => (v, s),
        _ => (Verdict::Deny, ApprovalScope::Once),
    }
    &&& r.kept == (r.verdict == Verdict::Allow && (r.scope == ApprovalScope::Project || r.scope
        == ApprovalScope::Global))
}

/// Settles a question about a destination with what the user replied. Where nobody is
/// there to be asked at all, the answer is no, and nothing is shown.
pub fn settle(destination: &str, asked: Option<Reply>) -> (r: Settled)
    ensures
        settled(asked, r),
        asked is Some ==> r.reason@ == "user decision"@ && r.shown is Some && (r.shown->0)@
            == verdict_word(r.verdict) + " "@ + destination@ + " ("@ + "you decided"@ + ")"@,
        asked is None ==> r.reason@ == "fail-closed (no approver)"@ && r.shown is None,
{
    match asked {
        Some(reply) => {
            let (verdict, scope) = decision(reply);
            Settled {
                verdict,
                scope,
                kept: is_kept(verdict, scope),
                reason: "user decision",
                shown: Some(network_line(verdict, destination, "you decided")),
            }
        },
        None => Settled {
            verdict: Verdict::Deny,
            scope: ApprovalScope::Once,
            kept: false,
            reason: "fail-closed (no approver)",
            shown: None,
        },
    }
}

/// Nothing is let through, and nothing is kept, that the user did not allow.
pub proof fn answers_fail_closed(asked: Option<Reply>, r: Settled)
    requires
        settled(asked, r),
        r.verdict == Verdict::Allow || r.kept,
    ensures
        asked matches Some(Reply::Answered(v, _)) && v == Verdict::Allow,
{
}

/// What is said where a session is gone on with: how much of it there is, or why it cannot
/// be.
pub fn resume_notice(id: &str, loaded: &Result<usize, String>) -> (r: String)
    ensures
        r@ == match *loaded {
            Ok(n) => "continuing session "@ + id@ + " ("@ + dec(n as nat) + " prior messages)"@,
            Err(why) => "could not resume "@ + id@ + ": "@ + why@,
        },
{
    match loaded {
        Ok(n) => {
            let mut out = "continuing session ".to_owned();
            out.push_str(id);
            out.push_str(" (");
            out.push_str(&decimal_size(*n));
            out.push_str(" prior messages)");
            out
        },
        Err(why) => {
            let mut out = "could not resume ".to_owned();
            out.push_str(id);
            out.push_str(": ");
            out.push_str(why);
            out
        },
    }
}

/// What is said where another model was asked for.
pub fn switch_notice(name: &str, error: &Option<String>) -> (r: String)
    ensures
        r@ == match *error {
            None => "switched to model "@ + name@,
            Some(why) => "model switch failed: "@ + why@,
        },
{
    match error {
        None => {
            let mut out = "switched to model ".to_owned();
            out.push_str(name);
            out
        },
        Some(why) => {
            let mut out = "model switch failed: ".to_owned();
            out.push_str(why);
            out
        },
    }
}

// ---------------------------------------------------------------------------
// Laws
// ---------------------------------------------------------------------------

/// The turns that actions start.
pub open spec fn turns(v: Seq<ActionText>) -> Seq<Seq<char>>
    decreases v.len(),
{
    if v.len() == 0 {
        seq![]
    } else {
        match v.last() {
            ActionText::StartTurn(m) => turns(v.drop_last()).push(m),
            _ => turns(v.drop_last()),
        }
    }
}

/// The message that an event brings.
pub open spec fn brought(e: Event) -> Seq<Seq<char>> {
    match e {
        Event::Message(m) => seq![m@],
        _ => seq![],
    }
}

/// Where a worker is after the first `n` of some events.
pub open spec fn state_after(s: ServerText, es: Seq<Event>, n: int) -> ServerText
    decreases n,
{
    if n <= 0 {
        s
    } else {
        after(state_after(s, es, n - 1), es[n - 1]).0
    }
}

/// The turns started over the first `n` events.
pub open spec fn turns_over(s: ServerText, es: Seq<Event>, n: int) -> Seq<Seq<char>>
    decreases n,
{
    if n <= 0 {
        seq![]
    } else {
        turns_over(s, es, n - 1) + turns(after(state_after(s, es, n - 1), es[n - 1]).1)
    }
}

/// The messages brought by the first `n` events.
pub open spec fn brought_over(es: Seq<Event>, n: int) -> Seq<Seq<char>>
    decreases n,
{
    if n <= 0 {
        seq![]
    } else {
        brought_over(es, n - 1) + brought(es[n - 1])
    }
}

proof fn lemma_turns_of_next(queue: Seq<Seq<char>>)
    ensures
        turns(turn_to_next(queue).1) + turn_to_next(queue).0.queue == queue,
        turns(turn_to_next(queue).1).len() <= 1,
{
    let (t, actions) = turn_to_next(queue);
    reveal_with_fuel(turns, 3);
    if queue.len() > 0 {
        assert(actions.drop_last() =~= seq![]);
        assert(turns(actions) =~= seq![queue[0]]);
        assert(turns(actions) + t.queue =~= queue);
    } else {
        assert(turns(actions) + t.queue =~= queue);
    }
}

proof fn lemma_step_keeps_messages(s: ServerText, e: Event)
    requires
        can_happen(s.phase, e),
        s.phase is Idle || s.phase is Running || s.phase is Switching,
        !(e is Interrupt && s.phase is Running) && !(e is End) && !(e is Closed),
        s.phase is Idle ==> s.queue.len() == 0,
    ensures
        ({
            let (t, actions) = after(s, e);
            &&& turns(actions) + t.queue == s.queue + brought(e)
            &&& turns(actions).len() <= 1
            &&& t.phase is Idle || t.phase is Running || t.phase is Switching
            &&& t.phase is Idle ==> t.queue.len() == 0
        }),
{
    let (t, actions) = after(s, e);
    reveal_with_fuel(turns, 3);
    match s.phase {
        PhaseText::Idle => match e {
            Event::Message(m) => {
                lemma_turns_of_next(s.queue.push(m@));
                assert(s.queue.push(m@) =~= s.queue + brought(e));
            },
            Event::SwitchModel(n) => {
                assert(actions.drop_last() =~= seq![]);
                assert(turns(actions) =~= seq![]);
                assert(turns(actions) + t.queue =~= s.queue + brought(e));
            },
            _ => {
                assert(turns(actions) + t.queue =~= s.queue + brought(e));
            },
        },
        PhaseText::Running => match e {
            Event::TurnDone => {
                lemma_turns_of_next(s.queue);
                assert(s.queue =~= s.queue + brought(e));
            },
            Event::SwitchModel(n) => {
                assert(actions.drop_last() =~= seq![]);
                assert(turns(actions) =~= seq![]);
                assert(turns(actions) + t.queue =~= s.queue + brought(e));
            },
            Event::Message(m) => {
                assert(turns(actions) + t.queue =~= s.queue + brought(e));
            },
            _ => {
                assert(turns(actions) + t.queue =~= s.queue + brought(e));
            },
        },
        PhaseText::Switching(n) => {
            let (t2, more) = turn_to_next(s.queue);
            lemma_turns_of_next(s.queue);
            let first = seq![ActionText::SwitchModel(n)];
            assert(first.drop_last() =~= seq![]);
            assert(turns(first) =~= seq![]);
            if more.len() == 0 {
                assert(actions =~= first);
                assert(turns(actions) =~= turns(more));
            } else {
                assert(more.drop_last() =~= seq![]);
                assert(actions.last() == more.last());
                assert(actions.drop_last() =~= first);
                assert(turns(actions) =~= turns(more));
            }
            assert(turns(actions) + t.queue =~= s.queue + brought(e));
        },
        _ => {},
    }
}

/// As long as nobody interrupts or ends the session, every message gets a turn, in the
/// order in which the messages came, and none gets two: the turns started and the
/// messages that wait are together what waited at first and what came since. A change of
/// model loses nothing.
pub proof fn messages_run_in_order(s: ServerText, es: Seq<Event>, n: int)
    requires
        0 <= n <= es.len(),
        s.phase is Idle || s.phase is Running || s.phase is Switching,
        s.phase is Idle ==> s.queue.len() == 0,
        forall|k: int|
            0 <= k < n ==> can_happen(state_after(s, es, k).phase, #[trigger] es[k]),
        forall|k: int|
            0 <= k < n ==> !((#[trigger] es[k]) is Interrupt) && !(es[k] is End) && !(
            es[k] is Closed),
    ensures
        turns_over(s, es, n) + state_after(s, es, n).queue == s.queue + brought_over(es, n),
        ({
            let p = state_after(s, es, n);
            &&& p.phase is Idle || p.phase is Running || p.phase is Switching
            &&& p.phase is Idle ==> p.queue.len() == 0
        }),
    decreases n,
{
    if n > 0 {
        messages_run_in_order(s, es, n - 1);
        let p = state_after(s, es, n - 1);
        let e = es[n - 1];
        assert(can_happen(p.phase, e));
        lemma_step_keeps_messages(p, e);
        let (t, actions) = after(p, e);
        let a = turns_over(s, es, n - 1);
        let b = turns(actions);
        assert((a + b) + t.queue =~= a + (b + t.queue));
        assert(a + (p.queue + brought(e)) =~= (a + p.queue) + brought(e));
        assert((s.queue + brought_over(es, n - 1)) + brought(e) =~= s.queue + (brought_over(
            es,
            n - 1,
        ) + brought(e)));
    } else {
        assert(turns_over(s, es, 0) + s.queue =~= s.queue);
        assert(s.queue + brought_over(es, 0) =~= s.queue);
    }
}

/// Once the end is asked for no turn starts any more: what follows the turn that runs, if
/// one does, is the end of the session.
pub proof fn ending_starts_nothing(s: ServerText, e: Event)
    requires
        can_happen(s.phase, e),
        e is End || e is Closed || e == Event::Interrupt(InterruptKind::End),
        s.phase is Idle ==> !(e is Interrupt),
    ensures
        ({
            let (t, actions) = after(s, e);
            &&& turns(actions).len() == 0
            &&& t.phase is Ended || t.phase is Ending
            &&& t.phase is Ending ==> after(t, Event::TurnDone) == (
                ServerText { phase: PhaseText::Ended, ..t },
                seq![ActionText::Finish],
            )
        }),
{
    reveal_with_fuel(turns, 3);
    let (t, actions) = after(s, e);
    assert(actions.drop_last() =~= seq![]);
}

/// A credential that needs an answer and that the host has is handed on only where the
/// answer was to allow it.
pub proof fn credentials_fail_closed(all: Seq<GatedFile>, answers: Seq<Option<Verdict>>, i: int)
    requires
        0 <= i < all.len(),
        answers.len() == all.len(),
        all[i].pends(),
        answers[i] != Some(Verdict::Allow),
    ensures
        kept_files(all, answers, i + 1) == kept_files(all, answers, i),
        file_notices(all, answers, i + 1).len() == file_notices(all, answers, i).len() + 1,
{
}

/// A variable that needs an answer and that the host has is handed on only where the
/// answer was to allow it.
pub proof fn variables_fail_closed(all: Seq<GatedEnv>, answers: Seq<Option<Verdict>>, i: int)
    requires
        0 <= i < all.len(),
        answers.len() == all.len(),
        all[i].pends(),
        answers[i] != Some(Verdict::Allow),
    ensures
        kept_envs(all, answers, i + 1) == kept_envs(all, answers, i),
        env_notices(all, answers, i + 1).len() == env_notices(all, answers, i).len() + 1,
{
}

/// An interrupt stops the turn that runs, with a notice, and starts nothing. Once that
/// turn is over the session ends where the end was asked for; else it waits for a
/// message, and what was queued is forgotten.
pub proof fn interrupts_forget_the_queue(s: ServerText, kind: InterruptKind)
    requires
        s.phase is Running,
    ensures
        ({
            let (t, actions) = after(s, Event::Interrupt(kind));
            let (u, more) = after(t, Event::TurnDone);
            &&& actions == seq![ActionText::Cancel(true)]
            &&& kind == InterruptKind::End ==> u.phase is Ended && more == seq![ActionText::Finish]
            &&& kind != InterruptKind::End ==> u.phase is Idle && u.queue.len() == 0 && more.len()
                == 0
        }),
{
}

/// A switch of the model while a turn runs stops that turn, without a notice, and keeps
/// what is queued: once the turn is over the model is switched, once, and then the first
/// message that was queued starts. Between turns the model is switched at once, and
/// nothing else happens.
pub proof fn switches_keep_the_queue(s: ServerText, name: String)
    ensures
        s.phase is Running ==> {
            let (t, actions) = after(s, Event::SwitchModel(name));
            let (u, more) = after(t, Event::TurnDone);
            &&& actions == seq![ActionText::Cancel(false)]
            &&& t.queue == s.queue
            &&& s.queue.len() == 0 ==> more == seq![ActionText::SwitchModel(name@)]
                && u.phase is Idle && u.queue.len() == 0
            &&& s.queue.len() > 0 ==> more == seq![
                ActionText::SwitchModel(name@),
                ActionText::StartTurn(s.queue[0]),
            ] && u.phase is Running && u.queue == s.queue.drop_first()
        },
        s.phase is Idle ==> after(s, Event::SwitchModel(name)) == (
            s,
            seq![ActionText::SwitchModel(name@)],
        ),
{
    if s.phase is Running {
        let (t, actions) = after(s, Event::SwitchModel(name));
        let (u, more) = after(t, Event::TurnDone);
        if s.queue.len() > 0 {
            assert(more =~= seq![
                ActionText::SwitchModel(name@),
                ActionText::StartTurn(s.queue[0]),
            ]);
        } else {
            assert(more =~= seq![ActionText::SwitchModel(name@)]);
        }
    }
}

/// A message starts a turn where none runs and none waits, and else waits behind the
/// others; a turn that is over makes room for the first that waits.
pub proof fn messages_wait_their_turn(s: ServerText, m: String)
    ensures
        s.phase is Idle && s.queue.len() == 0 ==> {
            let (t, actions) = after(s, Event::Message(m));
            t.phase is Running && t.queue.len() == 0 && actions == seq![ActionText::StartTurn(m@)]
        },
        s.phase is Running ==> {
            let (t, actions) = after(s, Event::Message(m));
            t.phase is Running && t.queue == s.queue.push(m@) && actions.len() == 0
        },
        s.phase is Running && s.queue.len() > 0 ==> {
            let (t, actions) = after(s, Event::TurnDone);
            t.phase is Running && t.queue == s.queue.drop_first() && actions == seq![
                ActionText::StartTurn(s.queue[0]),
            ]
        },
        s.phase is Running && s.queue.len() == 0 ==> {
            let (t, actions) = after(s, Event::TurnDone);
            t.phase is Idle && t.queue.len() == 0 && actions.len() == 0
        },
{
}

/// The variables that are handed on are those that need no answer, or that the host does
/// not have, or that were allowed: each of them, once, in their order. For each of the
/// others there is one notice.
pub proof fn allowed_variables_are_handed_on(
    all: Seq<GatedEnv>,
    answers: Seq<Option<Verdict>>,
    n: int,
) -> (js: Seq<int>)
    requires
        0 <= n <= all.len() == answers.len(),
    ensures
        ascending(js, n),
        forall|i: int|
            0 <= i < n ==> (#[trigger] js.contains(i) <==> opt_text(all[i].grant.approval) != Some(
                "required"@,
            ) || !all[i].present || answers[i] == Some(Verdict::Allow)),
        kept_envs(all, answers, n) == Seq::new(js.len(), |k: int| all[js[k]].grant),
        env_notices(all, answers, n).len() == n - js.len(),
    decreases n,
{
    if n == 0 {
        let js: Seq<int> = seq![];
        assert(kept_envs(all, answers, n) =~= Seq::new(js.len(), |k: int| all[js[k]].grant));
        js
    } else {
        let before = allowed_variables_are_handed_on(all, answers, n - 1);
        lemma_one_more(before, n - 1);
        if handed_on(all[n - 1].pends(), answers[n - 1]) {
            let js = before.push(n - 1);
            assert(kept_envs(all, answers, n) =~= Seq::new(js.len(), |k: int| all[js[k]].grant));
            js
        } else {
            before
        }
    }
}

/// The credentials that are handed on are those that need no answer, or that the host does
/// not have, or that were allowed: each of them, once, in their order. For each of the
/// others there is one notice.
pub proof fn allowed_credentials_are_handed_on(
    all: Seq<GatedFile>,
    answers: Seq<Option<Verdict>>,
    n: int,
) -> (js: Seq<int>)
    requires
        0 <= n <= all.len() == answers.len(),
    ensures
        ascending(js, n),
        forall|i: int|
            0 <= i < n ==> (#[trigger] js.contains(i) <==> opt_text(all[i].grant.approval) != Some(
                "required"@,
            ) || !all[i].present || answers[i] == Some(Verdict::Allow)),
        kept_files(all, answers, n) == Seq::new(js.len(), |k: int| all[js[k]].grant),
        file_notices(all, answers, n).len() == n - js.len(),
    decreases n,
{
    if n == 0 {
        let js: Seq<int> = seq![];
        assert(kept_files(all, answers, n) =~= Seq::new(js.len(), |k: int| all[js[k]].grant));
        js
    } else {
        let before = allowed_credentials_are_handed_on(all, answers, n - 1);
        lemma_one_more(before, n - 1);
        if handed_on(all[n - 1].pends(), answers[n - 1]) {
            let js = before.push(n - 1);
            assert(kept_files(all, answers, n) =~= Seq::new(js.len(), |k: int| all[js[k]].grant));
            js
        } else {
            before
        }
    }
}

/// An answer is taken as it is given, verdict and scope; whatever else comes of asking is
/// a refusal, for this once. It is kept exactly where it allows for the project or for
/// good.
pub proof fn answers_are_taken_as_given(asked: Option<Reply>, r: Settled)
    requires
        settled(asked, r),
    ensures
        asked matches Some(Reply::Answered(v, scope)) ==> r.verdict == v && r.scope == scope,
        !(asked matches Some(Reply::Answered(_, _))) ==> r.verdict == Verdict::Deny && r.scope
            == ApprovalScope::Once && !r.kept,
        r.kept <==> r.verdict == Verdict::Allow && (r.scope == ApprovalScope::Project || r.scope
            == ApprovalScope::Global),
{
}

} // verus!
