//! One advance of a plan: the workstreams that are ready are launched one after the
//! other, each with a worktree and then a session, and what cannot be launched is
//! passed over with a line that says why.

use crate::ranch::{find_ws, has_ws, lemma_find_ws, position, Ranch, Workstream, WorkstreamStatus};
use crate::roundup::{advance_lines, advance_summary, branch_name, ids_with, launched, pick_ready,
    review_lines, settle, settled_status, skip_line, skip_text, Launch, Started};
use crate::text::{push_text, strs};
use crate::words::dec;
use vstd::prelude::*;

verus! {

broadcast use vstd::string::group_string_axioms;

/// What is asked for next.
#[derive(Debug)]
pub enum Ask {
    /// A worktree for a workstream, on this branch.
    Worktree { workstream: String, branch: String },
    /// A session for a workstream, in the worktree that was made.
    Session { workstream: String, path: String },
    /// Nothing more: every workstream that was ready has been dealt with.
    Nothing,
}

/// What a request came to.
#[derive(Debug)]
pub enum Reply {
    Worktree { path: String, branch: String },
    Started(String),
    /// The worktree is in use.
    LeaseDenied,
    Refused(String),
    /// Something that answers no such request.
    Other,
}

/// An advance under way.
#[derive(Debug)]
pub struct Advance {
    ranch: Ranch,
    ready: Vec<String>,
    at: usize,
    tree: Option<(String, String)>,
    log: Vec<String>,
    started: Vec<Started>,
}

/// How far an advance is: the plan, the workstreams to launch and how many of them are
/// dealt with, the worktree (and its branch) of the one at hand, the lines so far, and
/// the launches so far.
pub struct Progress {
    pub ranch: Ranch,
    pub ready: Seq<Seq<char>>,
    pub at: int,
    pub tree: Option<(Seq<char>, Seq<char>)>,
    pub log: Seq<Seq<char>>,
    pub started: Seq<Started>,
}

impl View for Advance {
    type V = Progress;

    closed spec fn view(&self) -> Progress {
        Progress {
            ranch: self.ranch,
            ready: strs(self.ready@),
            at: self.at as int,
            tree: match self.tree {
                Some(t) => Some((t.0@, t.1@)),
                None => None,
            },
            log: strs(self.log@),
            started: self.started@,
        }
    }
}

/// An advance never loses its place, and only launches what the plan has.
pub open spec fn sound(s: Progress) -> bool {
    &&& 0 <= s.at <= s.ready.len()
    &&& s.tree is Some ==> s.at < s.ready.len()
    &&& forall|i: int|
        0 <= i < s.ready.len() ==> has_ws(s.ranch.workstreams@, #[trigger] s.ready[i])
}

/// The lines on the workstreams whose sessions ended, among the first `n`, each with the
/// number of artifacts promoted; what the plan does not have is passed over.
pub open spec fn review_texts(ranch: Ranch, ended: Seq<(String, usize)>, n: int) -> Seq<Seq<char>>
    decreases n,
{
    if n <= 0 {
        seq![]
    } else if has_ws(ranch.workstreams@, ended[n - 1].0@) {
        review_texts(ranch, ended, n - 1) + seq![
            ended[n - 1].0@ + " finished a first attempt — promoted "@ + dec(
                ended[n - 1].1 as nat,
            ) + " artifact(s) for review"@,
            "  attach with `cowboy ranch attach "@ + ranch.id@ + " "@ + ended[n - 1].0@
                + "`, then `/accept` in-session (or `cowboy ranch accept "@ + ranch.id@ + " "@
                + ended[n - 1].0@ + "`) to sign off and unblock dependents"@,
        ]
    } else {
        review_texts(ranch, ended, n - 1)
    }
}

/// The plan with a workstream running: in this session, on this branch, in this
/// worktree. Nothing else of it differs.
pub open spec fn with_running(
    before: Ranch,
    after: Ranch,
    ws: Seq<char>,
    session: Seq<char>,
    branch: Seq<char>,
    path: Seq<char>,
) -> bool {
    &&& after == (Ranch { workstreams: after.workstreams, ..before })
    &&& find_ws(before.workstreams@, ws, 0) matches Some(i) && {
        let w = after.workstreams@[i];
        &&& after.workstreams@ == before.workstreams@.update(i, w)
        &&& w == (Workstream {
            status: WorkstreamStatus::Running,
            session_id: w.session_id,
            branch: w.branch,
            worktree_path: w.worktree_path,
            ..before.workstreams@[i]
        })
        &&& w.session_id is Some && (w.session_id->0)@ == session
        &&& w.branch is Some && (w.branch->0)@ == branch
        &&& w.worktree_path is Some && (w.worktree_path->0)@ == path
    }
}

/// A reply answers what was asked for.
pub open spec fn expected(s: Progress, r: Reply) -> bool {
    s.at < s.ready.len() && match r {
        Reply::Worktree { .. } => s.tree is None,
        Reply::Started(_) => s.tree is Some,
        Reply::LeaseDenied => s.tree is Some,
        Reply::Refused(_) => true,
        Reply::Other => false,
    }
}

/// The advance goes on after a workstream that was not launched.
pub open spec fn passed_over(s: Progress, t: Progress, why: Launch) -> bool {
    t == (Progress {
        at: s.at + 1,
        tree: None,
        log: s.log.push(skip_text(s.ready[s.at], why)),
        ..s
    })
}

/// How an advance goes on after a reply.
pub open spec fn went_on(s: Progress, r: Reply, t: Progress) -> bool {
    match r {
        Reply::Worktree { path, branch } => t == (Progress {
            tree: Some((path@, branch@)),
            ..s
        }),
        Reply::Started(session) => {
            &&& t == (Progress {
                ranch: t.ranch,
                at: s.at + 1,
                tree: None,
                started: t.started,
                ..s
            })
            &&& with_running(
                s.ranch,
                t.ranch,
                s.ready[s.at],
                session@,
                (s.tree->0).1,
                (s.tree->0).0,
            )
            &&& t.started.len() == s.started.len() + 1
            &&& t.started.drop_last() == s.started
            &&& t.started.last().workstream@ == s.ready[s.at]
            &&& t.started.last().session@ == session@
            &&& t.started.last().branch@ == (s.tree->0).1
        },
        Reply::LeaseDenied => passed_over(s, t, Launch::InUse),
        Reply::Refused(m) => passed_over(
            s,
            t,
            if s.tree is None {
                Launch::NoWorktree(m)
            } else {
                Launch::Refused(m)
            },
        ),
        Reply::Other => false,
    }
}

impl Advance {
    #[verifier::type_invariant]
    spec fn inv(self) -> bool {
        sound(self@)
    }

    /// An advance of a plan whose readiness has been computed, after the sessions of
    /// `ended` were found to be over.
    pub fn new(ranch: Ranch, ended: &Vec<(String, usize)>) -> (r: Advance)
        ensures
            sound(r@),
            r@.ranch == ranch,
            r@.ready == ids_with(
                ranch.workstreams@,
                WorkstreamStatus::Ready,
                ranch.workstreams@.len() as int,
            ),
            r@.at == 0,
            r@.tree is None,
            r@.log == review_texts(ranch, ended@, ended@.len() as int),
            r@.started.len() == 0,
    {
        let mut log: Vec<String> = Vec::new();
        let mut i: usize = 0;
        assert(strs(log@) =~= seq![]);
        while i < ended.len()
            invariant
                i <= ended@.len(),
                strs(log@) == review_texts(ranch, ended@, i as int),
            decreases ended.len() - i,
        {
            if position(&ranch.workstreams, &ended[i].0).is_some() {
                let mut lines = review_lines(&ranch.id, &ended[i].0, ended[i].1);
                let ghost before = log@;
                let ghost more = lines@;
                log.append(&mut lines);
                assert(strs(log@) =~= strs(before) + strs(more));
            }
            i = i + 1;
        }
        let ready = pick_ready(&ranch);
        proof {
            lemma_ids_are_there(
                ranch.workstreams@,
                WorkstreamStatus::Ready,
                ranch.workstreams@.len() as int,
            );
        }
        Advance { ranch, ready, at: 0, tree: None, log, started: Vec::new() }
    }

    /// What is asked for next: a worktree for the next workstream that is ready, or a
    /// session in the worktree that was made for it.
    pub fn ask(&self) -> (r: Ask)
        ensures
            match r {
                Ask::Nothing => self@.at == self@.ready.len(),
                Ask::Worktree { workstream, branch } => {
                    &&& self@.at < self@.ready.len()
                    &&& self@.tree is None
                    &&& workstream@ == self@.ready[self@.at]
                    &&& branch@ == "cowboy/"@ + self@.ranch.id@ + "-"@ + workstream@
                },
                Ask::Session { workstream, path } => {
                    &&& self@.at < self@.ready.len()
                    &&& self@.tree is Some
                    &&& workstream@ == self@.ready[self@.at]
                    &&& path@ == (self@.tree->0).0
                },
            },
    {
        proof {
            use_type_invariant(self);
        }
        if self.at >= self.ready.len() {
            return Ask::Nothing;
        }
        let workstream = self.ready[self.at].clone();
        match &self.tree {
            None => {
                let branch = branch_name(&self.ranch.id, &workstream);
                Ask::Worktree { workstream, branch }
            },
            Some(t) => Ask::Session { workstream, path: t.0.clone() },
        }
    }

    /// Goes on after a reply. One that answers nothing that was asked ends the advance,
    /// `shown` being what it looked like.
    pub fn reply(self, r: Reply, shown: &str) -> (out: Result<Advance, String>)
        ensures
            out is Ok <==> expected(self@, r),
            out is Ok ==> sound((out->Ok_0)@) && went_on(self@, r, (out->Ok_0)@),
            out is Err ==> out->Err_0@ == "unexpected daemon response: "@ + shown@,
    {
        proof {
            use_type_invariant(&self);
        }
        let ghost before = self@;
        let Advance { ranch, ready, at, tree, log, started } = self;
        let mut ranch = ranch;
        let mut log = log;
        let mut started = started;
        if at < ready.len() {
            assert(ready@[at as int]@ == before.ready[before.at]);
            match (tree, r) {
                (None, Reply::Worktree { path, branch }) => {
                    return Ok(
                        Advance { ranch, ready, at, tree: Some((path, branch)), log, started },
                    );
                },
                (None, Reply::Refused(m)) => {
                    push_text(&mut log, skip_line(&ready[at], &Launch::NoWorktree(m)));
                    return Ok(Advance { ranch, ready, at: at + 1, tree: None, log, started });
                },
                (Some(_), Reply::Refused(m)) => {
                    push_text(&mut log, skip_line(&ready[at], &Launch::Refused(m)));
                    return Ok(Advance { ranch, ready, at: at + 1, tree: None, log, started });
                },
                (Some(_), Reply::LeaseDenied) => {
                    push_text(&mut log, skip_line(&ready[at], &Launch::InUse));
                    return Ok(Advance { ranch, ready, at: at + 1, tree: None, log, started });
                },
                (Some((path, branch)), Reply::Started(session)) => {
                    let entry = Started {
                        workstream: ready[at].clone(),
                        session: session.clone(),
                        branch: branch.clone(),
                    };
                    let ghost ws = before.ready[before.at];
                    proof {
                        lemma_find_ws(ranch.workstreams@, ws, 0);
                        assert(has_ws(ranch.workstreams@, ws));
                    }
                    launched(&mut ranch, &ready[at], session, branch, path);
                    started.push(entry);
                    proof {
                        assert(started@.drop_last() =~= before.started);
                        lemma_running_keeps_ids(before.ranch, ranch, ws);
                    }
                    return Ok(Advance { ranch, ready, at: at + 1, tree: None, log, started });
                },
                _ => {},
            }
        }
        let mut msg = "unexpected daemon response: ".to_owned();
        msg.push_str(shown);
        Err(msg)
    }

    /// Ends an advance at `now_ms`: the plan as it stands, and all that is said of the
    /// advance. `all_done` says whether every workstream counts as done.
    pub fn finish(self, all_done: bool, now_ms: u64) -> (r: (Ranch, Vec<String>))
        ensures
            r.0 == (Ranch {
                status: settled_status(
                    self@.ranch.workstreams@,
                    all_done,
                    self@.ranch.status,
                ),
                updated_ms: now_ms,
                ..self@.ranch
            }),
            strs(r.1@) == self@.log + advance_lines(r.0, self@.started),
    {
        let Advance { ranch, ready, at, tree, log, started } = self;
        let mut ranch = ranch;
        let mut log = log;
        settle(&mut ranch, all_done, now_ms);
        let mut lines = advance_summary(&ranch, &started);
        let ghost before = log@;
        let ghost more = lines@;
        log.append(&mut lines);
        assert(strs(log@) =~= strs(before) + strs(more));
        (ranch, log)
    }
}

/// What is listed by status is in the plan.
proof fn lemma_ids_are_there(ws: Seq<Workstream>, s: WorkstreamStatus, n: int)
    requires
        n <= ws.len(),
    ensures
        forall|i: int|
            0 <= i < ids_with(ws, s, n).len() ==> has_ws(ws, #[trigger] ids_with(ws, s, n)[i]),
    decreases n,
{
    if n > 0 {
        let before = ids_with(ws, s, n - 1);
        lemma_ids_are_there(ws, s, n - 1);
        assert(has_ws(ws, ws[n - 1].id@));
        assert forall|i: int| 0 <= i < ids_with(ws, s, n).len() implies has_ws(
            ws,
            #[trigger] ids_with(ws, s, n)[i],
        ) by {
            if i < before.len() {
                assert(ids_with(ws, s, n)[i] == before[i]);
            }
        }
    }
}

/// Launching a workstream renames none.
proof fn lemma_running_keeps_ids(before: Ranch, after: Ranch, ws: Seq<char>)
    requires
        find_ws(before.workstreams@, ws, 0) matches Some(i) && after.workstreams@
            == before.workstreams@.update(i, after.workstreams@[i]) && after.workstreams@[i].id
            == before.workstreams@[i].id,
    ensures
        forall|id: Seq<char>|
            has_ws(before.workstreams@, id) ==> #[trigger] has_ws(after.workstreams@, id),
{
    lemma_find_ws(before.workstreams@, ws, 0);
    assert forall|id: Seq<char>| has_ws(before.workstreams@, id) implies #[trigger] has_ws(
        after.workstreams@,
        id,
    ) by {
        let k = choose|k: int|
            0 <= k < before.workstreams@.len() && (#[trigger] before.workstreams@[k]).id@ == id;
        assert(after.workstreams@[k].id@ == id);
    }
}

// ---------------------------------------------------------------------------
// Laws
// ---------------------------------------------------------------------------

/// How many replies are still to come, at most.
pub open spec fn to_come(s: Progress) -> int {
    2 * (s.ready.len() - s.at) - (if s.tree is Some {
        1int
    } else {
        0
    })
}

/// Every reply brings an advance nearer to its end: it asks at most twice for each
/// workstream that was ready.
pub proof fn advances_end(s: Progress, r: Reply, t: Progress)
    requires
        sound(s),
        expected(s, r),
        went_on(s, r, t),
    ensures
        0 <= to_come(t) < to_come(s) <= 2 * s.ready.len(),
{
}

/// Each workstream that was ready is either launched or passed over with one line:
/// when it has been dealt with, there is one launch more or one line more.
pub proof fn none_is_forgotten(s: Progress, r: Reply, t: Progress)
    requires
        sound(s),
        expected(s, r),
        went_on(s, r, t),
    ensures
        t.at - s.at == (t.started.len() - s.started.len()) + (t.log.len() - s.log.len()),
        t.ready == s.ready,
{
}

/// An advance completes nothing: only a sign-off does.
pub proof fn advancing_never_completes(s: Progress, r: Reply, t: Progress, k: int)
    requires
        sound(s),
        expected(s, r),
        went_on(s, r, t),
        0 <= k < s.ranch.workstreams@.len(),
        s.ranch.workstreams@[k].status != WorkstreamStatus::Complete,
    ensures
        t.ranch.workstreams@[k].status != WorkstreamStatus::Complete,
{
    lemma_find_ws(s.ranch.workstreams@, s.ready[s.at], 0);
}

/// A reply on one workstream leaves every other one as it was.
pub proof fn the_others_stay(s: Progress, r: Reply, t: Progress, k: int)
    requires
        sound(s),
        expected(s, r),
        went_on(s, r, t),
        0 <= k < s.ranch.workstreams@.len(),
        s.ranch.workstreams@[k].id@ != s.ready[s.at],
    ensures
        t.ranch.workstreams@.len() == s.ranch.workstreams@.len(),
        t.ranch.workstreams@[k] == s.ranch.workstreams@[k],
{
    lemma_find_ws(s.ranch.workstreams@, s.ready[s.at], 0);
}

/// A session that was started is noted: its workstream runs in it, on the branch and in
/// the worktree that were made, and the launch is on the list.
pub proof fn launched_work_runs(s: Progress, session: String, t: Progress)
    requires
        sound(s),
        expected(s, Reply::Started(session)),
        went_on(s, Reply::Started(session), t),
    ensures
        exists|k: int|
            {
                &&& 0 <= k < t.ranch.workstreams@.len()
                &&& (#[trigger] t.ranch.workstreams@[k]).id@ == s.ready[s.at]
                &&& t.ranch.workstreams@[k].status == WorkstreamStatus::Running
                &&& t.ranch.workstreams@[k].session_id matches Some(x) && x@ == session@
                &&& t.ranch.workstreams@[k].branch matches Some(x) && x@ == (s.tree->0).1
                &&& t.ranch.workstreams@[k].worktree_path matches Some(x) && x@ == (s.tree->0).0
            },
        t.started.len() == s.started.len() + 1,
        t.started.last().workstream@ == s.ready[s.at],
        t.started.last().session@ == session@,
        t.log == s.log,
{
    lemma_find_ws(s.ranch.workstreams@, s.ready[s.at], 0);
    let i = find_ws(s.ranch.workstreams@, s.ready[s.at], 0)->0;
    assert(t.ranch.workstreams@[i].id@ == s.ready[s.at]);
}

/// A workstream that cannot be launched is passed over and said to be: nothing of the plan
/// changes, nothing is started, and the line names the workstream and the reason.
pub proof fn refused_work_is_passed_over(s: Progress, r: Reply, t: Progress)
    requires
        sound(s),
        expected(s, r),
        went_on(s, r, t),
        r is LeaseDenied || r is Refused,
    ensures
        t.ranch == s.ranch,
        t.started == s.started,
        t.at == s.at + 1,
        t.log.len() == s.log.len() + 1,
        t.log.drop_last() == s.log,
        t.log.last() == "skip "@ + s.ready[s.at] + (match r {
            Reply::Refused(m) => if s.tree is None {
                ": worktree: "@ + m@
            } else {
                ": "@ + m@
            },
            _ => ": worktree already in use"@,
        }),
{
    assert(t.log.drop_last() =~= s.log);
    let name = "skip "@ + s.ready[s.at];
    match r {
        Reply::Refused(m) => {
            assert(name + ": worktree: "@ + m@ =~= name + (": worktree: "@ + m@));
            assert(name + ": "@ + m@ =~= name + (": "@ + m@));
        },
        _ => {},
    }
}

} // verus!
