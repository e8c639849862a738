//! Advancing a plan: what a session's end means for its workstream, what can be
//! launched, how the plan as a whole stands, and how deep its dependencies go.

use crate::choice::{ascending, lemma_one_more};
use crate::ranch::{find_ws, no_such_workstream, no_workstream, position, Ranch, RanchStatus,
    SessionStatus, Workstream, WorkstreamStatus};
use crate::text::{push_text, strs};
use crate::words::{dec, decimal_size, join, joined};
use vstd::prelude::*;

verus! {

broadcast use vstd::string::group_string_axioms;

// ---------------------------------------------------------------------------
// Reconciling
// ---------------------------------------------------------------------------

/// The status of a session, of those at or after `from`.
pub open spec fn status_of(
    sessions: Seq<(String, SessionStatus)>,
    id: Seq<char>,
    from: int,
) -> Option<SessionStatus>
    decreases sessions.len() - from,
{
    if from < 0 || from >= sessions.len() {
        None
    } else if sessions[from].0@ == id {
        Some(sessions[from].1)
    } else {
        status_of(sessions, id, from + 1)
    }
}

/// The status of a session, if it is known.
pub fn session_status(sessions: &Vec<(String, SessionStatus)>, id: &str) -> (r: Option<
    SessionStatus,
>)
    ensures
        r == status_of(sessions@, id@, 0),
{
    let mut i: usize = 0;
    while i < sessions.len()
        invariant
            i <= sessions@.len(),
            status_of(sessions@, id@, 0) == status_of(sessions@, id@, i as int),
        decreases sessions.len() - i,
    {
        if crate::text::same(&sessions[i].0, id) {
            return Some(sessions[i].1);
        }
        i = i + 1;
    }
    None
}

/// A workstream whose session is under way.
pub open spec fn under_way(w: Workstream) -> bool {
    w.status == WorkstreamStatus::Running || w.status == WorkstreamStatus::Starting
}

/// What becomes of a workstream's status once its session is looked at: one that
/// ended waits for the user, one that failed or was lost has failed.
pub open spec fn reconciled_status(
    w: Workstream,
    sessions: Seq<(String, SessionStatus)>,
) -> WorkstreamStatus {
    if under_way(w) && w.session_id is Some {
        match status_of(sessions, (w.session_id->0)@, 0) {
            Some(SessionStatus::Completed) => WorkstreamStatus::WaitingForUser,
            Some(SessionStatus::Failed) => WorkstreamStatus::Failed,
            Some(SessionStatus::Stale) => WorkstreamStatus::Failed,
            _ => w.status,
        }
    } else {
        w.status
    }
}

/// A workstream after its session was looked at.
pub open spec fn reconciled(w: Workstream, sessions: Seq<(String, SessionStatus)>) -> Workstream {
    Workstream { status: reconciled_status(w, sessions), ..w }
}

/// The ids, among the first `n`, of those that now wait for the user to sign off.
pub open spec fn newly_waiting(
    ws: Seq<Workstream>,
    sessions: Seq<(String, SessionStatus)>,
    n: int,
) -> Seq<Seq<char>>
    decreases n,
{
    if n <= 0 {
        seq![]
    } else if under_way(ws[n - 1]) && reconciled_status(ws[n - 1], sessions)
        == WorkstreamStatus::WaitingForUser {
        newly_waiting(ws, sessions, n - 1).push(ws[n - 1].id@)
    } else {
        newly_waiting(ws, sessions, n - 1)
    }
}

/// Brings workstreams up to date with their sessions, and gives the ids of those that
/// now wait for a sign-off. Readiness is to be computed anew afterwards.
pub fn reconcile(ranch: &mut Ranch, sessions: &Vec<(String, SessionStatus)>) -> (r: Vec<String>)
    ensures
        *final(ranch) == (Ranch { workstreams: final(ranch).workstreams, ..*old(ranch) }),
        final(ranch).workstreams@.len() == old(ranch).workstreams@.len(),
        forall|i: int|
            0 <= i < old(ranch).workstreams@.len() ==> #[trigger] final(ranch).workstreams@[i]
                == reconciled(old(ranch).workstreams@[i], sessions@),
        strs(r@) == newly_waiting(
            old(ranch).workstreams@,
            sessions@,
            old(ranch).workstreams@.len() as int,
        ),
{
    let ghost all = ranch.workstreams@;
    let mut out: Vec<String> = Vec::new();
    let mut i: usize = 0;
    assert(strs(out@) =~= seq![]);
    while i < ranch.workstreams.len()
        invariant
            i <= ranch.workstreams@.len() == all.len(),
            all == old(ranch).workstreams@,
            *ranch == (Ranch { workstreams: ranch.workstreams, ..*old(ranch) }),
            forall|k: int|
                0 <= k < i ==> #[trigger] ranch.workstreams@[k] == reconciled(all[k], sessions@),
            forall|k: int| i <= k < all.len() ==> #[trigger] ranch.workstreams@[k] == all[k],
            strs(out@) == newly_waiting(all, sessions@, i as int),
        decreases ranch.workstreams.len() - i,
    {
        let status = ranch.workstreams[i].status;
        if status == WorkstreamStatus::Running || status == WorkstreamStatus::Starting {
            let found = match &ranch.workstreams[i].session_id {
                Some(sid) => session_status(sessions, sid),
                None => None,
            };
            match found {
                Some(SessionStatus::Completed) => {
                    let ghost before = strs(out@);
                    out.push(ranch.workstreams[i].id.clone());
                    assert(strs(out@) =~= before.push(all[i as int].id@));
                    ranch.workstreams[i].status = WorkstreamStatus::WaitingForUser;
                },
                Some(SessionStatus::Failed) | Some(SessionStatus::Stale) => {
                    ranch.workstreams[i].status = WorkstreamStatus::Failed;
                },
                _ => {},
            }
        }
        i = i + 1;
    }
    out
}

/// The ids of the workstreams with a status, among the first `n`.
pub open spec fn ids_with(ws: Seq<Workstream>, s: WorkstreamStatus, n: int) -> Seq<Seq<char>>
    decreases n,
{
    if n <= 0 {
        seq![]
    } else if ws[n - 1].status == s {
        ids_with(ws, s, n - 1).push(ws[n - 1].id@)
    } else {
        ids_with(ws, s, n - 1)
    }
}

/// The ids of the workstreams with a status, in the order of the plan.
pub fn with_status(ranch: &Ranch, s: WorkstreamStatus) -> (r: Vec<String>)
    ensures
        strs(r@) == ids_with(ranch.workstreams@, s, ranch.workstreams@.len() as int),
{
    let mut out: Vec<String> = Vec::new();
    let mut i: usize = 0;
    assert(strs(out@) =~= seq![]);
    while i < ranch.workstreams.len()
        invariant
            i <= ranch.workstreams@.len(),
            strs(out@) == ids_with(ranch.workstreams@, s, i as int),
        decreases ranch.workstreams.len() - i,
    {
        if ranch.workstreams[i].status == s {
            let ghost before = strs(out@);
            out.push(ranch.workstreams[i].id.clone());
            assert(strs(out@) =~= before.push(ranch.workstreams@[i as int].id@));
        }
        i = i + 1;
    }
    out
}

/// The ids of the workstreams that can be launched.
pub fn pick_ready(ranch: &Ranch) -> (r: Vec<String>)
    ensures
        strs(r@) == ids_with(
            ranch.workstreams@,
            WorkstreamStatus::Ready,
            ranch.workstreams@.len() as int,
        ),
{
    with_status(ranch, WorkstreamStatus::Ready)
}

// ---------------------------------------------------------------------------
// Launching
// ---------------------------------------------------------------------------

/// The branch that a workstream is worked on.
pub fn branch_name(ranch: &str, ws: &str) -> (r: String)
    ensures
        r@ == "cowboy/"@ + ranch@ + "-"@ + ws@,
{
    let mut out = "cowboy/".to_owned();
    out.push_str(ranch);
    out.push_str("-");
    out.push_str(ws);
    out
}

/// Notes that a workstream runs: in this session, on this branch, in this worktree.
pub fn launched(ranch: &mut Ranch, ws: &str, session: String, branch: String, path: String) -> (r:
    bool)
    ensures
        *final(ranch) == (Ranch { workstreams: final(ranch).workstreams, ..*old(ranch) }),
        match find_ws(old(ranch).workstreams@, ws@, 0) {
            None => !r && final(ranch).workstreams@ == old(ranch).workstreams@,
            Some(i) => r && final(ranch).workstreams@ == old(ranch).workstreams@.update(
                i,
                Workstream {
                    status: WorkstreamStatus::Running,
                    session_id: Some(session),
                    branch: Some(branch),
                    worktree_path: Some(path),
                    ..old(ranch).workstreams@[i]
                },
            ),
        },
{
    match position(&ranch.workstreams, ws) {
        None => false,
        Some(i) => {
            let ghost before = ranch.workstreams@;
            ranch.workstreams[i].status = WorkstreamStatus::Running;
            ranch.workstreams[i].session_id = Some(session);
            ranch.workstreams[i].branch = Some(branch);
            ranch.workstreams[i].worktree_path = Some(path);
            true
        },
    }
}

/// What a request to launch a workstream came to.
#[derive(Debug)]
pub enum Launch {
    /// No worktree could be made for it.
    NoWorktree(String),
    /// Its worktree is in use.
    InUse,
    /// It could not be started.
    Refused(String),
}

/// What is said of a workstream that was not launched.
pub open spec fn skip_text(ws: Seq<char>, why: Launch) -> Seq<char> {
    match why {
        Launch::NoWorktree(m) => "skip "@ + ws + ": worktree: "@ + m@,
        Launch::InUse => "skip "@ + ws + ": worktree already in use"@,
        Launch::Refused(m) => "skip "@ + ws + ": "@ + m@,
    }
}

/// What is said of a workstream that was not launched.
pub fn skip_line(ws: &str, why: &Launch) -> (r: String)
    ensures
        r@ == skip_text(ws@, *why),
{
    let mut out = "skip ".to_owned();
    out.push_str(ws);
    match why {
        Launch::NoWorktree(m) => {
            out.push_str(": worktree: ");
            out.push_str(m);
        },
        Launch::InUse => {
            out.push_str(": worktree already in use");
        },
        Launch::Refused(m) => {
            out.push_str(": ");
            out.push_str(m);
        },
    }
    out
}

/// What is said of a workstream whose session ended, `n` of its artifacts promoted.
pub fn review_lines(ranch: &str, ws: &str, n: usize) -> (r: Vec<String>)
    ensures
        strs(r@) == seq![
            ws@ + " finished a first attempt — promoted "@ + dec(n as nat)
                + " artifact(s) for review"@,
            "  attach with `cowboy ranch attach "@ + ranch@ + " "@ + ws@
                + "`, then `/accept` in-session (or `cowboy ranch accept "@ + ranch@ + " "@ + ws@
                + "`) to sign off and unblock dependents"@,
        ],
{
    let mut a = ws.to_owned();
    a.push_str(" finished a first attempt — promoted ");
    a.push_str(&decimal_size(n));
    a.push_str(" artifact(s) for review");
    let mut b = "  attach with `cowboy ranch attach ".to_owned();
    b.push_str(ranch);
    b.push_str(" ");
    b.push_str(ws);
    b.push_str("`, then `/accept` in-session (or `cowboy ranch accept ");
    b.push_str(ranch);
    b.push_str(" ");
    b.push_str(ws);
    b.push_str("`) to sign off and unblock dependents");
    let mut out: Vec<String> = Vec::new();
    out.push(a);
    out.push(b);
    assert(strs(out@) =~= seq![a@, b@]);
    out
}

// ---------------------------------------------------------------------------
// The plan as a whole
// ---------------------------------------------------------------------------

/// Some workstream has a status.
pub open spec fn some_with(ws: Seq<Workstream>, s: WorkstreamStatus) -> bool {
    exists|i: int| 0 <= i < ws.len() && (#[trigger] ws[i]).status == s
}

/// How the plan stands, `all_done` saying whether every workstream counts as done.
pub open spec fn settled_status(
    ws: Seq<Workstream>,
    all_done: bool,
    now: RanchStatus,
) -> RanchStatus {
    if ws.len() > 0 && all_done {
        RanchStatus::Complete
    } else if some_with(ws, WorkstreamStatus::Running) || some_with(
        ws,
        WorkstreamStatus::Starting,
    ) {
        RanchStatus::Running
    } else if some_with(ws, WorkstreamStatus::WaitingForUser) {
        RanchStatus::WaitingForUser
    } else {
        now
    }
}

fn any_with(ws: &Vec<Workstream>, s: WorkstreamStatus) -> (r: bool)
    ensures
        r == some_with(ws@, s),
{
    let mut i: usize = 0;
    while i < ws.len()
        invariant
            i <= ws@.len(),
            forall|k: int| 0 <= k < i ==> (#[trigger] ws@[k]).status != s,
        decreases ws.len() - i,
    {
        if ws[i].status == s {
            assert(ws@[i as int].status == s);
            return true;
        }
        i = i + 1;
    }
    false
}

/// Sets how the plan stands after an advance at `now_ms`.
pub fn settle(ranch: &mut Ranch, all_done: bool, now_ms: u64)
    ensures
        *final(ranch) == (Ranch {
            status: settled_status(old(ranch).workstreams@, all_done, old(ranch).status),
            updated_ms: now_ms,
            ..*old(ranch)
        }),
{
    if ranch.workstreams.len() > 0 && all_done {
        ranch.status = RanchStatus::Complete;
    } else if any_with(&ranch.workstreams, WorkstreamStatus::Running) || any_with(
        &ranch.workstreams,
        WorkstreamStatus::Starting,
    ) {
        ranch.status = RanchStatus::Running;
    } else if any_with(&ranch.workstreams, WorkstreamStatus::WaitingForUser) {
        ranch.status = RanchStatus::WaitingForUser;
    }
    ranch.updated_ms = now_ms;
}

/// A workstream that was launched, with its session and branch.
#[derive(Debug)]
pub struct Started {
    pub workstream: String,
    pub session: String,
    pub branch: String,
}

/// The line on one launch.
pub open spec fn started_line(s: Started) -> Seq<char> {
    "  "@ + s.workstream@ + "  → session "@ + s.session@ + "  on "@ + s.branch@
}

/// The lines on the launches.
pub open spec fn started_lines(started: Seq<Started>) -> Seq<Seq<char>> {
    if started.len() == 0 {
        seq!["nothing ready to start."@]
    } else {
        seq!["started "@ + dec(started.len()) + " workstream(s):"@] + Seq::new(
            started.len(),
            |i: int| started_line(started[i]),
        )
    }
}

/// The lines that end an advance: what was launched, what waits, what is blocked, and
/// whether the plan is complete.
pub open spec fn advance_lines(ranch: Ranch, started: Seq<Started>) -> Seq<Seq<char>> {
    let n = ranch.workstreams@.len() as int;
    let awaiting = ids_with(ranch.workstreams@, WorkstreamStatus::WaitingForUser, n);
    let blocked = ids_with(ranch.workstreams@, WorkstreamStatus::Blocked, n);
    let a = started_lines(started);
    let b = if awaiting.len() > 0 {
        a.push("awaiting sign-off: "@ + join(awaiting, ", "@))
    } else {
        a
    };
    let c = if blocked.len() > 0 {
        b.push("still blocked: "@ + join(blocked, ", "@)).push(
            "re-run `cowboy ranch start "@ + ranch.id@ + "` as workstreams complete."@,
        )
    } else {
        b
    };
    if ranch.status == RanchStatus::Complete {
        c.push("ranch complete 🎉"@)
    } else {
        c
    }
}

/// The lines that end an advance.
pub fn advance_summary(ranch: &Ranch, started: &Vec<Started>) -> (r: Vec<String>)
    ensures
        strs(r@) == advance_lines(*ranch, started@),
{
    let mut out: Vec<String> = Vec::new();
    assert(strs(out@) =~= seq![]);
    if started.len() == 0 {
        push_text(&mut out, "nothing ready to start.".to_owned());
        assert(strs(out@) =~= started_lines(started@));
    } else {
        let mut head = "started ".to_owned();
        head.push_str(&decimal_size(started.len()));
        head.push_str(" workstream(s):");
        let ghost h = head@;
        push_text(&mut out, head);
        let mut i: usize = 0;
        assert(strs(out@) =~= seq![h] + Seq::new(0, |k: int| started_line(started@[k])));
        while i < started.len()
            invariant
                i <= started@.len(),
                strs(out@) == seq![h] + Seq::new(i as nat, |k: int| started_line(started@[k])),
            decreases started.len() - i,
        {
            let mut line = "  ".to_owned();
            line.push_str(&started[i].workstream);
            line.push_str("  → session ");
            line.push_str(&started[i].session);
            line.push_str("  on ");
            line.push_str(&started[i].branch);
            let ghost before = strs(out@);
            push_text(&mut out, line);
            i = i + 1;
            assert(strs(out@) =~= seq![h] + Seq::new(
                i as nat,
                |k: int| started_line(started@[k]),
            ));
        }
    }
    let awaiting = with_status(ranch, WorkstreamStatus::WaitingForUser);
    assert(strs(awaiting@).len() == awaiting@.len());
    if awaiting.len() > 0 {
        let mut line = "awaiting sign-off: ".to_owned();
        line.push_str(&joined(&awaiting, ", "));
        push_text(&mut out, line);
    }
    let blocked = with_status(ranch, WorkstreamStatus::Blocked);
    assert(strs(blocked@).len() == blocked@.len());
    if blocked.len() > 0 {
        let mut line = "still blocked: ".to_owned();
        line.push_str(&joined(&blocked, ", "));
        push_text(&mut out, line);
        let mut again = "re-run `cowboy ranch start ".to_owned();
        again.push_str(&ranch.id);
        again.push_str("` as workstreams complete.");
        push_text(&mut out, again);
    }
    if ranch.status == RanchStatus::Complete {
        push_text(&mut out, "ranch complete 🎉".to_owned());
    }
    out
}

// ---------------------------------------------------------------------------
// Signing off
// ---------------------------------------------------------------------------

/// Marks a workstream complete: the one way by which a workstream becomes so.
pub fn mark_done(ranch: &mut Ranch, id: &str, workstream: &str) -> (r: Result<usize, String>)
    ensures
        *final(ranch) == (Ranch { workstreams: final(ranch).workstreams, ..*old(ranch) }),
        match find_ws(old(ranch).workstreams@, workstream@, 0) {
            None => {
                &&& r is Err
                &&& r->Err_0@ == no_workstream(workstream@, id@)
                &&& final(ranch).workstreams@ == old(ranch).workstreams@
            },
            Some(i) => {
                &&& r == Ok::<usize, String>(i as usize)
                &&& final(ranch).workstreams@ == old(ranch).workstreams@.update(
                    i,
                    Workstream {
                        status: WorkstreamStatus::Complete,
                        ..old(ranch).workstreams@[i]
                    },
                )
            },
        },
{
    match position(&ranch.workstreams, workstream) {
        None => Err(no_such_workstream(workstream, id)),
        Some(i) => {
            ranch.workstreams[i].status = WorkstreamStatus::Complete;
            Ok(i)
        },
    }
}

/// Sets how the plan stands after a sign-off at `now_ms`, `all_done` saying whether
/// every workstream counts as done.
pub fn close_if_done(ranch: &mut Ranch, all_done: bool, now_ms: u64)
    ensures
        *final(ranch) == (Ranch {
            status: if old(ranch).workstreams@.len() > 0 && all_done {
                RanchStatus::Complete
            } else {
                old(ranch).status
            },
            updated_ms: now_ms,
            ..*old(ranch)
        }),
{
    if ranch.workstreams.len() > 0 && all_done {
        ranch.status = RanchStatus::Complete;
    }
    ranch.updated_ms = now_ms;
}

/// What is said after a sign-off: what was promoted, what became ready, and whether
/// the plan is complete.
pub open spec fn sign_off_lines(
    ranch: Ranch,
    id: Seq<char>,
    workstream: Seq<char>,
    verb: Seq<char>,
    promoted: nat,
    newly: Seq<Seq<char>>,
) -> Seq<Seq<char>> {
    let a = seq![
        "✓ "@ + workstream + " "@ + verb + " — promoted "@ + dec(promoted) + " artifact(s)"@,
    ];
    let b = if newly.len() > 0 {
        a.push("newly ready: "@ + join(newly, ", "@)).push(
            "launch them with `cowboy ranch start "@ + id + "`."@,
        )
    } else {
        a
    };
    if ranch.status == RanchStatus::Complete {
        b.push("ranch complete 🎉"@)
    } else {
        b
    }
}

/// What is said after a sign-off.
pub fn sign_off_report(
    ranch: &Ranch,
    id: &str,
    workstream: &str,
    verb: &str,
    promoted: usize,
    newly: &Vec<String>,
) -> (r: Vec<String>)
    ensures
        strs(r@) == sign_off_lines(
            *ranch,
            id@,
            workstream@,
            verb@,
            promoted as nat,
            strs(newly@),
        ),
{
    let mut head = "✓ ".to_owned();
    head.push_str(workstream);
    head.push_str(" ");
    head.push_str(verb);
    head.push_str(" — promoted ");
    head.push_str(&decimal_size(promoted));
    head.push_str(" artifact(s)");
    let mut out: Vec<String> = Vec::new();
    let ghost h = head@;
    push_text(&mut out, head);
    assert(strs(out@) =~= seq![h]);
    assert(strs(newly@).len() == newly@.len());
    if newly.len() > 0 {
        let mut line = "newly ready: ".to_owned();
        line.push_str(&joined(newly, ", "));
        push_text(&mut out, line);
        let mut next = "launch them with `cowboy ranch start ".to_owned();
        next.push_str(id);
        next.push_str("`.");
        push_text(&mut out, next);
    }
    if ranch.status == RanchStatus::Complete {
        push_text(&mut out, "ranch complete 🎉".to_owned());
    }
    out
}

// ---------------------------------------------------------------------------
// Laws
// ---------------------------------------------------------------------------

/// A workstream is never completed by looking at its session: what was not complete
/// before is not complete after, however its session ended.
pub proof fn reconciling_never_completes(w: Workstream, sessions: Seq<(String, SessionStatus)>)
    requires
        w.status != WorkstreamStatus::Complete,
    ensures
        reconciled(w, sessions).status != WorkstreamStatus::Complete,
        reconciled(w, sessions).status != w.status ==> under_way(w) && (reconciled(
            w,
            sessions,
        ).status == WorkstreamStatus::WaitingForUser || reconciled(w, sessions).status
            == WorkstreamStatus::Failed),
{
}

/// Looking at the sessions twice changes no more than looking once.
pub proof fn reconciling_twice_is_once(w: Workstream, sessions: Seq<(String, SessionStatus)>)
    ensures
        reconciled(reconciled(w, sessions), sessions) == reconciled(w, sessions),
{
}

proof fn lemma_status_of(sessions: Seq<(String, SessionStatus)>, id: Seq<char>, from: int, k: int)
    requires
        0 <= from <= k < sessions.len(),
        sessions[k].0@ == id,
        forall|j: int| from <= j < k ==> (#[trigger] sessions[j]).0@ != id,
    ensures
        status_of(sessions, id, from) == Some(sessions[k].1),
    decreases k - from,
{
    if from < k {
        assert(sessions[from].0@ != id);
        lemma_status_of(sessions, id, from + 1, k);
    }
}

proof fn lemma_no_status(sessions: Seq<(String, SessionStatus)>, id: Seq<char>, from: int)
    requires
        0 <= from,
        forall|j: int| from <= j < sessions.len() ==> (#[trigger] sessions[j]).0@ != id,
    ensures
        status_of(sessions, id, from) is None,
    decreases sessions.len() - from,
{
    if from < sessions.len() {
        assert(sessions[from].0@ != id);
        lemma_no_status(sessions, id, from + 1);
    }
}

/// What is known of a session is what the first entry with its id says.
pub open spec fn known_as(
    sessions: Seq<(String, SessionStatus)>,
    id: Seq<char>,
    status: SessionStatus,
) -> bool {
    exists|k: int|
        0 <= k < sessions.len() && (#[trigger] sessions[k]).0@ == id && sessions[k].1 == status
            && forall|j: int| 0 <= j < k ==> (#[trigger] sessions[j]).0@ != id
}

/// A session that is known has the status that is looked up for it.
proof fn lemma_known(sessions: Seq<(String, SessionStatus)>, id: Seq<char>, status: SessionStatus)
    ensures
        known_as(sessions, id, status) <==> status_of(sessions, id, 0) == Some(status),
{
    if known_as(sessions, id, status) {
        let k = choose|k: int|
            0 <= k < sessions.len() && (#[trigger] sessions[k]).0@ == id && sessions[k].1 == status
                && forall|j: int| 0 <= j < k ==> (#[trigger] sessions[j]).0@ != id;
        lemma_status_of(sessions, id, 0, k);
    }
    if status_of(sessions, id, 0) == Some(status) {
        let k = lemma_first_entry(sessions, id, 0);
        assert(sessions[k].0@ == id);
    }
}

proof fn lemma_first_entry(sessions: Seq<(String, SessionStatus)>, id: Seq<char>, from: int) -> (k:
    int)
    requires
        0 <= from,
        status_of(sessions, id, from) is Some,
    ensures
        from <= k < sessions.len(),
        sessions[k].0@ == id,
        status_of(sessions, id, from) == Some(sessions[k].1),
        forall|j: int| from <= j < k ==> (#[trigger] sessions[j]).0@ != id,
    decreases sessions.len() - from,
{
    if sessions[from].0@ == id {
        from
    } else {
        lemma_first_entry(sessions, id, from + 1)
    }
}

/// What a session's status means for a workstream that is under way with it: once the
/// session is complete the workstream waits for the user, once it failed or went stale
/// the workstream has failed, and while it is anything else the workstream stays as it
/// is. Nothing but the status changes, and every workstream that is not under way, or
/// whose session is not known, stays as it is.
pub proof fn sessions_decide(w: Workstream, sessions: Seq<(String, SessionStatus)>)
    ensures
        ({
            let after = reconciled(w, sessions);
            let busy = w.status == WorkstreamStatus::Running || w.status
                == WorkstreamStatus::Starting;
            let told = |s: SessionStatus|
                busy && w.session_id is Some && known_as(sessions, (w.session_id->0)@, s);
            &&& after == (Workstream { status: after.status, ..w })
            &&& busy ==> (after.status == WorkstreamStatus::WaitingForUser <==> told(
                SessionStatus::Completed,
            ))
            &&& busy ==> (after.status == WorkstreamStatus::Failed <==> told(SessionStatus::Failed)
                || told(SessionStatus::Stale))
            &&& !told(SessionStatus::Completed) && !told(SessionStatus::Failed) && !told(
                SessionStatus::Stale,
            ) ==> after == w
        }),
{
    if w.session_id is Some {
        let id = (w.session_id->0)@;
        lemma_known(sessions, id, SessionStatus::Completed);
        lemma_known(sessions, id, SessionStatus::Failed);
        lemma_known(sessions, id, SessionStatus::Stale);
    }
}

/// The ids that a look at the sessions gives back are those of the workstreams that are
/// under way with a session that is complete, each of them, once, in the order of the
/// plan.
pub proof fn completed_sessions_are_announced(
    ws: Seq<Workstream>,
    sessions: Seq<(String, SessionStatus)>,
    n: int,
) -> (js: Seq<int>)
    requires
        0 <= n <= ws.len(),
    ensures
        ascending(js, n),
        newly_waiting(ws, sessions, n) == Seq::new(js.len(), |k: int| ws[js[k]].id@),
        forall|i: int|
            0 <= i < n ==> (#[trigger] js.contains(i) <==> (ws[i].status
                == WorkstreamStatus::Running || ws[i].status == WorkstreamStatus::Starting)
                && ws[i].session_id is Some && known_as(
                sessions,
                (ws[i].session_id->0)@,
                SessionStatus::Completed,
            )),
    decreases n,
{
    if n == 0 {
        let js: Seq<int> = seq![];
        assert(newly_waiting(ws, sessions, n) =~= Seq::new(js.len(), |k: int| ws[js[k]].id@));
        js
    } else {
        let before = completed_sessions_are_announced(ws, sessions, n - 1);
        let w = ws[n - 1];
        lemma_one_more(before, n - 1);
        sessions_decide(w, sessions);
        if w.session_id is Some {
            lemma_known(sessions, (w.session_id->0)@, SessionStatus::Completed);
        }
        if under_way(w) && reconciled_status(w, sessions) == WorkstreamStatus::WaitingForUser {
            let js = before.push(n - 1);
            assert(newly_waiting(ws, sessions, n) =~= Seq::new(js.len(), |k: int| ws[js[k]].id@));
            js
        } else {
            before
        }
    }
}

/// The ids that are listed for a status are those of the workstreams with that status,
/// each of them, once, in the order of the plan: so it is with the workstreams that can
/// be launched.
pub proof fn listed_by_status(ws: Seq<Workstream>, s: WorkstreamStatus, n: int) -> (js: Seq<int>)
    requires
        0 <= n <= ws.len(),
    ensures
        ascending(js, n),
        ids_with(ws, s, n) == Seq::new(js.len(), |k: int| ws[js[k]].id@),
        forall|i: int| 0 <= i < n ==> (#[trigger] js.contains(i) <==> ws[i].status == s),
    decreases n,
{
    if n == 0 {
        let js: Seq<int> = seq![];
        assert(ids_with(ws, s, n) =~= Seq::new(js.len(), |k: int| ws[js[k]].id@));
        js
    } else {
        let before = listed_by_status(ws, s, n - 1);
        lemma_one_more(before, n - 1);
        if ws[n - 1].status == s {
            let js = before.push(n - 1);
            assert(ids_with(ws, s, n) =~= Seq::new(js.len(), |k: int| ws[js[k]].id@));
            js
        } else {
            before
        }
    }
}

/// How a plan stands after an advance: complete exactly where it has workstreams and
/// all of them are done; else under way where one of them is starting or running; else
/// waiting where one of them waits; and where none of these holds, as it stood before.
pub proof fn plans_settle(ws: Seq<Workstream>, all_done: bool, now: RanchStatus)
    ensures
        ({
            let after = settled_status(ws, all_done, now);
            let done = ws.len() > 0 && all_done;
            let busy = exists|i: int|
                0 <= i < ws.len() && ((#[trigger] ws[i]).status == WorkstreamStatus::Running
                    || ws[i].status == WorkstreamStatus::Starting);
            let waits = exists|i: int|
                0 <= i < ws.len() && (#[trigger] ws[i]).status == WorkstreamStatus::WaitingForUser;
            &&& done ==> after == RanchStatus::Complete
            &&& !done && busy ==> after == RanchStatus::Running
            &&& !done && !busy && waits ==> after == RanchStatus::WaitingForUser
            &&& !done && !busy && !waits ==> after == now
        }),
{
    if exists|i: int|
        0 <= i < ws.len() && ((#[trigger] ws[i]).status == WorkstreamStatus::Running
            || ws[i].status == WorkstreamStatus::Starting) {
        let i = choose|i: int|
            0 <= i < ws.len() && ((#[trigger] ws[i]).status == WorkstreamStatus::Running
                || ws[i].status == WorkstreamStatus::Starting);
        assert(some_with(ws, ws[i].status));
    }
}

/// What ends an advance names what waits and what is blocked, exactly where something is,
/// and says that the plan is complete exactly where it is.
pub proof fn summaries_name_what_waits(ranch: Ranch, started: Seq<Started>)
    ensures
        ({
            let n = ranch.workstreams@.len() as int;
            let waiting = ids_with(ranch.workstreams@, WorkstreamStatus::WaitingForUser, n);
            let blocked = ids_with(ranch.workstreams@, WorkstreamStatus::Blocked, n);
            let all = advance_lines(ranch, started);
            let more = all.len() - started_lines(started).len();
            &&& all.take(started_lines(started).len() as int) == started_lines(started)
            &&& more == (if waiting.len() > 0 { 1int } else { 0 }) + (if blocked.len() > 0 {
                2int
            } else {
                0
            }) + (if ranch.status == RanchStatus::Complete { 1int } else { 0 })
            &&& waiting.len() > 0 ==> all.contains("awaiting sign-off: "@ + join(waiting, ", "@))
            &&& blocked.len() > 0 ==> all.contains("still blocked: "@ + join(blocked, ", "@))
            &&& ranch.status == RanchStatus::Complete ==> all.last() == "ranch complete 🎉"@
        }),
{
    let n = ranch.workstreams@.len() as int;
    let waiting = ids_with(ranch.workstreams@, WorkstreamStatus::WaitingForUser, n);
    let blocked = ids_with(ranch.workstreams@, WorkstreamStatus::Blocked, n);
    let a = started_lines(started);
    let all = advance_lines(ranch, started);
    let k = a.len() as int;
    assert(all.take(k) =~= a);
    if waiting.len() > 0 {
        assert(all[k] == "awaiting sign-off: "@ + join(waiting, ", "@));
        if blocked.len() > 0 {
            assert(all[k + 1] == "still blocked: "@ + join(blocked, ", "@));
        }
    } else if blocked.len() > 0 {
        assert(all[k] == "still blocked: "@ + join(blocked, ", "@));
    }
}

} // verus!
