//! Ranch plans: tasks split into workstreams that depend on one another, how they
//! advance, and how their scope changes.

use crate::choice::{ascending, lemma_one_more};
use crate::text::strs;
use vstd::prelude::*;

verus! {

broadcast use vstd::string::group_string_axioms;

/// Where a workstream stands.
#[derive(Debug, Clone, Copy, PartialEq, Eq, Structural)]
pub enum WorkstreamStatus {
    Planned,
    Blocked,
    Ready,
    Starting,
    Running,
    WaitingForUser,
    Complete,
    Failed,
    Cancelled,
    MergeReady,
    Integrated,
}

/// Where a ranch stands.
#[derive(Debug, Clone, Copy, PartialEq, Eq, Structural)]
pub enum RanchStatus {
    Planning,
    Ready,
    Running,
    WaitingForUser,
    Paused,
    Integrating,
    Complete,
    Failed,
    Cancelled,
}

/// Where a session stands.
#[derive(Debug, Clone, Copy, PartialEq, Eq, Structural)]
pub enum SessionStatus {
    Starting,
    Running,
    Idle,
    AwaitingApproval,
    AwaitingInput,
    Blocked,
    Completed,
    Failed,
    Stale,
}

/// One part of a plan.
#[derive(Debug)]
pub struct Workstream {
    pub id: String,
    pub title: String,
    pub goal: String,
    pub depends_on: Vec<String>,
    pub status: WorkstreamStatus,
    pub session_id: Option<String>,
    pub branch: Option<String>,
    pub worktree_path: Option<String>,
    pub expected_artifacts: Vec<String>,
    pub acceptance: Vec<String>,
}

/// A plan.
#[derive(Debug)]
pub struct Ranch {
    pub version: u32,
    pub id: String,
    pub title: String,
    pub goal: String,
    pub status: RanchStatus,
    pub workstreams: Vec<Workstream>,
    pub auto_advance: bool,
    pub created_ms: u64,
    pub updated_ms: u64,
}

/// A change of scope that is proposed.
#[derive(Debug)]
pub enum ScopeChange {
    AddWorkstream { workstream: Workstream },
    RemoveWorkstream { id: String },
    Note,
}

/// Where a proposal stands.
#[derive(Debug, Clone, Copy, PartialEq, Eq, Structural)]
pub enum ProposalStatus {
    Pending,
    Approved,
    Rejected,
}

/// A proposal to change the scope of a plan.
#[derive(Debug)]
pub struct ScopeProposal {
    pub id: String,
    pub ranch_id: String,
    pub from: String,
    pub summary: String,
    pub rationale: Option<String>,
    pub change: ScopeChange,
    pub status: ProposalStatus,
    pub created_ms: u64,
    pub decided_ms: Option<u64>,
    pub decision_reason: Option<String>,
}

// ---------------------------------------------------------------------------
// Words
// ---------------------------------------------------------------------------

/// A workstream's status in one word.
pub open spec fn ws_word(s: WorkstreamStatus) -> Seq<char> {
    match s {
        WorkstreamStatus::Planned => "planned"@,
        WorkstreamStatus::Blocked => "blocked"@,
        WorkstreamStatus::Ready => "ready"@,
        WorkstreamStatus::Starting => "starting"@,
        WorkstreamStatus::Running => "running"@,
        WorkstreamStatus::WaitingForUser => "waiting"@,
        WorkstreamStatus::Complete => "complete"@,
        WorkstreamStatus::Failed => "failed"@,
        WorkstreamStatus::Cancelled => "cancelled"@,
        WorkstreamStatus::MergeReady => "merge-ready"@,
        WorkstreamStatus::Integrated => "integrated"@,
    }
}

/// A workstream's status in one word.
pub fn ws_status(s: WorkstreamStatus) -> (r: &'static str)
    ensures
        r@ == ws_word(s),
{
    match s {
        WorkstreamStatus::Planned => "planned",
        WorkstreamStatus::Blocked => "blocked",
        WorkstreamStatus::Ready => "ready",
        WorkstreamStatus::Starting => "starting",
        WorkstreamStatus::Running => "running",
        WorkstreamStatus::WaitingForUser => "waiting",
        WorkstreamStatus::Complete => "complete",
        WorkstreamStatus::Failed => "failed",
        WorkstreamStatus::Cancelled => "cancelled",
        WorkstreamStatus::MergeReady => "merge-ready",
        WorkstreamStatus::Integrated => "integrated",
    }
}

/// A workstream's status as one sign.
pub open spec fn ws_sign(s: WorkstreamStatus) -> Seq<char> {
    match s {
        WorkstreamStatus::Complete | WorkstreamStatus::Integrated => "✓"@,
        WorkstreamStatus::MergeReady => "⇧"@,
        WorkstreamStatus::Running | WorkstreamStatus::Starting => "⟳"@,
        WorkstreamStatus::Ready => "◷"@,
        WorkstreamStatus::WaitingForUser => "⏸"@,
        WorkstreamStatus::Blocked => "⊘"@,
        WorkstreamStatus::Failed | WorkstreamStatus::Cancelled => "✗"@,
        WorkstreamStatus::Planned => "·"@,
    }
}

/// A workstream's status as one sign.
pub fn ws_glyph(s: WorkstreamStatus) -> (r: &'static str)
    ensures
        r@ == ws_sign(s),
{
    match s {
        WorkstreamStatus::Complete | WorkstreamStatus::Integrated => "✓",
        WorkstreamStatus::MergeReady => "⇧",
        WorkstreamStatus::Running | WorkstreamStatus::Starting => "⟳",
        WorkstreamStatus::Ready => "◷",
        WorkstreamStatus::WaitingForUser => "⏸",
        WorkstreamStatus::Blocked => "⊘",
        WorkstreamStatus::Failed | WorkstreamStatus::Cancelled => "✗",
        WorkstreamStatus::Planned => "·",
    }
}

/// A ranch's status in one word.
pub open spec fn ranch_word(s: RanchStatus) -> Seq<char> {
    match s {
        RanchStatus::Planning => "planning"@,
        RanchStatus::Ready => "ready"@,
        RanchStatus::Running => "running"@,
        RanchStatus::WaitingForUser => "waiting"@,
        RanchStatus::Paused => "paused"@,
        RanchStatus::Integrating => "integrating"@,
        RanchStatus::Complete => "complete"@,
        RanchStatus::Failed => "failed"@,
        RanchStatus::Cancelled => "cancelled"@,
    }
}

/// A ranch's status in one word.
pub fn ranch_status(s: RanchStatus) -> (r: &'static str)
    ensures
        r@ == ranch_word(s),
{
    match s {
        RanchStatus::Planning => "planning",
        RanchStatus::Ready => "ready",
        RanchStatus::Running => "running",
        RanchStatus::WaitingForUser => "waiting",
        RanchStatus::Paused => "paused",
        RanchStatus::Integrating => "integrating",
        RanchStatus::Complete => "complete",
        RanchStatus::Failed => "failed",
        RanchStatus::Cancelled => "cancelled",
    }
}

/// A session's status in one word.
pub open spec fn session_word(s: SessionStatus) -> Seq<char> {
    match s {
        SessionStatus::Starting => "starting"@,
        SessionStatus::Running => "running"@,
        SessionStatus::Idle => "idle"@,
        SessionStatus::AwaitingApproval => "approval"@,
        SessionStatus::AwaitingInput => "input"@,
        SessionStatus::Blocked => "blocked"@,
        SessionStatus::Completed => "completed"@,
        SessionStatus::Failed => "failed"@,
        SessionStatus::Stale => "stale"@,
    }
}

/// A session's status in one word.
pub fn session_status_str(s: SessionStatus) -> (r: &'static str)
    ensures
        r@ == session_word(s),
{
    match s {
        SessionStatus::Starting => "starting",
        SessionStatus::Running => "running",
        SessionStatus::Idle => "idle",
        SessionStatus::AwaitingApproval => "approval",
        SessionStatus::AwaitingInput => "input",
        SessionStatus::Blocked => "blocked",
        SessionStatus::Completed => "completed",
        SessionStatus::Failed => "failed",
        SessionStatus::Stale => "stale",
    }
}

/// A proposal's status in one word.
pub open spec fn proposal_word(s: ProposalStatus) -> Seq<char> {
    match s {
        ProposalStatus::Pending => "pending"@,
        ProposalStatus::Approved => "approved"@,
        ProposalStatus::Rejected => "rejected"@,
    }
}

/// A proposal's status in one word.
pub fn proposal_status_str(s: ProposalStatus) -> (r: &'static str)
    ensures
        r@ == proposal_word(s),
{
    match s {
        ProposalStatus::Pending => "pending",
        ProposalStatus::Approved => "approved",
        ProposalStatus::Rejected => "rejected",
    }
}

// ---------------------------------------------------------------------------
// Finding workstreams
// ---------------------------------------------------------------------------

/// The first workstream at or after `from` with this id.
pub open spec fn find_ws(ws: Seq<Workstream>, id: Seq<char>, from: int) -> Option<int>
    decreases ws.len() - from,
{
    if from < 0 || from >= ws.len() {
        None
    } else if ws[from].id@ == id {
        Some(from)
    } else {
        find_ws(ws, id, from + 1)
    }
}

/// A workstream has this id.
pub open spec fn has_ws(ws: Seq<Workstream>, id: Seq<char>) -> bool {
    exists|i: int| 0 <= i < ws.len() && (#[trigger] ws[i]).id@ == id
}

/// [`find_ws`] gives the first workstream with the id, and nothing only where there is
/// none.
pub proof fn lemma_find_ws(ws: Seq<Workstream>, id: Seq<char>, from: int)
    requires
        0 <= from,
    ensures
        match find_ws(ws, id, from) {
            Some(i) => {
                &&& from <= i < ws.len()
                &&& ws[i].id@ == id
                &&& forall|k: int| from <= k < i ==> (#[trigger] ws[k]).id@ != id
            },
            None => forall|k: int| from <= k < ws.len() ==> (#[trigger] ws[k]).id@ != id,
        },
    decreases ws.len() - from,
{
    if from < ws.len() && ws[from].id@ != id {
        lemma_find_ws(ws, id, from + 1);
    }
}

/// The first workstream with this id.
pub fn position(ws: &Vec<Workstream>, id: &str) -> (r: Option<usize>)
    ensures
        match r {
            Some(i) => {
                &&& find_ws(ws@, id@, 0) == Some(i as int)
                &&& i < ws@.len()
                &&& ws@[i as int].id@ == id@
            },
            None => find_ws(ws@, id@, 0) is None,
        },
        r is Some <==> has_ws(ws@, id@),
{
    proof {
        lemma_find_ws(ws@, id@, 0);
    }
    let mut i: usize = 0;
    while i < ws.len()
        invariant
            i <= ws@.len(),
            find_ws(ws@, id@, 0) == find_ws(ws@, id@, i as int),
            forall|k: int| 0 <= k < i ==> (#[trigger] ws@[k]).id@ != id@,
        decreases ws.len() - i,
    {
        if crate::text::same(&ws[i].id, id) {
            return Some(i);
        }
        i = i + 1;
    }
    None
}

/// Whether `t` is among `texts`.
pub fn lists(texts: &Vec<String>, t: &str) -> (r: bool)
    ensures
        r == strs(texts@).contains(t@),
{
    let mut i: usize = 0;
    while i < texts.len()
        invariant
            i <= texts@.len(),
            forall|k: int| 0 <= k < i ==> #[trigger] strs(texts@)[k] != t@,
        decreases texts.len() - i,
    {
        assert(strs(texts@)[i as int] == texts@[i as int]@);
        if crate::text::same(&texts[i], t) {
            return true;
        }
        i = i + 1;
    }
    false
}

/// `"no workstream …"`.
pub open spec fn no_workstream(ws: Seq<char>, ranch: Seq<char>) -> Seq<char> {
    "no workstream `"@ + ws + "` in ranch `"@ + ranch + "`"@
}

pub(crate) fn no_such_workstream(ws: &str, ranch: &str) -> (r: String)
    ensures
        r@ == no_workstream(ws@, ranch@),
{
    let mut out = "no workstream `".to_owned();
    out.push_str(ws);
    out.push_str("` in ranch `");
    out.push_str(ranch);
    out.push_str("`");
    out
}

/// The session to attach to for a workstream.
pub fn attach_session(ranch: &Ranch, id: &str, workstream: &str) -> (r: Result<String, String>)
    ensures
        match find_ws(ranch.workstreams@, workstream@, 0) {
            None => r is Err && r->Err_0@ == no_workstream(workstream@, id@),
            Some(i) => match ranch.workstreams@[i].session_id {
                Some(s) => r is Ok && r->Ok_0@ == s@,
                None => r is Err && r->Err_0@ == workstream@ + " has not been started yet"@,
            },
        },
{
    match position(&ranch.workstreams, workstream) {
        None => Err(no_such_workstream(workstream, id)),
        Some(i) => match &ranch.workstreams[i].session_id {
            Some(s) => Ok(s.clone()),
            None => {
                let mut msg = workstream.to_owned();
                msg.push_str(" has not been started yet");
                Err(msg)
            },
        },
    }
}

// ---------------------------------------------------------------------------
// Changing the scope
// ---------------------------------------------------------------------------

/// Work that has not been started.
pub open spec fn not_started(s: WorkstreamStatus) -> bool {
    s == WorkstreamStatus::Planned || s == WorkstreamStatus::Blocked || s
        == WorkstreamStatus::Ready
}

/// `w` depends on `id`.
pub open spec fn depends(w: Workstream, id: Seq<char>) -> bool {
    strs(w.depends_on@).contains(id)
}

/// The first workstream at or after `from` that depends on `id`.
pub open spec fn first_dependent(ws: Seq<Workstream>, id: Seq<char>, from: int) -> Option<int>
    decreases ws.len() - from,
{
    if from < 0 || from >= ws.len() {
        None
    } else if depends(ws[from], id) {
        Some(from)
    } else {
        first_dependent(ws, id, from + 1)
    }
}

/// The first `n` workstreams without those with this id.
pub open spec fn without(ws: Seq<Workstream>, id: Seq<char>, n: int) -> Seq<Workstream>
    decreases n,
{
    if n <= 0 {
        seq![]
    } else if ws[n - 1].id@ == id {
        without(ws, id, n - 1)
    } else {
        without(ws, id, n - 1).push(ws[n - 1])
    }
}

/// Why a change cannot be made, if it cannot.
pub open spec fn change_fault(ws: Seq<Workstream>, change: ScopeChange) -> Option<Seq<char>> {
    match change {
        ScopeChange::AddWorkstream { workstream } => if has_ws(ws, workstream.id@) {
            Some("workstream `"@ + workstream.id@ + "` already exists"@)
        } else {
            None
        },
        ScopeChange::RemoveWorkstream { id } => match find_ws(ws, id@, 0) {
            None => Some("no workstream `"@ + id@ + "`"@),
            Some(i) => if !not_started(ws[i].status) {
                Some(
                    "can't remove `"@ + id@ + "`: it is "@ + ws_word(ws[i].status)
                        + " (only not-yet-started workstreams can be removed)"@,
                )
            } else {
                match first_dependent(ws, id@, 0) {
                    Some(d) => Some(
                        "can't remove `"@ + id@ + "`: `"@ + ws[d].id@ + "` depends on it"@,
                    ),
                    None => None,
                }
            },
        },
        ScopeChange::Note => None,
    }
}

/// The workstreams after a change.
pub open spec fn changed(ws: Seq<Workstream>, change: ScopeChange) -> Seq<Workstream> {
    match change {
        ScopeChange::AddWorkstream { workstream } => ws.push(
            Workstream { status: WorkstreamStatus::Planned, ..workstream },
        ),
        ScopeChange::RemoveWorkstream { id } => without(ws, id@, ws.len() as int),
        ScopeChange::Note => ws,
    }
}

/// What is said of a change that was made.
pub open spec fn change_summary(change: ScopeChange) -> Seq<char> {
    match change {
        ScopeChange::AddWorkstream { workstream } => "added workstream `"@ + workstream.id@ + "`"@,
        ScopeChange::RemoveWorkstream { id } => "removed workstream `"@ + id@ + "`"@,
        ScopeChange::Note => "note acknowledged (no plan change)"@,
    }
}

fn dependent(ws: &Vec<Workstream>, id: &str) -> (r: Option<usize>)
    ensures
        match r {
            Some(i) => i < ws@.len() && first_dependent(ws@, id@, 0) == Some(i as int),
            None => first_dependent(ws@, id@, 0) is None,
        },
{
    let mut i: usize = 0;
    while i < ws.len()
        invariant
            i <= ws@.len(),
            first_dependent(ws@, id@, 0) == first_dependent(ws@, id@, i as int),
        decreases ws.len() - i,
    {
        if lists(&ws[i].depends_on, id) {
            return Some(i);
        }
        i = i + 1;
    }
    None
}

fn drop_ws(ws: &mut Vec<Workstream>, id: &str)
    ensures
        final(ws)@ == without(old(ws)@, id@, old(ws)@.len() as int),
{
    let ghost all = ws@;
    let mut seen: usize = 0;
    let mut i: usize = 0;
    let total: usize = ws.len();
    assert(without(all, id@, 0) + all.skip(0) =~= all);
    while seen < total
        invariant
            seen <= total == all.len(),
            i <= seen,
            i == without(all, id@, seen as int).len(),
            ws@ == without(all, id@, seen as int) + all.skip(seen as int),
        decreases total - seen,
    {
        let ghost kept = without(all, id@, seen as int);
        assert(ws@[i as int] == all[seen as int]);
        if crate::text::same(&ws[i].id, id) {
            let ghost before = ws@;
            ws.remove(i);
            assert(ws@ =~= kept + all.skip(seen + 1));
        } else {
            assert(ws@ =~= kept.push(all[seen as int]) + all.skip(seen + 1));
            i = i + 1;
        }
        seen = seen + 1;
    }
    assert(ws@ =~= without(all, id@, total as int));
}

/// Applies a change of scope and says what was done. A duplicate, and the removal of
/// work that was started or that other work depends on, is refused, and the plan is
/// then as before. Readiness is to be computed anew after a change.
pub fn apply_change(ranch: &mut Ranch, change: ScopeChange) -> (r: Result<String, String>)
    ensures
        match change_fault(old(ranch).workstreams@, change) {
            Some(e) => r is Err && r->Err_0@ == e && final(ranch).workstreams@ == old(
                ranch,
            ).workstreams@,
            None => {
                &&& r is Ok
                &&& r->Ok_0@ == change_summary(change)
                &&& final(ranch).workstreams@ == changed(old(ranch).workstreams@, change)
            },
        },
        *final(ranch) == (Ranch { workstreams: final(ranch).workstreams, ..*old(ranch) }),
{
    match change {
        ScopeChange::AddWorkstream { workstream } => {
            if position(&ranch.workstreams, &workstream.id).is_some() {
                let mut msg = "workstream `".to_owned();
                msg.push_str(&workstream.id);
                msg.push_str("` already exists");
                return Err(msg);
            }
            let mut msg = "added workstream `".to_owned();
            msg.push_str(&workstream.id);
            msg.push_str("`");
            let mut w = workstream;
            w.status = WorkstreamStatus::Planned;
            ranch.workstreams.push(w);
            Ok(msg)
        },
        ScopeChange::RemoveWorkstream { id } => {
            let i = match position(&ranch.workstreams, &id) {
                Some(i) => i,
                None => {
                    let mut msg = "no workstream `".to_owned();
                    msg.push_str(&id);
                    msg.push_str("`");
                    return Err(msg);
                },
            };
            let status = ranch.workstreams[i].status;
            if status != WorkstreamStatus::Planned && status != WorkstreamStatus::Blocked && status
                != WorkstreamStatus::Ready {
                let mut msg = "can't remove `".to_owned();
                msg.push_str(&id);
                msg.push_str("`: it is ");
                msg.push_str(ws_status(status));
                msg.push_str(" (only not-yet-started workstreams can be removed)");
                return Err(msg);
            }
            match dependent(&ranch.workstreams, &id) {
                Some(d) => {
                    let mut msg = "can't remove `".to_owned();
                    msg.push_str(&id);
                    msg.push_str("`: `");
                    msg.push_str(&ranch.workstreams[d].id);
                    msg.push_str("` depends on it");
                    Err(msg)
                },
                None => {
                    drop_ws(&mut ranch.workstreams, &id);
                    let mut msg = "removed workstream `".to_owned();
                    msg.push_str(&id);
                    msg.push_str("`");
                    Ok(msg)
                },
            }
        },
        ScopeChange::Note => Ok("note acknowledged (no plan change)".to_owned()),
    }
}

// ---------------------------------------------------------------------------
// Proposals
// ---------------------------------------------------------------------------

/// Which change a proposal's arguments name, or why they name none.
pub open spec fn proposal_fault(
    ws: Seq<Workstream>,
    ranch: Seq<char>,
    add: Option<Seq<char>>,
    remove: Option<Seq<char>>,
    note: bool,
) -> Option<Seq<char>> {
    if add is Some && remove is None && !note {
        if has_ws(ws, add->0) {
            Some("workstream `"@ + add->0 + "` already exists in ranch `"@ + ranch + "`"@)
        } else {
            None
        }
    } else if add is None && remove is Some && !note {
        if has_ws(ws, remove->0) {
            None
        } else {
            Some(no_workstream(remove->0, ranch))
        }
    } else if add is None && remove is None && note {
        None
    } else {
        Some("specify exactly one of --add-workstream, --remove-workstream, or --note"@)
    }
}

/// A workstream as it is first written down.
pub open spec fn fresh(
    w: Workstream,
    id: Seq<char>,
    title: Option<Seq<char>>,
    goal: Seq<char>,
    depends_on: Seq<String>,
    expects: Seq<String>,
    acceptance: Seq<String>,
) -> bool {
    &&& w.id@ == id
    &&& w.title@ == match title {
        Some(t) => t,
        None => id,
    }
    &&& w.goal@ == goal
    &&& w.depends_on@ == depends_on
    &&& w.status == WorkstreamStatus::Planned
    &&& w.session_id is None
    &&& w.branch is None
    &&& w.worktree_path is None
    &&& w.expected_artifacts@ == expects
    &&& w.acceptance@ == acceptance
}

/// The change that a proposal's arguments name: one workstream more, one less, or a
/// note, and no two of these.
pub fn proposal_change(
    ranch: &Ranch,
    id: &str,
    add_workstream: Option<String>,
    remove_workstream: Option<String>,
    note: bool,
    title: Option<String>,
    goal: Option<String>,
    depends_on: Vec<String>,
) -> (r: Result<ScopeChange, String>)
    ensures
        match proposal_fault(
            ranch.workstreams@,
            id@,
            crate::grep::opt(add_workstream),
            crate::grep::opt(remove_workstream),
            note,
        ) {
            Some(e) => r is Err && r->Err_0@ == e,
            None => r is Ok && match r->Ok_0 {
                ScopeChange::AddWorkstream { workstream } => {
                    &&& add_workstream is Some
                    &&& fresh(
                        workstream,
                        (add_workstream->0)@,
                        crate::grep::opt(title),
                        match goal {
                            Some(g) => g@,
                            None => seq![],
                        },
                        depends_on@,
                        seq![],
                        seq![],
                    )
                },
                ScopeChange::RemoveWorkstream { id } => remove_workstream == Some(id),
                ScopeChange::Note => add_workstream is None && remove_workstream is None,
            },
        },
{
    match (add_workstream, remove_workstream, note) {
        (Some(ws_id), None, false) => {
            if position(&ranch.workstreams, &ws_id).is_some() {
                let mut msg = "workstream `".to_owned();
                msg.push_str(&ws_id);
                msg.push_str("` already exists in ranch `");
                msg.push_str(id);
                msg.push_str("`");
                return Err(msg);
            }
            let empty = String::new();
            assert(empty@ =~= seq![]);
            Ok(
                ScopeChange::AddWorkstream {
                    workstream: Workstream {
                        title: match title {
                            Some(t) => t,
                            None => ws_id.clone(),
                        },
                        goal: match goal {
                            Some(g) => g,
                            None => empty,
                        },
                        depends_on,
                        id: ws_id,
                        status: WorkstreamStatus::Planned,
                        session_id: None,
                        branch: None,
                        worktree_path: None,
                        expected_artifacts: Vec::new(),
                        acceptance: Vec::new(),
                    },
                },
            )
        },
        (None, Some(ws_id), false) => {
            if position(&ranch.workstreams, &ws_id).is_none() {
                return Err(no_such_workstream(&ws_id, id));
            }
            Ok(ScopeChange::RemoveWorkstream { id: ws_id })
        },
        (None, None, true) => Ok(ScopeChange::Note),
        _ => Err(
            "specify exactly one of --add-workstream, --remove-workstream, or --note".to_owned(),
        ),
    }
}

/// What is said of a proposal that was decided before.
pub open spec fn already_decided(id: Seq<char>, s: ProposalStatus) -> Seq<char> {
    "proposal "@ + id + " is already "@ + proposal_word(s)
}

/// Decides a pending proposal, once: it is approved or rejected at `now`, for a
/// reason if one is given. One that was decided stays as it is.
pub fn decide(
    p: &mut ScopeProposal,
    id: &str,
    approve: bool,
    now: u64,
    reason: Option<String>,
) -> (r: Result<(), String>)
    ensures
        old(p).status != ProposalStatus::Pending ==> {
            &&& r is Err
            &&& r->Err_0@ == already_decided(id@, old(p).status)
            &&& *final(p) == *old(p)
        },
        old(p).status == ProposalStatus::Pending ==> {
            &&& r is Ok
            &&& *final(p) == (ScopeProposal {
                status: if approve {
                    ProposalStatus::Approved
                } else {
                    ProposalStatus::Rejected
                },
                decided_ms: Some(now),
                decision_reason: if approve {
                    old(p).decision_reason
                } else {
                    reason
                },
                ..*old(p)
            })
        },
{
    if p.status != ProposalStatus::Pending {
        let mut msg = "proposal ".to_owned();
        msg.push_str(id);
        msg.push_str(" is already ");
        msg.push_str(proposal_status_str(p.status));
        return Err(msg);
    }
    p.decided_ms = Some(now);
    if approve {
        p.status = ProposalStatus::Approved;
    } else {
        p.status = ProposalStatus::Rejected;
        p.decision_reason = reason;
    }
    Ok(())
}

/// Adds a workstream to a plan that has none of that id. Whether the dependencies
/// then still make sense is to be checked before the plan is kept.
pub fn add_workstream(
    ranch: &mut Ranch,
    ranch_id: &str,
    ws_id: &str,
    goal: &str,
    title: Option<String>,
    depends_on: Vec<String>,
    acceptance: Vec<String>,
    expects: Vec<String>,
) -> (r: Result<(), String>)
    ensures
        *final(ranch) == (Ranch { workstreams: final(ranch).workstreams, ..*old(ranch) }),
        has_ws(old(ranch).workstreams@, ws_id@) ==> {
            &&& r is Err
            &&& r->Err_0@ == "workstream `"@ + ws_id@ + "` already exists in ranch `"@ + ranch_id@
                + "`"@
            &&& final(ranch).workstreams@ == old(ranch).workstreams@
        },
        !has_ws(old(ranch).workstreams@, ws_id@) ==> {
            &&& r is Ok
            &&& final(ranch).workstreams@.len() == old(ranch).workstreams@.len() + 1
            &&& final(ranch).workstreams@.drop_last() == old(ranch).workstreams@
            &&& fresh(
                final(ranch).workstreams@.last(),
                ws_id@,
                crate::grep::opt(title),
                goal@,
                depends_on@,
                expects@,
                acceptance@,
            )
        },
{
    if position(&ranch.workstreams, ws_id).is_some() {
        let mut msg = "workstream `".to_owned();
        msg.push_str(ws_id);
        msg.push_str("` already exists in ranch `");
        msg.push_str(ranch_id);
        msg.push_str("`");
        return Err(msg);
    }
    let w = Workstream {
        id: ws_id.to_owned(),
        title: match title {
            Some(t) => t,
            None => ws_id.to_owned(),
        },
        goal: goal.to_owned(),
        depends_on,
        status: WorkstreamStatus::Planned,
        session_id: None,
        branch: None,
        worktree_path: None,
        expected_artifacts: expects,
        acceptance,
    };
    ranch.workstreams.push(w);
    assert(ranch.workstreams@.drop_last() =~= old(ranch).workstreams@);
    Ok(())
}

/// Keeps a plan with a workstream added, at `now`, where its dependencies were found to
/// make sense; else it says what is wrong with them, and nothing is kept.
pub fn keep_added(ranch: Ranch, ws_id: &str, checked: &Result<(), String>, now: u64) -> (r: Result<
    Ranch,
    String,
>)
    ensures
        match *checked {
            Ok(()) => r == Ok::<Ranch, String>(Ranch { updated_ms: now, ..ranch }),
            Err(e) => r is Err && r->Err_0@ == "adding `"@ + ws_id@
                + "` would break the plan: "@ + e@,
        },
{
    match checked {
        Ok(()) => {
            let mut out = ranch;
            out.updated_ms = now;
            Ok(out)
        },
        Err(e) => {
            let mut msg = "adding `".to_owned();
            msg.push_str(ws_id);
            msg.push_str("` would break the plan: ");
            msg.push_str(e);
            Err(msg)
        },
    }
}

/// Whether a plan can be advanced: only where its dependencies were found to make sense.
pub fn check_plan(id: &str, checked: &Result<(), String>) -> (r: Result<(), String>)
    ensures
        match *checked {
            Ok(()) => r is Ok,
            Err(e) => r is Err && r->Err_0@ == "invalid ranch "@ + id@ + ": "@ + e@,
        },
{
    match checked {
        Ok(()) => Ok(()),
        Err(e) => {
            let mut msg = "invalid ranch ".to_owned();
            msg.push_str(id);
            msg.push_str(": ");
            msg.push_str(e);
            Err(msg)
        },
    }
}

// ---------------------------------------------------------------------------
// Laws
// ---------------------------------------------------------------------------

/// No two workstreams share an id.
pub open spec fn distinct_ids(ws: Seq<Workstream>) -> bool {
    forall|i: int, j: int|
        0 <= i < j < ws.len() ==> (#[trigger] ws[i]).id@ != (#[trigger] ws[j]).id@
}

proof fn lemma_without(ws: Seq<Workstream>, id: Seq<char>, n: int)
    requires
        0 <= n <= ws.len(),
    ensures
        without(ws, id, n).len() <= n,
        forall|w: Workstream| #[trigger]
            without(ws, id, n).contains(w) <==> (ws.take(n).contains(w) && w.id@ != id),
        distinct_ids(ws) ==> distinct_ids(without(ws, id, n)),
    decreases n,
{
    if n > 0 {
        lemma_without(ws, id, n - 1);
        let a = without(ws, id, n - 1);
        let b = without(ws, id, n);
        let w0 = ws[n - 1];
        let t0 = ws.take(n - 1);
        let t1 = ws.take(n);
        assert(ws.take(n) =~= ws.take(n - 1).push(w0));
        assert forall|w: Workstream| #[trigger] b.contains(w) <==> (ws.take(n).contains(w) && w.id@
            != id) by {
            if ws.take(n).contains(w) {
                let k = choose|k: int| 0 <= k < t1.len() && t1[k] == w;
                if k < n - 1 {
                    assert(ws.take(n - 1)[k] == w);
                    assert(ws.take(n - 1).contains(w));
                }
            }
            if ws.take(n - 1).contains(w) {
                let k = choose|k: int| 0 <= k < t0.len() && t0[k] == w;
                assert(ws.take(n)[k] == w);
            }
            if a.contains(w) && w0.id@ != id {
                let k = choose|k: int| 0 <= k < a.len() && a[k] == w;
                assert(b[k] == w);
            }
            if b.contains(w) && w0.id@ != id {
                let k = choose|k: int| 0 <= k < b.len() && b[k] == w;
                if k < a.len() {
                    assert(a[k] == w);
                    assert(a.contains(w));
                } else {
                    assert(ws.take(n)[n - 1] == w);
                }
            }
            if w == w0 && w0.id@ != id {
                assert(b[a.len() as int] == w);
            }
        }
        if distinct_ids(ws) && w0.id@ != id {
            assert forall|i: int, j: int| 0 <= i < j < b.len() implies (#[trigger] b[i]).id@
                != (#[trigger] b[j]).id@ by {
                if j == b.len() - 1 {
                    assert(a[i] == b[i]);
                    assert(a.contains(b[i]));
                    let k = choose|k: int| 0 <= k < t0.len() && t0[k] == b[i];
                    assert(ws[k].id@ != ws[n - 1].id@);
                } else {
                    assert(a[i] == b[i] && a[j] == b[j]);
                }
            }
        }
    } else {
        assert(ws.take(0) =~= seq![]);
    }
}

/// A change of scope keeps the ids of a plan distinct.
pub proof fn change_keeps_ids_distinct(ws: Seq<Workstream>, change: ScopeChange)
    requires
        distinct_ids(ws),
        change_fault(ws, change) is None,
    ensures
        distinct_ids(changed(ws, change)),
{
    lemma_without(
        ws,
        match change {
            ScopeChange::RemoveWorkstream { id } => id@,
            _ => seq![],
        },
        ws.len() as int,
    );
}

/// A change of scope never takes out work that was started, and never leaves a
/// dependency on what it took out.
pub proof fn change_keeps_started_work(ws: Seq<Workstream>, change: ScopeChange, i: int)
    requires
        distinct_ids(ws),
        change_fault(ws, change) is None,
        0 <= i < ws.len(),
    ensures
        !not_started(ws[i].status) ==> changed(ws, change).contains(ws[i]),
        change matches ScopeChange::RemoveWorkstream { id } ==> forall|k: int|
            0 <= k < changed(ws, change).len() ==> !depends(
                #[trigger] changed(ws, change)[k],
                id@,
            ),
{
    match change {
        ScopeChange::RemoveWorkstream { id } => {
            lemma_without(ws, id@, ws.len() as int);
            lemma_find_ws(ws, id@, 0);
            assert(ws.take(ws.len() as int) =~= ws);
            assert(ws.contains(ws[i]));
            let at = find_ws(ws, id@, 0)->0;
            if ws[i].id@ == id@ && i != at {
                assert(ws[at].id@ != ws[i].id@);
            }
            lemma_no_dependent(ws, id@, 0);
            let out = changed(ws, change);
            assert forall|k: int| 0 <= k < out.len() implies !depends(#[trigger] out[k], id@) by {
                assert(out.contains(out[k]));
                let m = choose|m: int| 0 <= m < ws.len() && ws[m] == out[k];
                assert(!depends(ws[m], id@));
            }
        },
        ScopeChange::AddWorkstream { workstream } => {
            assert(changed(ws, change)[i] == ws[i]);
        },
        ScopeChange::Note => {
            assert(ws.contains(ws[i]));
        },
    }
}

proof fn lemma_no_dependent(ws: Seq<Workstream>, id: Seq<char>, from: int)
    requires
        0 <= from,
        first_dependent(ws, id, from) is None,
    ensures
        forall|k: int| from <= k < ws.len() ==> !depends(#[trigger] ws[k], id),
    decreases ws.len() - from,
{
    if from < ws.len() {
        lemma_no_dependent(ws, id, from + 1);
    }
}

proof fn lemma_first_dependent(ws: Seq<Workstream>, id: Seq<char>, from: int)
    requires
        0 <= from,
    ensures
        first_dependent(ws, id, from) is None <==> forall|k: int|
            from <= k < ws.len() ==> !strs((#[trigger] ws[k]).depends_on@).contains(id),
    decreases ws.len() - from,
{
    if from < ws.len() {
        lemma_first_dependent(ws, id, from + 1);
        assert(ws[from] == ws[from]);
    }
}

/// Which changes of scope are made: a workstream is added unless the plan has its id
/// already; the workstream of an id is taken out where the plan has it, it is planned,
/// blocked or ready, and none depends on it; a note is always taken.
pub proof fn changes_are_checked(ws: Seq<Workstream>, change: ScopeChange)
    ensures
        change_fault(ws, change) is None <==> match change {
            ScopeChange::AddWorkstream { workstream } => forall|k: int|
                0 <= k < ws.len() ==> (#[trigger] ws[k]).id@ != workstream.id@,
            ScopeChange::RemoveWorkstream { id } => {
                &&& exists|k: int|
                    {
                        &&& 0 <= k < ws.len()
                        &&& (#[trigger] ws[k]).id@ == id@
                        &&& forall|j: int| 0 <= j < k ==> (#[trigger] ws[j]).id@ != id@
                        &&& ws[k].status == WorkstreamStatus::Planned || ws[k].status
                            == WorkstreamStatus::Blocked || ws[k].status == WorkstreamStatus::Ready
                    }
                &&& forall|k: int|
                    0 <= k < ws.len() ==> !strs((#[trigger] ws[k]).depends_on@).contains(id@)
            },
            ScopeChange::Note => true,
        },
{
    match change {
        ScopeChange::RemoveWorkstream { id } => {
            lemma_first_dependent(ws, id@, 0);
            lemma_find_ws(ws, id@, 0);
            if exists|k: int|
                {
                    &&& 0 <= k < ws.len()
                    &&& (#[trigger] ws[k]).id@ == id@
                    &&& forall|j: int| 0 <= j < k ==> (#[trigger] ws[j]).id@ != id@
                    &&& ws[k].status == WorkstreamStatus::Planned || ws[k].status
                        == WorkstreamStatus::Blocked || ws[k].status == WorkstreamStatus::Ready
                } {
                let k = choose|k: int|
                    {
                        &&& 0 <= k < ws.len()
                        &&& (#[trigger] ws[k]).id@ == id@
                        &&& forall|j: int| 0 <= j < k ==> (#[trigger] ws[j]).id@ != id@
                        &&& ws[k].status == WorkstreamStatus::Planned || ws[k].status
                            == WorkstreamStatus::Blocked || ws[k].status == WorkstreamStatus::Ready
                    };
                let i = find_ws(ws, id@, 0)->0;
                assert(ws[i].id@ == id@);
                assert(i == k);
            }
            if find_ws(ws, id@, 0) is Some {
                let i = find_ws(ws, id@, 0)->0;
                assert(ws[i].id@ == id@);
            }
        },
        _ => {},
    }
}

/// What a change of scope makes of a plan: a workstream that is added stands behind the
/// others, planned and otherwise as it is given; one that is removed is gone, and the
/// others stay as they are, in their order; a note changes nothing.
pub proof fn changes_touch_one_workstream(ws: Seq<Workstream>, change: ScopeChange) -> (js: Seq<int>)
    ensures
        ascending(js, ws.len() as int),
        forall|i: int|
            0 <= i < ws.len() ==> (#[trigger] js.contains(i) <==> !(
            change matches ScopeChange::RemoveWorkstream { id } && ws[i].id@ == id@)),
        changed(ws, change) == Seq::new(js.len(), |k: int| ws[js[k]]) + match change {
            ScopeChange::AddWorkstream { workstream } => seq![
                Workstream { status: WorkstreamStatus::Planned, ..workstream },
            ],
            _ => seq![],
        },
{
    match change {
        ScopeChange::RemoveWorkstream { id } => {
            let js = lemma_without_picks(ws, id@, ws.len() as int);
            assert(changed(ws, change) =~= Seq::new(js.len(), |k: int| ws[js[k]])
                + Seq::<Workstream>::empty());
            js
        },
        _ => {
            let js = Seq::new(ws.len(), |k: int| k);
            assert forall|i: int| 0 <= i < ws.len() implies #[trigger] js.contains(i) by {
                assert(js[i] == i);
            }
            assert(Seq::new(js.len(), |k: int| ws[js[k]]) =~= ws);
            assert(ws + Seq::<Workstream>::empty() =~= ws);
            match change {
                ScopeChange::AddWorkstream { workstream } => {
                    let w = Workstream { status: WorkstreamStatus::Planned, ..workstream };
                    assert(ws.push(w) =~= ws + seq![w]);
                },
                _ => {},
            }
            js
        },
    }
}

proof fn lemma_without_picks(ws: Seq<Workstream>, id: Seq<char>, n: int) -> (js: Seq<int>)
    requires
        0 <= n <= ws.len(),
    ensures
        ascending(js, n),
        forall|i: int| 0 <= i < n ==> (#[trigger] js.contains(i) <==> ws[i].id@ != id),
        without(ws, id, n) == Seq::new(js.len(), |k: int| ws[js[k]]),
    decreases n,
{
    if n == 0 {
        let js: Seq<int> = seq![];
        assert(without(ws, id, n) =~= Seq::new(js.len(), |k: int| ws[js[k]]));
        js
    } else {
        let before = lemma_without_picks(ws, id, n - 1);
        lemma_one_more(before, n - 1);
        if ws[n - 1].id@ == id {
            before
        } else {
            let js = before.push(n - 1);
            assert(without(ws, id, n) =~= Seq::new(js.len(), |k: int| ws[js[k]]));
            js
        }
    }
}

/// A proposal names exactly one change, and one that can be made: a new workstream that
/// the plan does not have, one to remove that it has, or a note.
pub proof fn proposals_name_one_change(
    ws: Seq<Workstream>,
    ranch: Seq<char>,
    add: Option<Seq<char>>,
    remove: Option<Seq<char>>,
    note: bool,
)
    ensures
        proposal_fault(ws, ranch, add, remove, note) is None <==> {
            &&& (if add is Some { 1int } else { 0 }) + (if remove is Some { 1int } else { 0 }) + (
            if note { 1int } else { 0 }) == 1
            &&& add matches Some(id) ==> forall|k: int|
                0 <= k < ws.len() ==> (#[trigger] ws[k]).id@ != id
            &&& remove matches Some(id) ==> exists|k: int|
                0 <= k < ws.len() && (#[trigger] ws[k]).id@ == id
        },
{
}

/// Every status of a workstream has a word of its own, and so has every status of a plan.
pub proof fn words_tell_statuses_apart(
    a: WorkstreamStatus,
    b: WorkstreamStatus,
    c: RanchStatus,
    d: RanchStatus,
)
    ensures
        ws_word(a) == ws_word(b) ==> a == b,
        ranch_word(c) == ranch_word(d) ==> c == d,
{
    reveal_strlit("planned");
    reveal_strlit("blocked");
    reveal_strlit("ready");
    reveal_strlit("starting");
    reveal_strlit("running");
    reveal_strlit("waiting");
    reveal_strlit("complete");
    reveal_strlit("failed");
    reveal_strlit("cancelled");
    reveal_strlit("merge-ready");
    reveal_strlit("integrated");
    reveal_strlit("planning");
    reveal_strlit("paused");
    reveal_strlit("integrating");
    assert(ws_word(a).len() > 2 && ws_word(a)[0] == ws_word(a)[0] && ws_word(a)[1] == ws_word(a)[1]);
    assert("ready"@.len() == 5 && "running"@.len() == 7 && "planned"@.len() == 7);
    assert("complete"@.len() == 8 && "cancelled"@.len() == 9 && "planning"@.len() == 8);
    assert("paused"@.len() == 6 && "failed"@.len() == 6 && "integrating"@.len() == 11);
    assert("merge-ready"@.len() == 11 && "integrated"@.len() == 10);
    assert("starting"@.len() == 8 && "waiting"@.len() == 7 && "blocked"@.len() == 7);
    assert("planned"@[0] == 'p' && "blocked"@[0] == 'b' && "ready"@[0] == 'r' && "starting"@[0]
        == 's' && "running"@[0] == 'r' && "waiting"@[0] == 'w' && "complete"@[0] == 'c'
        && "failed"@[0] == 'f' && "cancelled"@[0] == 'c' && "merge-ready"@[0] == 'm'
        && "integrated"@[0] == 'i' && "planning"@[0] == 'p' && "paused"@[0] == 'p'
        && "integrating"@[0] == 'i');
}

} // verus!
