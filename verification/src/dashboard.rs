//! The dashboard of a plan: what it shows, and what its keys do.

use crate::ranch::{ranch_status, ranch_word, session_status_str, session_word, ws_status, ws_word,
    Ranch, RanchStatus, SessionStatus, Workstream, WorkstreamStatus};
use crate::roundup::{session_status, status_of};
use crate::text::strs;
use crate::words::{join, joined};
use vstd::prelude::*;

verus! {

broadcast use vstd::string::group_string_axioms;

// ---------------------------------------------------------------------------
// Colours
// ---------------------------------------------------------------------------

/// A colour of the dashboard.
#[derive(Debug, Clone, Copy, PartialEq, Eq, Structural)]
pub enum Colour {
    Green,
    LightGreen,
    Cyan,
    Yellow,
    Red,
    Gray,
    DarkGray,
}

/// The colour of a plan's status.
pub open spec fn ranch_colour(s: RanchStatus) -> Colour {
    match s {
        RanchStatus::Complete => Colour::Green,
        RanchStatus::Running | RanchStatus::Integrating => Colour::Cyan,
        RanchStatus::WaitingForUser | RanchStatus::Paused => Colour::Yellow,
        RanchStatus::Failed | RanchStatus::Cancelled => Colour::Red,
        RanchStatus::Planning | RanchStatus::Ready => Colour::Gray,
    }
}

/// The colour of a plan's status.
pub fn ranch_status_style(s: RanchStatus) -> (r: Colour)
    ensures
        r == ranch_colour(s),
{
    match s {
        RanchStatus::Complete => Colour::Green,
        RanchStatus::Running | RanchStatus::Integrating => Colour::Cyan,
        RanchStatus::WaitingForUser | RanchStatus::Paused => Colour::Yellow,
        RanchStatus::Failed | RanchStatus::Cancelled => Colour::Red,
        _ => Colour::Gray,
    }
}

/// The colour of a workstream's status.
pub open spec fn ws_colour(s: WorkstreamStatus) -> Colour {
    match s {
        WorkstreamStatus::Complete | WorkstreamStatus::Integrated => Colour::Green,
        WorkstreamStatus::Running | WorkstreamStatus::Starting => Colour::Cyan,
        WorkstreamStatus::Ready | WorkstreamStatus::MergeReady => Colour::LightGreen,
        WorkstreamStatus::WaitingForUser => Colour::Yellow,
        WorkstreamStatus::Blocked => Colour::DarkGray,
        WorkstreamStatus::Failed | WorkstreamStatus::Cancelled => Colour::Red,
        WorkstreamStatus::Planned => Colour::Gray,
    }
}

/// The colour of a workstream's status.
pub fn ws_status_style(s: WorkstreamStatus) -> (r: Colour)
    ensures
        r == ws_colour(s),
{
    match s {
        WorkstreamStatus::Complete | WorkstreamStatus::Integrated => Colour::Green,
        WorkstreamStatus::Running | WorkstreamStatus::Starting => Colour::Cyan,
        WorkstreamStatus::Ready | WorkstreamStatus::MergeReady => Colour::LightGreen,
        WorkstreamStatus::WaitingForUser => Colour::Yellow,
        WorkstreamStatus::Blocked => Colour::DarkGray,
        WorkstreamStatus::Failed | WorkstreamStatus::Cancelled => Colour::Red,
        WorkstreamStatus::Planned => Colour::Gray,
    }
}

// ---------------------------------------------------------------------------
// What is shown
// ---------------------------------------------------------------------------

/// Lines of the log that the dashboard shows.
pub const LOG_TAIL: usize = 6;

/// A row of the dashboard: the workstream, its status, its session, what it needs.
#[derive(Debug)]
pub struct DashboardRow {
    pub workstream: String,
    pub status: &'static str,
    pub colour: Colour,
    pub session: String,
    pub depends_on: String,
}

/// The session of a workstream as the dashboard shows it, with its live status where
/// that is known.
pub open spec fn session_cell(
    session: Option<String>,
    sessions: Seq<(String, SessionStatus)>,
) -> Seq<char> {
    match session {
        None => "-"@,
        Some(s) => match status_of(sessions, s@, 0) {
            Some(st) => s@ + " ("@ + session_word(st) + ")"@,
            None => s@,
        },
    }
}

/// A row of the dashboard is that of a workstream.
pub open spec fn row_of(
    w: Workstream,
    sessions: Seq<(String, SessionStatus)>,
    r: DashboardRow,
) -> bool {
    &&& r.workstream@ == w.id@
    &&& r.status@ == ws_word(w.status)
    &&& r.colour == ws_colour(w.status)
    &&& r.session@ == session_cell(w.session_id, sessions)
    &&& r.depends_on@ == join(strs(w.depends_on@), ", "@)
}

/// A row of the dashboard.
pub fn dashboard_row(w: &Workstream, sessions: &Vec<(String, SessionStatus)>) -> (r: DashboardRow)
    ensures
        row_of(*w, sessions@, r),
{
    let session = match &w.session_id {
        None => "-".to_owned(),
        Some(s) => {
            let mut cell = s.clone();
            match session_status(sessions, s) {
                Some(st) => {
                    cell.push_str(" (");
                    cell.push_str(session_status_str(st));
                    cell.push_str(")");
                },
                None => {},
            }
            cell
        },
    };
    DashboardRow {
        workstream: w.id.clone(),
        status: ws_status(w.status),
        colour: ws_status_style(w.status),
        session,
        depends_on: joined(&w.depends_on, ", "),
    }
}

/// The lines of the dashboard's head.
pub open spec fn dashboard_head(r: Ranch) -> Seq<Seq<char>> {
    let a = seq!["ranch "@ + r.id@ + " — "@ + r.title@, "status: "@ + ranch_word(r.status)];
    if r.goal@.len() > 0 {
        a.push("goal: "@ + r.goal@)
    } else {
        a
    }
}

/// The lines of the dashboard's head.
pub fn dashboard_header(ranch: &Ranch) -> (r: Vec<String>)
    ensures
        strs(r@) == dashboard_head(*ranch),
{
    let mut a = "ranch ".to_owned();
    a.push_str(&ranch.id);
    a.push_str(" — ");
    a.push_str(&ranch.title);
    let mut b = "status: ".to_owned();
    b.push_str(ranch_status(ranch.status));
    let mut out: Vec<String> = Vec::new();
    out.push(a);
    out.push(b);
    if !ranch.goal.as_str().is_empty() {
        let mut c = "goal: ".to_owned();
        c.push_str(&ranch.goal);
        out.push(c);
    }
    assert(strs(out@) =~= dashboard_head(*ranch));
    out
}

/// The dashboard: the lines of its head and the colour of the status in it, the rows of
/// its table, and the log where there is one, with the height that it takes.
#[derive(Debug)]
pub struct Dashboard {
    pub head: Vec<String>,
    pub status_colour: Colour,
    pub titles: [&'static str; 4],
    pub rows: Vec<DashboardRow>,
    pub log: Vec<String>,
    pub log_height: u16,
    pub keys: &'static str,
}

/// What the dashboard shows of a plan, with the status of its sessions where that is
/// known, and of what has been said: no more than the last lines of it, and no pane at
/// all where nothing has been.
pub fn draw_dashboard(
    ranch: &Ranch,
    sessions: &Vec<(String, SessionStatus)>,
    log: &Vec<String>,
) -> (r: Dashboard)
    ensures
        strs(r.head@) == dashboard_head(*ranch),
        r.status_colour == ranch_colour(ranch.status),
        r.titles[0]@ == "WORKSTREAM"@,
        r.titles[1]@ == "STATUS"@,
        r.titles[2]@ == "SESSION"@,
        r.titles[3]@ == "DEPENDS ON"@,
        r.rows@.len() == ranch.workstreams@.len(),
        forall|i: int|
            0 <= i < r.rows@.len() ==> row_of(
                ranch.workstreams@[i],
                sessions@,
                #[trigger] r.rows@[i],
            ),
        r.log@ == log@.skip(
            if log@.len() > LOG_TAIL {
                log@.len() - LOG_TAIL
            } else {
                0
            },
        ),
        r.log_height == if log@.len() == 0 {
            0u16
        } else {
            8
        },
        r.keys@ == " q quit · s advance (launch ready) · r refresh · auto-refresh 1s "@,
{
    let mut rows: Vec<DashboardRow> = Vec::new();
    let mut i: usize = 0;
    while i < ranch.workstreams.len()
        invariant
            i <= ranch.workstreams@.len(),
            rows@.len() == i,
            forall|k: int|
                0 <= k < i ==> row_of(ranch.workstreams@[k], sessions@, #[trigger] rows@[k]),
        decreases ranch.workstreams.len() - i,
    {
        rows.push(dashboard_row(&ranch.workstreams[i], sessions));
        i = i + 1;
    }
    let from: usize = if log.len() > LOG_TAIL {
        log.len() - LOG_TAIL
    } else {
        0
    };
    let mut tail: Vec<String> = Vec::new();
    let mut k: usize = from;
    while k < log.len()
        invariant
            from <= k <= log@.len(),
            tail@ == log@.subrange(from as int, k as int),
        decreases log.len() - k,
    {
        tail.push(log[k].clone());
        k = k + 1;
        assert(log@.subrange(from as int, k as int) =~= log@.subrange(
            from as int,
            k - 1,
        ).push(log@[k - 1]));
    }
    assert(tail@ =~= log@.skip(from as int));
    Dashboard {
        head: dashboard_header(ranch),
        status_colour: ranch_status_style(ranch.status),
        titles: ["WORKSTREAM", "STATUS", "SESSION", "DEPENDS ON"],
        rows,
        log: tail,
        log_height: if log.len() == 0 {
            0
        } else {
            8
        },
        keys: " q quit · s advance (launch ready) · r refresh · auto-refresh 1s ",
    }
}

// ---------------------------------------------------------------------------
// Keys
// ---------------------------------------------------------------------------

/// What happened at the terminal.
#[derive(Debug, Clone, Copy, PartialEq, Eq, Structural)]
pub enum Press {
    Key(char),
    Escape,
    /// A key that means nothing here, or one that was let go.
    Other,
    /// Nothing, for a second.
    Idle,
}

/// What is done about it.
#[derive(Debug, Clone, Copy, PartialEq, Eq, Structural)]
pub enum Step {
    Quit,
    /// What is ready is launched, and the plan is looked at anew.
    Advance,
    /// The plan is looked at anew.
    Refresh,
    Nothing,
}

/// What a key does: `q` and escape end the dashboard, `s` launches what is ready, `r` and
/// idleness look at the plan anew.
pub fn on_press(p: Press) -> (r: Step)
    ensures
        r == match p {
            Press::Escape => Step::Quit,
            Press::Idle => Step::Refresh,
            Press::Other => Step::Nothing,
            Press::Key(c) => if c == 'q' {
                Step::Quit
            } else if c == 's' {
                Step::Advance
            } else if c == 'r' {
                Step::Refresh
            } else {
                Step::Nothing
            },
        },
{
    match p {
        Press::Escape => Step::Quit,
        Press::Idle => Step::Refresh,
        Press::Other => Step::Nothing,
        Press::Key(c) => {
            if c == 'q' {
                Step::Quit
            } else if c == 's' {
                Step::Advance
            } else if c == 'r' {
                Step::Refresh
            } else {
                Step::Nothing
            }
        },
    }
}

/// The colours tell how things stand: red is what failed or was cancelled, green what is
/// done, cyan what is under way, and yellow what waits for the user.
pub proof fn colours_tell_how_things_stand(w: WorkstreamStatus, r: RanchStatus)
    ensures
        ws_colour(w) == Colour::Red <==> w == WorkstreamStatus::Failed || w
            == WorkstreamStatus::Cancelled,
        ws_colour(w) == Colour::Green <==> w == WorkstreamStatus::Complete || w
            == WorkstreamStatus::Integrated,
        ws_colour(w) == Colour::Cyan <==> w == WorkstreamStatus::Running || w
            == WorkstreamStatus::Starting,
        ws_colour(w) == Colour::Yellow <==> w == WorkstreamStatus::WaitingForUser,
        ws_colour(w) == Colour::LightGreen <==> w == WorkstreamStatus::Ready || w
            == WorkstreamStatus::MergeReady,
        ws_colour(w) == Colour::DarkGray <==> w == WorkstreamStatus::Blocked,
        ranch_colour(r) == Colour::Red <==> r == RanchStatus::Failed || r == RanchStatus::Cancelled,
        ranch_colour(r) == Colour::Green <==> r == RanchStatus::Complete,
        ranch_colour(r) == Colour::Cyan <==> r == RanchStatus::Running || r
            == RanchStatus::Integrating,
        ranch_colour(r) == Colour::Yellow <==> r == RanchStatus::WaitingForUser || r
            == RanchStatus::Paused,
{
}

} // verus!
