//! The channel on which a gateway asks whether a destination may be reached and reports
//! what it decided. Who does not show the session's token is told nothing and asks
//! nobody.

use crate::approvals::NetworkAttempt;
use crate::web::ct_eq;
use vstd::prelude::*;

verus! {

broadcast use vstd::string::group_string_axioms;

/// Whether a destination may be reached.
#[derive(Debug, Clone, Copy, PartialEq, Eq, Structural)]
pub enum Verdict {
    Allow,
    Deny,
    Ask,
}

/// For how long an answer holds.
#[derive(Debug, Clone, Copy, PartialEq, Eq, Structural)]
pub enum ApprovalScope {
    Once,
    Session,
    Project,
    Global,
}

/// A line of the channel.
#[derive(Debug)]
pub enum GatewayMessage {
    Hello { token: String },
    Ask { id: u64, attempt: NetworkAttempt, reason: Option<String> },
    Event { attempt: NetworkAttempt, verdict: Verdict, reason: String },
    /// A line that is none of these.
    Malformed,
}

/// How far a connection is.
#[derive(Debug, Clone, Copy, PartialEq, Eq, Structural)]
pub enum Connection {
    /// It has said nothing yet.
    New,
    /// It has shown the token.
    Open,
    Closed,
}

/// What is done with a line.
#[derive(Debug)]
pub enum Action {
    /// The connection is dropped.
    Drop,
    Ignore,
    /// The user is asked, and the answer sent under the number.
    Route { id: u64, attempt: NetworkAttempt, reason: Option<String> },
    /// What was decided is noted.
    Report { attempt: NetworkAttempt, verdict: Verdict, reason: String },
}

/// A line that shows the token.
pub open spec fn shows(m: GatewayMessage, token: Seq<char>) -> bool {
    m matches GatewayMessage::Hello { token: t } && t@ == token
}

/// Where a connection is after a line, and what is done with the line. `None` is the end
/// of what the other side sends.
pub open spec fn after(
    c: Connection,
    token: Seq<char>,
    line: Option<GatewayMessage>,
) -> (Connection, Action) {
    match (c, line) {
        (Connection::Closed, _) => (Connection::Closed, Action::Ignore),
        (_, None) => (Connection::Closed, Action::Drop),
        (Connection::New, Some(m)) => if shows(m, token) {
            (Connection::Open, Action::Ignore)
        } else {
            (Connection::Closed, Action::Drop)
        },
        (Connection::Open, Some(m)) => (
            Connection::Open,
            match m {
                GatewayMessage::Ask { id, attempt, reason } => Action::Route { id, attempt, reason },
                GatewayMessage::Event { attempt, verdict, reason } => Action::Report {
                    attempt,
                    verdict,
                    reason,
                },
                _ => Action::Ignore,
            },
        ),
    }
}

/// Where a connection is after a line, and what is done with the line.
pub fn receive(c: Connection, token: &str, line: Option<GatewayMessage>) -> (r: (Connection, Action))
    ensures
        r == after(c, token@, line),
{
    match (c, line) {
        (Connection::Closed, _) => (Connection::Closed, Action::Ignore),
        (_, None) => (Connection::Closed, Action::Drop),
        (Connection::New, Some(m)) => match m {
            GatewayMessage::Hello { token: t } => if ct_eq(&t, token) {
                (Connection::Open, Action::Ignore)
            } else {
                (Connection::Closed, Action::Drop)
            },
            _ => (Connection::Closed, Action::Drop),
        },
        (Connection::Open, Some(m)) => match m {
            GatewayMessage::Ask { id, attempt, reason } => (
                Connection::Open,
                Action::Route { id, attempt, reason },
            ),
            GatewayMessage::Event { attempt, verdict, reason } => (
                Connection::Open,
                Action::Report { attempt, verdict, reason },
            ),
            _ => (Connection::Open, Action::Ignore),
        },
    }
}

/// What came of asking the user.
#[derive(Debug, Clone, Copy)]
pub enum Reply {
    /// There is nobody to ask.
    Nobody,
    /// Whoever was asked went away.
    Dropped,
    Answered(Verdict, ApprovalScope),
}

/// What is sent back: the answer, and a refusal where there is none.
pub fn decision(reply: Reply) -> (r: (Verdict, ApprovalScope))
    ensures
        r == match reply {
            Reply::Answered(v, s) => (v, s),
            _ => (Verdict::Deny, ApprovalScope::Once),
        },
{
    match reply {
        Reply::Answered(v, s) => (v, s),
        Reply::Nobody | Reply::Dropped => (Verdict::Deny, ApprovalScope::Once),
    }
}

// ---------------------------------------------------------------------------
// Laws
// ---------------------------------------------------------------------------

/// Where a connection is after the first `n` lines.
pub open spec fn state_after(token: Seq<char>, ls: Seq<Option<GatewayMessage>>, n: int) -> Connection
    decreases n,
{
    if n <= 0 {
        Connection::New
    } else {
        after(state_after(token, ls, n - 1), token, ls[n - 1]).0
    }
}

/// What is done with line `i`.
pub open spec fn action_at(token: Seq<char>, ls: Seq<Option<GatewayMessage>>, i: int) -> Action {
    after(state_after(token, ls, i), token, ls[i]).1
}

/// A connection whose first line does not show the token is dropped, and nothing that it
/// says afterwards is routed to the user or noted.
pub proof fn strangers_are_never_routed(token: Seq<char>, ls: Seq<Option<GatewayMessage>>, i: int)
    requires
        0 <= i < ls.len(),
        ls[0] is None || !shows(ls[0]->0, token),
    ensures
        !(action_at(token, ls, i) is Route),
        !(action_at(token, ls, i) is Report),
        i > 0 ==> state_after(token, ls, i) is Closed,
    decreases i,
{
    assert(state_after(token, ls, 0) is New);
    if i > 0 {
        strangers_are_never_routed(token, ls, i - 1);
        assert(state_after(token, ls, i) == after(state_after(token, ls, i - 1), token, ls[i - 1]).0);
    }
}

/// After a first line that shows the token, every question is routed as it was asked, as
/// long as the other side has not ended.
pub proof fn questions_are_routed(token: Seq<char>, ls: Seq<Option<GatewayMessage>>, i: int)
    requires
        0 < i < ls.len(),
        ls[0] is Some,
        shows(ls[0]->0, token),
        forall|k: int| 0 <= k <= i ==> #[trigger] ls[k] is Some,
    ensures
        state_after(token, ls, i) is Open,
        ls[i]->0 matches GatewayMessage::Ask { id, attempt, reason } ==> action_at(token, ls, i)
            == (Action::Route { id, attempt, reason }),
    decreases i,
{
    assert(state_after(token, ls, 0) is New);
    assert(state_after(token, ls, 1) == after(Connection::New, token, ls[0]).0);
    if i > 1 {
        questions_are_routed(token, ls, i - 1);
        assert(state_after(token, ls, i) == after(state_after(token, ls, i - 1), token, ls[i - 1]).0);
    }
    assert(ls[i] is Some);
}

/// The token opens a connection and nothing else does: what does not show it closes the
/// connection, and so does the end of the other side.
pub proof fn the_token_opens(token: Seq<char>, m: GatewayMessage)
    ensures
        after(Connection::New, token, Some(m)).0 is Open <==> (m matches GatewayMessage::Hello {
            token: t,
        } && t@ == token),
        !(after(Connection::New, token, Some(m)).0 is Open) ==> after(
            Connection::New,
            token,
            Some(m),
        ) == (Connection::Closed, Action::Drop),
        after(Connection::New, token, None) == (Connection::Closed, Action::Drop),
        after(Connection::Open, token, None) == (Connection::Closed, Action::Drop),
{
}

} // verus!
