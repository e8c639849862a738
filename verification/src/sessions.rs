//! Listing sessions: those the daemon knows, together with those on disk.

use crate::container::{copied_opt, decimals_are_read_back};
use crate::order::{arrange, arrangement, in_order, lemma_text_order, lemma_text_total, text_less,
    text_lt};
use crate::paths::{absolute, components, split_path};
use crate::ranch::{session_status_str, session_word, SessionStatus};
use crate::runtime::{natural, parse_u64};
use crate::search::{at, find, lemma_find, split_once};
use crate::text::{chars_of, is_digit, push_text, string_of, strs};
use crate::words::{dec, decimal, decimal_size, pad_right, padded_right};
use vstd::prelude::*;

verus! {

broadcast use vstd::string::group_string_axioms;

/// A session that the daemon knows. Its root is a normalized path.
#[derive(Debug)]
pub struct SessionInfo {
    pub id: String,
    pub root: String,
    pub task: Option<String>,
    pub status: SessionStatus,
    /// Its worker.
    pub pid: Option<u32>,
    pub branch: Option<String>,
    pub session_name: Option<String>,
    /// Where its worker listens.
    pub worker_sock: Option<String>,
    pub journal_path: Option<String>,
    /// The word for how it holds its worktree.
    pub lease_mode: Option<String>,
    pub started_ms: u64,
    pub last_heartbeat_ms: u64,
    pub turn: u64,
    /// What the model read and what it wrote.
    pub tokens: (u64, u64),
    pub attached_clients: usize,
    pub diffstat: String,
    pub running_command: Option<String>,
    pub blocked_reason: Option<String>,
    pub ranch_id: Option<String>,
    pub workstream_id: Option<String>,
}

/// A session that was kept on disk.
#[derive(Debug)]
pub struct DiskSession {
    pub id: String,
    pub started_ms: u64,
    pub activity: String,
    pub attention: String,
    pub summary: String,
}

/// One session in the list.
#[derive(Debug)]
pub struct BrowserRow {
    pub id: String,
    pub root: String,
    pub daemon: Option<SessionInfo>,
    pub disk: Option<DiskSession>,
    pub started_ms: u64,
    pub activity: String,
    pub attention: String,
}

fn copy_info(s: &SessionInfo) -> (r: SessionInfo)
    ensures
        r == *s,
{
    SessionInfo {
        id: s.id.clone(),
        root: s.root.clone(),
        task: copied_opt(&s.task),
        status: s.status,
        pid: s.pid,
        branch: copied_opt(&s.branch),
        session_name: copied_opt(&s.session_name),
        worker_sock: copied_opt(&s.worker_sock),
        journal_path: copied_opt(&s.journal_path),
        lease_mode: copied_opt(&s.lease_mode),
        started_ms: s.started_ms,
        last_heartbeat_ms: s.last_heartbeat_ms,
        turn: s.turn,
        tokens: s.tokens,
        attached_clients: s.attached_clients,
        diffstat: s.diffstat.clone(),
        running_command: copied_opt(&s.running_command),
        blocked_reason: copied_opt(&s.blocked_reason),
        ranch_id: copied_opt(&s.ranch_id),
        workstream_id: copied_opt(&s.workstream_id),
    }
}

fn copy_disk(s: &DiskSession) -> (r: DiskSession)
    ensures
        r == *s,
{
    DiskSession {
        id: s.id.clone(),
        started_ms: s.started_ms,
        activity: s.activity.clone(),
        attention: s.attention.clone(),
        summary: s.summary.clone(),
    }
}

// ---------------------------------------------------------------------------
// What is known of one session
// ---------------------------------------------------------------------------

/// The time in a session's id: the number before its first hyphen.
pub open spec fn started_of(id: Seq<char>) -> u64 {
    let head = match find(id, "-"@, 0) {
        Some(i) => id.take(i),
        None => id,
    };
    match natural(head) {
        Some(n) => n as u64,
        None => 0,
    }
}

/// The time in a session's id.
pub fn id_started_ms(id: &str) -> (r: u64)
    ensures
        r == started_of(id@),
{
    let head = match split_once(id, "-") {
        Some((a, _)) => a,
        None => id.to_owned(),
    };
    match parse_u64(&head) {
        Some(n) => n,
        None => 0,
    }
}

/// What a session that the daemon knows is doing.
pub open spec fn activity_of(s: SessionInfo, disk: Option<DiskSession>) -> Seq<char> {
    if s.running_command is Some {
        "exec "@ + (s.running_command->0)@
    } else if s.turn > 0 {
        "turn "@ + dec(s.turn as nat)
    } else if s.diffstat@.len() > 0 {
        s.diffstat@
    } else {
        match disk {
            Some(d) => d.activity@,
            None => "-"@,
        }
    }
}

/// What a session that the daemon knows is doing.
pub fn daemon_activity(s: &SessionInfo, disk: &Option<DiskSession>) -> (r: String)
    ensures
        r@ == activity_of(*s, *disk),
{
    match &s.running_command {
        Some(c) => {
            let mut out = "exec ".to_owned();
            out.push_str(c);
            return out;
        },
        None => {},
    }
    if s.turn > 0 {
        let mut out = "turn ".to_owned();
        out.push_str(&decimal(s.turn as u128));
        return out;
    }
    if !s.diffstat.as_str().is_empty() {
        return s.diffstat.clone();
    }
    match disk {
        Some(d) => d.activity.clone(),
        None => "-".to_owned(),
    }
}

/// What a session that the daemon knows asks for.
pub open spec fn attention_of(s: SessionInfo) -> Seq<char> {
    match s.status {
        SessionStatus::AwaitingApproval => "approval needed"@,
        SessionStatus::AwaitingInput => "input needed"@,
        SessionStatus::Blocked => match s.blocked_reason {
            Some(r) => r@,
            None => "blocked"@,
        },
        SessionStatus::Failed => "failed"@,
        SessionStatus::Stale => "stale"@,
        _ => "-"@,
    }
}

/// What a session that the daemon knows asks for.
pub fn daemon_attention(s: &SessionInfo) -> (r: String)
    ensures
        r@ == attention_of(*s),
{
    match s.status {
        SessionStatus::AwaitingApproval => "approval needed".to_owned(),
        SessionStatus::AwaitingInput => "input needed".to_owned(),
        SessionStatus::Blocked => match &s.blocked_reason {
            Some(r) => r.clone(),
            None => "blocked".to_owned(),
        },
        SessionStatus::Failed => "failed".to_owned(),
        SessionStatus::Stale => "stale".to_owned(),
        _ => "-".to_owned(),
    }
}

// ---------------------------------------------------------------------------
// Comparing paths
// ---------------------------------------------------------------------------

/// The same path, component by component.
pub open spec fn path_eq(a: Seq<char>, b: Seq<char>) -> bool {
    absolute(a) == absolute(b) && components(a) == components(b)
}

/// A component comes before another: what leads nowhere first, then what leads up,
/// then names.
pub open spec fn component_lt(a: Seq<char>, b: Seq<char>) -> bool {
    let ra = component_rank(a);
    let rb = component_rank(b);
    ra < rb || (ra == rb && text_lt(a, b))
}

/// What kind of component this is.
pub open spec fn component_rank(c: Seq<char>) -> int {
    if c == "."@ {
        0
    } else if c == ".."@ {
        1
    } else {
        2
    }
}

/// Components come before others, the first difference deciding.
pub open spec fn components_lt(a: Seq<Seq<char>>, b: Seq<Seq<char>>) -> bool
    decreases a.len(),
{
    if b.len() == 0 {
        false
    } else if a.len() == 0 {
        true
    } else if a[0] != b[0] {
        component_lt(a[0], b[0])
    } else {
        components_lt(a.drop_first(), b.drop_first())
    }
}

/// A path comes before another.
pub open spec fn path_lt(a: Seq<char>, b: Seq<char>) -> bool {
    if absolute(a) != absolute(b) {
        if absolute(a) {
            components(b).len() > 0
        } else {
            components(a).len() == 0
        }
    } else {
        components_lt(components(a), components(b))
    }
}

proof fn lemma_component_total(a: Seq<char>, b: Seq<char>)
    ensures
        !(component_lt(a, b) && component_lt(b, a)),
        a != b ==> component_lt(a, b) || component_lt(b, a),
        a == b ==> !component_lt(a, b),
{
    lemma_text_total(a, b);
}

proof fn lemma_component_order(a: Seq<char>, b: Seq<char>, c: Seq<char>)
    ensures
        !component_lt(a, b) && !component_lt(b, c) ==> !component_lt(a, c),
{
    lemma_text_order(a, b, c);
}

proof fn lemma_components_total(a: Seq<Seq<char>>, b: Seq<Seq<char>>)
    ensures
        !(components_lt(a, b) && components_lt(b, a)),
    decreases a.len(),
{
    if a.len() > 0 && b.len() > 0 {
        lemma_component_total(a[0], b[0]);
        lemma_components_total(a.drop_first(), b.drop_first());
    }
}

proof fn lemma_components_order(a: Seq<Seq<char>>, b: Seq<Seq<char>>, c: Seq<Seq<char>>)
    ensures
        !components_lt(a, b) && !components_lt(b, c) ==> !components_lt(a, c),
    decreases a.len(),
{
    if a.len() > 0 && b.len() > 0 && c.len() > 0 {
        lemma_component_total(a[0], b[0]);
        lemma_component_total(b[0], c[0]);
        lemma_component_total(a[0], c[0]);
        lemma_component_order(a[0], b[0], c[0]);
        lemma_components_order(a.drop_first(), b.drop_first(), c.drop_first());
    }
}

proof fn lemma_path_order(a: Seq<char>, b: Seq<char>, c: Seq<char>)
    ensures
        !(path_lt(a, b) && path_lt(b, a)),
        !path_lt(a, b) && !path_lt(b, c) ==> !path_lt(a, c),
{
    lemma_components_total(components(a), components(b));
    lemma_components_order(components(a), components(b), components(c));
}

// ---------------------------------------------------------------------------
// Merging
// ---------------------------------------------------------------------------

/// Two sessions are the same: the same id in the same place.
pub open spec fn same_session(id: Seq<char>, root: Seq<char>, id2: Seq<char>, root2: Seq<char>) -> bool {
    id == id2 && path_eq(root, root2)
}

/// The last thing that the daemon says of a session.
pub open spec fn last_daemon(ds: Seq<SessionInfo>, i: int) -> bool {
    forall|j: int|
        i < j < ds.len() ==> !#[trigger] same_session(ds[i].id@, ds[i].root@, ds[j].id@, ds[j].root@)
}

/// The last that is on disk of a session.
pub open spec fn last_disk(dk: Seq<DiskSession>, i: int) -> bool {
    forall|j: int| i < j < dk.len() ==> (#[trigger] dk[j]).id@ != dk[i].id@
}

/// The daemon knows a session.
pub open spec fn daemon_knows(ds: Seq<SessionInfo>, id: Seq<char>, root: Seq<char>) -> bool {
    exists|j: int|
        0 <= j < ds.len() && #[trigger] same_session(id, root, ds[j].id@, ds[j].root@)
}

/// What is on disk of a session, of the first `n`: the last of that id, where the
/// session is of the place that the disk is read from.
pub open spec fn disk_of(
    dk: Seq<DiskSession>,
    disk_root: Seq<char>,
    id: Seq<char>,
    root: Seq<char>,
    n: int,
) -> Option<DiskSession>
    decreases n,
{
    if n <= 0 || !path_eq(root, disk_root) {
        None
    } else if dk[n - 1].id@ == id {
        Some(dk[n - 1])
    } else {
        disk_of(dk, disk_root, id, root, n - 1)
    }
}

/// The row of a session that the daemon knows: the daemon decides, and the disk fills
/// in.
pub open spec fn daemon_row(
    s: SessionInfo,
    dk: Seq<DiskSession>,
    disk_root: Seq<char>,
    r: BrowserRow,
) -> bool {
    let disk = disk_of(dk, disk_root, s.id@, s.root@, dk.len() as int);
    &&& r.id@ == s.id@
    &&& r.root@ == s.root@
    &&& r.daemon == Some(s)
    &&& r.disk == disk
    &&& r.started_ms == if s.started_ms > 0 {
        s.started_ms
    } else {
        match disk {
            Some(d) => d.started_ms,
            None => started_of(s.id@),
        }
    }
    &&& r.activity@ == activity_of(s, disk)
    &&& r.attention@ == attention_of(s)
}

/// The row of a session that is only on disk.
pub open spec fn disk_row(d: DiskSession, disk_root: Seq<char>, r: BrowserRow) -> bool {
    &&& r.id@ == d.id@
    &&& r.root@ == disk_root
    &&& r.daemon is None
    &&& r.disk == Some(d)
    &&& r.started_ms == d.started_ms
    &&& r.activity@ == d.activity@
    &&& r.attention@ == d.attention@
}

/// The sessions, of the first `n` of the daemon, that get a row.
pub open spec fn daemon_picks(ds: Seq<SessionInfo>, n: int) -> Seq<int>
    decreases n,
{
    if n <= 0 {
        seq![]
    } else if last_daemon(ds, n - 1) {
        daemon_picks(ds, n - 1).push(n - 1)
    } else {
        daemon_picks(ds, n - 1)
    }
}

/// The sessions, of the first `n` on disk, that get a row of their own.
pub open spec fn disk_picks(
    dk: Seq<DiskSession>,
    ds: Seq<SessionInfo>,
    disk_root: Seq<char>,
    n: int,
) -> Seq<int>
    decreases n,
{
    if n <= 0 {
        seq![]
    } else if last_disk(dk, n - 1) && !daemon_knows(ds, dk[n - 1].id@, disk_root) {
        disk_picks(dk, ds, disk_root, n - 1).push(n - 1)
    } else {
        disk_picks(dk, ds, disk_root, n - 1)
    }
}

/// `rows` are the rows of the sessions: one for each that the daemon knows, and one for
/// each that is only on disk.
pub open spec fn rows_match(
    ds: Seq<SessionInfo>,
    dk: Seq<DiskSession>,
    disk_root: Seq<char>,
    rows: Seq<BrowserRow>,
) -> bool {
    let a = daemon_picks(ds, ds.len() as int);
    let b = disk_picks(dk, ds, disk_root, dk.len() as int);
    &&& rows.len() == a.len() + b.len()
    &&& forall|k: int| 0 <= k < a.len() ==> daemon_row(ds[a[k]], dk, disk_root, #[trigger] rows[k])
    &&& forall|k: int|
        a.len() <= k < rows.len() ==> disk_row(dk[b[k - a.len()]], disk_root, #[trigger] rows[k])
}

/// The order of the list: the newest first, then by id and place, backwards.
pub open spec fn listed_before(rows: Seq<BrowserRow>) -> spec_fn(int, int) -> bool {
    |i: int, j: int| row_before(rows[i], rows[j])
}

/// A row comes before another.
pub open spec fn row_before(a: BrowserRow, b: BrowserRow) -> bool {
    ||| a.started_ms > b.started_ms
    ||| a.started_ms == b.started_ms && text_lt(b.id@, a.id@)
    ||| a.started_ms == b.started_ms && a.id@ == b.id@ && path_lt(b.root@, a.root@)
}

fn same_path(a: &str, b: &str) -> (r: bool)
    ensures
        r == path_eq(a@, b@),
{
    let x = split_path(a);
    let y = split_path(b);
    assert(strs(x@).len() == x@.len());
    assert(strs(y@).len() == y@.len());
    let ax = chars_of(a);
    let ay = chars_of(b);
    let abs_x = ax.len() > 0 && ax[0] == '/';
    let abs_y = ay.len() > 0 && ay[0] == '/';
    if abs_x != abs_y || x.len() != y.len() {
        return false;
    }
    let mut i: usize = 0;
    while i < x.len()
        invariant
            i <= x@.len() == y@.len(),
            strs(x@) == components(a@),
            strs(y@) == components(b@),
            strs(x@).len() == x@.len(),
            strs(y@).len() == y@.len(),
            forall|k: int| 0 <= k < i ==> #[trigger] strs(x@)[k] == strs(y@)[k],
        decreases x.len() - i,
    {
        assert(strs(x@)[i as int] == x@[i as int]@);
        assert(strs(y@)[i as int] == y@[i as int]@);
        if x[i] != y[i] {
            return false;
        }
        i = i + 1;
    }
    assert(components(a@) =~= components(b@));
    true
}

fn component_less(a: &str, b: &str) -> (r: bool)
    ensures
        r == component_lt(a@, b@),
{
    let ra: u8 = if crate::text::same(a, ".") {
        0
    } else if crate::text::same(a, "..") {
        1
    } else {
        2
    };
    let rb: u8 = if crate::text::same(b, ".") {
        0
    } else if crate::text::same(b, "..") {
        1
    } else {
        2
    };
    proof {
        reveal_strlit(".");
        reveal_strlit("..");
    }
    ra < rb || (ra == rb && text_less(a, b))
}

fn path_less(a: &str, b: &str) -> (r: bool)
    ensures
        r == path_lt(a@, b@),
{
    let x = split_path(a);
    let y = split_path(b);
    assert(strs(x@).len() == x@.len());
    assert(strs(y@).len() == y@.len());
    let ax = chars_of(a);
    let ay = chars_of(b);
    let abs_x = ax.len() > 0 && ax[0] == '/';
    let abs_y = ay.len() > 0 && ay[0] == '/';
    if abs_x != abs_y {
        return if abs_x {
            y.len() > 0
        } else {
            x.len() == 0
        };
    }
    let ghost gx = components(a@);
    let ghost gy = components(b@);
    let mut i: usize = 0;
    assert(gx.skip(0) =~= gx);
    assert(gy.skip(0) =~= gy);
    loop
        invariant
            i <= x@.len() == gx.len(),
            i <= y@.len() == gy.len(),
            gx == strs(x@),
            gy == strs(y@),
            gx == components(a@),
            gy == components(b@),
            absolute(a@) == absolute(b@),
            components_lt(gx, gy) == components_lt(gx.skip(i as int), gy.skip(i as int)),
        decreases x.len() - i,
    {
        if i >= y.len() {
            return false;
        }
        if i >= x.len() {
            return true;
        }
        assert(gx.skip(i as int)[0] == x@[i as int]@);
        assert(gy.skip(i as int)[0] == y@[i as int]@);
        if x[i] != y[i] {
            return component_less(&x[i], &y[i]);
        }
        assert(gx.skip(i as int).drop_first() =~= gx.skip(i + 1));
        assert(gy.skip(i as int).drop_first() =~= gy.skip(i + 1));
        i = i + 1;
    }
}

fn row_less(a: &BrowserRow, b: &BrowserRow) -> (r: bool)
    ensures
        r == row_before(*a, *b),
{
    a.started_ms > b.started_ms || (a.started_ms == b.started_ms && (text_less(&b.id, &a.id) || (
    crate::text::same(&a.id, &b.id) && path_less(&b.root, &a.root))))
}

fn is_last_daemon(ds: &Vec<SessionInfo>, i: usize) -> (r: bool)
    requires
        i < ds.len(),
    ensures
        r == last_daemon(ds@, i as int),
{
    let mut j: usize = i + 1;
    while j < ds.len()
        invariant
            i < j <= ds@.len(),
            forall|k: int|
                i < k < j ==> !#[trigger] same_session(
                    ds@[i as int].id@,
                    ds@[i as int].root@,
                    ds@[k].id@,
                    ds@[k].root@,
                ),
        decreases ds.len() - j,
    {
        if crate::text::same(&ds[i].id, &ds[j].id) && same_path(&ds[i].root, &ds[j].root) {
            assert(same_session(
                ds@[i as int].id@,
                ds@[i as int].root@,
                ds@[j as int].id@,
                ds@[j as int].root@,
            ));
            return false;
        }
        j = j + 1;
    }
    true
}

fn is_last_disk(dk: &Vec<DiskSession>, i: usize) -> (r: bool)
    requires
        i < dk.len(),
    ensures
        r == last_disk(dk@, i as int),
{
    let mut j: usize = i + 1;
    while j < dk.len()
        invariant
            i < j <= dk@.len(),
            forall|k: int| i < k < j ==> (#[trigger] dk@[k]).id@ != dk@[i as int].id@,
        decreases dk.len() - j,
    {
        if crate::text::same(&dk[j].id, &dk[i].id) {
            return false;
        }
        j = j + 1;
    }
    true
}

fn knows(ds: &Vec<SessionInfo>, id: &str, root: &str) -> (r: bool)
    ensures
        r == daemon_knows(ds@, id@, root@),
{
    let mut j: usize = 0;
    while j < ds.len()
        invariant
            j <= ds@.len(),
            forall|k: int|
                0 <= k < j ==> !#[trigger] same_session(id@, root@, ds@[k].id@, ds@[k].root@),
        decreases ds.len() - j,
    {
        if crate::text::same(id, &ds[j].id) && same_path(root, &ds[j].root) {
            assert(same_session(id@, root@, ds@[j as int].id@, ds@[j as int].root@));
            return true;
        }
        j = j + 1;
    }
    false
}

fn find_disk(dk: &Vec<DiskSession>, disk_root: &str, id: &str, root: &str) -> (r: Option<
    DiskSession,
>)
    ensures
        r == disk_of(dk@, disk_root@, id@, root@, dk@.len() as int),
{
    if !same_path(root, disk_root) {
        return None;
    }
    let mut i: usize = dk.len();
    while i > 0
        invariant
            i <= dk@.len(),
            path_eq(root@, disk_root@),
            disk_of(dk@, disk_root@, id@, root@, dk@.len() as int) == disk_of(
                dk@,
                disk_root@,
                id@,
                root@,
                i as int,
            ),
        decreases i,
    {
        if crate::text::same(&dk[i - 1].id, id) {
            return Some(copy_disk(&dk[i - 1]));
        }
        i = i - 1;
    }
    None
}

fn collect_rows(ds: &Vec<SessionInfo>, dk: &Vec<DiskSession>, disk_root: &str) -> (r: Vec<
    BrowserRow,
>)
    ensures
        rows_match(ds@, dk@, disk_root@, r@),
{
    let mut rows: Vec<BrowserRow> = Vec::new();
    let ghost root = disk_root@;
    let mut i: usize = 0;
    while i < ds.len()
        invariant
            i <= ds@.len(),
            root == disk_root@,
            rows@.len() == daemon_picks(ds@, i as int).len(),
            forall|k: int|
                0 <= k < rows@.len() ==> daemon_row(
                    ds@[daemon_picks(ds@, i as int)[k]],
                    dk@,
                    root,
                    #[trigger] rows@[k],
                ),
        decreases ds.len() - i,
    {
        let ghost before = rows@;
        if is_last_daemon(ds, i) {
            let s = &ds[i];
            let disk = find_disk(dk, disk_root, &s.id, &s.root);
            let started_ms: u64 = if s.started_ms > 0 {
                s.started_ms
            } else {
                match &disk {
                    Some(d) => d.started_ms,
                    None => id_started_ms(&s.id),
                }
            };
            let activity = daemon_activity(s, &disk);
            rows.push(
                BrowserRow {
                    id: s.id.clone(),
                    root: s.root.clone(),
                    daemon: Some(copy_info(s)),
                    disk,
                    started_ms,
                    activity,
                    attention: daemon_attention(s),
                },
            );
            assert forall|k: int| 0 <= k < rows@.len() implies daemon_row(
                ds@[daemon_picks(ds@, i + 1)[k]],
                dk@,
                root,
                #[trigger] rows@[k],
            ) by {
                if k < before.len() {
                    assert(rows@[k] == before[k]);
                }
            }
        }
        i = i + 1;
    }
    let ghost a = daemon_picks(ds@, ds@.len() as int);
    let ghost first = rows@;
    let mut j: usize = 0;
    while j < dk.len()
        invariant
            j <= dk@.len(),
            root == disk_root@,
            a == daemon_picks(ds@, ds@.len() as int),
            first.len() == a.len(),
            forall|k: int|
                0 <= k < a.len() ==> daemon_row(ds@[a[k]], dk@, root, #[trigger] first[k]),
            rows@.len() == a.len() + disk_picks(dk@, ds@, root, j as int).len(),
            forall|k: int| 0 <= k < a.len() ==> #[trigger] rows@[k] == first[k],
            forall|k: int|
                a.len() <= k < rows@.len() ==> disk_row(
                    dk@[disk_picks(dk@, ds@, root, j as int)[k - a.len()]],
                    root,
                    #[trigger] rows@[k],
                ),
        decreases dk.len() - j,
    {
        let ghost before = rows@;
        if is_last_disk(dk, j) && !knows(ds, &dk[j].id, disk_root) {
            let d = &dk[j];
            rows.push(
                BrowserRow {
                    id: d.id.clone(),
                    root: disk_root.to_owned(),
                    daemon: None,
                    disk: Some(copy_disk(d)),
                    started_ms: d.started_ms,
                    activity: d.activity.clone(),
                    attention: d.attention.clone(),
                },
            );
            assert forall|k: int| a.len() <= k < rows@.len() implies disk_row(
                dk@[disk_picks(dk@, ds@, root, j + 1)[k - a.len()]],
                root,
                #[trigger] rows@[k],
            ) by {
                if k < before.len() {
                    assert(rows@[k] == before[k]);
                }
            }
            assert forall|k: int| 0 <= k < a.len() implies #[trigger] rows@[k] == first[k] by {
                assert(before[k] == first[k]);
            }
        }
        j = j + 1;
    }
    rows
}

fn copy_row(r: &BrowserRow) -> (c: BrowserRow)
    ensures
        c == *r,
{
    BrowserRow {
        id: r.id.clone(),
        root: r.root.clone(),
        daemon: match &r.daemon {
            Some(s) => Some(copy_info(s)),
            None => None,
        },
        disk: match &r.disk {
            Some(d) => Some(copy_disk(d)),
            None => None,
        },
        started_ms: r.started_ms,
        activity: r.activity.clone(),
        attention: r.attention.clone(),
    }
}

/// `listed` is `rows` in the order of the list.
pub open spec fn rows_in_order(rows: Seq<BrowserRow>, listed: Seq<BrowserRow>) -> bool {
    exists|order: Seq<usize>|
        {
            &&& #[trigger] arrangement(order, rows.len() as int)
            &&& in_order(order, listed_before(rows))
            &&& listed.len() == rows.len()
            &&& forall|k: int|
                0 <= k < listed.len() ==> #[trigger] listed[k] == rows[order[k] as int]
        }
}

/// The sessions that the daemon knows and those on disk, each once, newest first. What
/// the daemon says of a session holds over what is on disk.
pub fn merge_rows(
    daemon_sessions: &Vec<SessionInfo>,
    disk_sessions: &Vec<DiskSession>,
    disk_root: &str,
) -> (r: Vec<BrowserRow>)
    ensures
        exists|rows: Seq<BrowserRow>| #[trigger]
            rows_match(daemon_sessions@, disk_sessions@, disk_root@, rows) && rows_in_order(
                rows,
                r@,
            ),
{
    let rows = collect_rows(daemon_sessions, disk_sessions, disk_root);
    let ghost lt = listed_before(rows@);
    proof {
        assert forall|x: int, y: int| #[trigger] lt(x, y) implies !lt(y, x) by {
            lemma_text_total(rows@[x].id@, rows@[y].id@);
            lemma_path_order(rows@[x].root@, rows@[y].root@, rows@[x].root@);
        }
        assert forall|x: int, y: int, z: int|
            #![trigger lt(x, y), lt(y, z)]
            !lt(x, y) && !lt(y, z) implies !lt(x, z) by {
            let (a, b, c) = (rows@[x], rows@[y], rows@[z]);
            lemma_text_order(c.id@, b.id@, a.id@);
            lemma_text_total(a.id@, b.id@);
            lemma_text_total(b.id@, c.id@);
            lemma_text_total(a.id@, c.id@);
            lemma_text_order(a.id@, b.id@, c.id@);
            lemma_path_order(c.root@, b.root@, a.root@);
        }
    }
    let less = |i: usize, j: usize| -> (b: bool)
        requires
            rows@.len() > i,
            rows@.len() > j,
        ensures
            b == lt(i as int, j as int),
    { row_less(&rows[i], &rows[j]) };
    let order = arrange(rows.len(), less, Ghost(lt));
    let mut out: Vec<BrowserRow> = Vec::new();
    let mut k: usize = 0;
    while k < order.len()
        invariant
            k <= order@.len(),
            arrangement(order@, rows@.len() as int),
            out@.len() == k,
            forall|m: int| 0 <= m < k ==> #[trigger] out@[m] == rows@[order@[m] as int],
        decreases order.len() - k,
    {
        out.push(copy_row(&rows[order[k]]));
        k = k + 1;
    }
    assert(rows_in_order(rows@, out@)) by {
        assert(arrangement(order@, rows@.len() as int));
    }
    out
}

// ---------------------------------------------------------------------------
// One session, one row
// ---------------------------------------------------------------------------

proof fn lemma_daemon_picks(ds: Seq<SessionInfo>, n: int)
    requires
        0 <= n <= ds.len(),
    ensures
        forall|k: int|
            0 <= k < daemon_picks(ds, n).len() ==> 0 <= #[trigger] daemon_picks(ds, n)[k] < n
                && last_daemon(ds, daemon_picks(ds, n)[k]),
        forall|k: int, m: int|
            0 <= k < m < daemon_picks(ds, n).len() ==> #[trigger] daemon_picks(ds, n)[k]
                < #[trigger] daemon_picks(ds, n)[m],
    decreases n,
{
    if n > 0 {
        lemma_daemon_picks(ds, n - 1);
        let before = daemon_picks(ds, n - 1);
        let after = daemon_picks(ds, n);
        assert(after == before || after == before.push(n - 1));
        assert forall|k: int| 0 <= k < before.len() implies #[trigger] after[k] == before[k] by {}
    }
}

proof fn lemma_disk_picks(dk: Seq<DiskSession>, ds: Seq<SessionInfo>, root: Seq<char>, n: int)
    requires
        0 <= n <= dk.len(),
    ensures
        forall|k: int|
            0 <= k < disk_picks(dk, ds, root, n).len() ==> {
                &&& 0 <= #[trigger] disk_picks(dk, ds, root, n)[k] < n
                &&& last_disk(dk, disk_picks(dk, ds, root, n)[k])
                &&& !daemon_knows(ds, dk[disk_picks(dk, ds, root, n)[k]].id@, root)
            },
        forall|k: int, m: int|
            0 <= k < m < disk_picks(dk, ds, root, n).len() ==> #[trigger] disk_picks(
                dk,
                ds,
                root,
                n,
            )[k] < #[trigger] disk_picks(dk, ds, root, n)[m],
    decreases n,
{
    if n > 0 {
        lemma_disk_picks(dk, ds, root, n - 1);
        let before = disk_picks(dk, ds, root, n - 1);
        let after = disk_picks(dk, ds, root, n);
        assert(after == before || after == before.push(n - 1));
        assert forall|k: int| 0 <= k < before.len() implies #[trigger] after[k] == before[k] by {}
    }
}

/// No session is listed twice: no two rows have the same id in the same place.
pub proof fn sessions_are_listed_once(
    ds: Seq<SessionInfo>,
    dk: Seq<DiskSession>,
    disk_root: Seq<char>,
    rows: Seq<BrowserRow>,
    i: int,
    j: int,
)
    requires
        rows_match(ds, dk, disk_root, rows),
        0 <= i < j < rows.len(),
    ensures
        !same_session(rows[i].id@, rows[i].root@, rows[j].id@, rows[j].root@),
{
    let a = daemon_picks(ds, ds.len() as int);
    let b = disk_picks(dk, ds, disk_root, dk.len() as int);
    lemma_daemon_picks(ds, ds.len() as int);
    lemma_disk_picks(dk, ds, disk_root, dk.len() as int);
    if j < a.len() {
        assert(a[i] < a[j]);
        assert(last_daemon(ds, a[i]));
        assert(!same_session(ds[a[i]].id@, ds[a[i]].root@, ds[a[j]].id@, ds[a[j]].root@));
        assert(daemon_row(ds[a[i]], dk, disk_root, rows[i]));
        assert(daemon_row(ds[a[j]], dk, disk_root, rows[j]));
    } else if i < a.len() {
        let d = dk[b[j - a.len()]];
        assert(daemon_row(ds[a[i]], dk, disk_root, rows[i]));
        assert(disk_row(d, disk_root, rows[j]));
        assert(!daemon_knows(ds, d.id@, disk_root));
        assert(!same_session(d.id@, disk_root, ds[a[i]].id@, ds[a[i]].root@));
    } else {
        assert(b[i - a.len()] < b[j - a.len()]);
        assert(last_disk(dk, b[i - a.len()]));
        assert(disk_row(dk[b[i - a.len()]], disk_root, rows[i]));
        assert(disk_row(dk[b[j - a.len()]], disk_root, rows[j]));
        assert(dk[b[j - a.len()]].id@ != dk[b[i - a.len()]].id@);
    }
}

// ---------------------------------------------------------------------------
// The cells of a row
// ---------------------------------------------------------------------------

/// A session can be attached to.
pub open spec fn attachable(s: SessionStatus) -> bool {
    match s {
        SessionStatus::Completed | SessionStatus::Failed | SessionStatus::Stale => false,
        _ => true,
    }
}

/// Where a session is known from, and what can be done with it.
pub open spec fn source_text(r: BrowserRow) -> Seq<char> {
    let action = if r.daemon is Some && attachable((r.daemon->0).status) {
        "attach"@
    } else {
        "replay"@
    };
    if r.daemon is Some && r.disk is Some {
        "daemon+disk → "@ + action
    } else if r.daemon is Some {
        "daemon → "@ + action
    } else {
        "current disk → replay"@
    }
}

/// A session's place and what it is about.
pub open spec fn project_text(r: BrowserRow) -> Seq<char> {
    if r.daemon is Some && (r.daemon->0).task is Some && ((r.daemon->0).task->0)@.len() > 0 {
        r.root@ + " · "@ + ((r.daemon->0).task->0)@
    } else if r.disk is Some && (r.disk->0).summary@ != "(no final summary)"@ {
        r.root@ + " · "@ + (r.disk->0).summary@
    } else {
        r.root@
    }
}

/// The colour of a status.
#[derive(Debug, Clone, Copy, PartialEq, Eq, Structural)]
pub enum Tint {
    Green,
    Cyan,
    Yellow,
    Red,
    Dim,
}

/// The colour of a status.
pub open spec fn tint_of(s: SessionStatus) -> Tint {
    match s {
        SessionStatus::Running | SessionStatus::Idle => Tint::Green,
        SessionStatus::Starting => Tint::Cyan,
        SessionStatus::AwaitingApproval | SessionStatus::AwaitingInput
        | SessionStatus::Blocked => Tint::Yellow,
        SessionStatus::Failed | SessionStatus::Stale => Tint::Red,
        SessionStatus::Completed => Tint::Dim,
    }
}

/// The colour of a status.
pub fn status_tint(s: SessionStatus) -> (r: Tint)
    ensures
        r == tint_of(s),
{
    match s {
        SessionStatus::Running | SessionStatus::Idle => Tint::Green,
        SessionStatus::Starting => Tint::Cyan,
        SessionStatus::AwaitingApproval | SessionStatus::AwaitingInput
        | SessionStatus::Blocked => Tint::Yellow,
        SessionStatus::Failed | SessionStatus::Stale => Tint::Red,
        SessionStatus::Completed => Tint::Dim,
    }
}

impl BrowserRow {
    /// The status of a session as a cell, and its colour.
    pub fn status_cell(&self) -> (r: (String, Tint))
        ensures
            match self.daemon {
                Some(s) => r.0@ == pad_right(session_word(s.status), 11) && r.1 == tint_of(s.status),
                None => r.0@ == pad_right("saved"@, 11) && r.1 == Tint::Dim,
            },
    {
        match &self.daemon {
            Some(s) => (padded_right(session_status_str(s.status), 11), status_tint(s.status)),
            None => (padded_right("saved", 11), Tint::Dim),
        }
    }

    /// Where the session is known from, and what can be done with it.
    pub fn source_action(&self) -> (r: String)
        requires
            self.daemon is Some || self.disk is Some,
        ensures
            r@ == source_text(*self),
    {
        let attach = match &self.daemon {
            Some(s) => match s.status {
                SessionStatus::Completed | SessionStatus::Failed | SessionStatus::Stale => false,
                _ => true,
            },
            None => false,
        };
        let mut out = match (&self.daemon, &self.disk) {
            (Some(_), Some(_)) => "daemon+disk → ".to_owned(),
            (Some(_), None) => "daemon → ".to_owned(),
            _ => {
                return "current disk → replay".to_owned();
            },
        };
        out.push_str(if attach { "attach" } else { "replay" });
        out
    }

    /// The session's place and what it is about.
    pub fn project_task(&self) -> (r: String)
        ensures
            r@ == project_text(*self),
    {
        let mut out = self.root.clone();
        match &self.daemon {
            Some(s) => match &s.task {
                Some(t) => {
                    if !t.as_str().is_empty() {
                        out.push_str(" · ");
                        out.push_str(t);
                        return out;
                    }
                },
                None => {},
            },
            None => {},
        }
        match &self.disk {
            Some(d) => {
                if !crate::text::same(&d.summary, "(no final summary)") {
                    out.push_str(" · ");
                    out.push_str(&d.summary);
                }
            },
            None => {},
        }
        out
    }
}

/// `s` in at most `max` characters, with a sign where it was cut.
pub open spec fn shortened(s: Seq<char>, max: int) -> Seq<char> {
    if s.len() <= max {
        s
    } else {
        s.take(if max > 0 {
            max - 1
        } else {
            0
        }) + "…"@
    }
}

/// `s` in at most `max` characters.
pub fn truncate(s: &str, max: usize) -> (r: String)
    ensures
        r@ == shortened(s@, max as int),
{
    let cs = chars_of(s);
    if cs.len() <= max {
        return s.to_owned();
    }
    let n: usize = if max > 0 { max - 1 } else { 0 };
    let mut out = string_of(&cs, 0, n);
    assert(out@ =~= s@.take(n as int));
    out.push_str("…");
    out
}

/// The plan and workstream of a session.
pub open spec fn ranch_text(s: SessionInfo) -> Seq<char> {
    match (s.ranch_id, s.workstream_id) {
        (Some(ranch), Some(ws)) => ranch@ + "/"@ + ws@,
        (Some(ranch), None) => ranch@,
        _ => "-"@,
    }
}

/// The plan and workstream of a session.
pub fn ranch_cell(s: &SessionInfo) -> (r: String)
    ensures
        r@ == ranch_text(*s),
{
    match (&s.ranch_id, &s.workstream_id) {
        (Some(ranch), Some(ws)) => {
            let mut out = ranch.clone();
            out.push_str("/");
            out.push_str(ws);
            out
        },
        (Some(ranch), None) => ranch.clone(),
        _ => "-".to_owned(),
    }
}

/// What a session is about: what blocks it, where something does, else its task.
pub open spec fn task_text(s: SessionInfo) -> Seq<char> {
    if s.status == SessionStatus::Blocked && s.blocked_reason is Some {
        "⏸ "@ + (s.blocked_reason->0)@
    } else {
        match s.task {
            Some(t) => t@,
            None => seq![],
        }
    }
}

/// What a session is about.
pub fn task_str(s: &SessionInfo) -> (r: String)
    ensures
        r@ == task_text(*s),
{
    if s.status == SessionStatus::Blocked {
        match &s.blocked_reason {
            Some(reason) => {
                let mut out = "⏸ ".to_owned();
                out.push_str(reason);
                return out;
            },
            None => {},
        }
    }
    match &s.task {
        Some(t) => t.clone(),
        None => {
            let e = String::new();
            assert(e@ =~= seq![]);
            e
        },
    }
}

/// The branch of a session.
pub open spec fn branch_text(s: SessionInfo) -> Seq<char> {
    match s.branch {
        Some(b) => b@,
        None => "-"@,
    }
}

/// The cells of a session in the short list around its status: what stands before it
/// and what stands behind it. The third column is the plan where some session has one,
/// else the place.
pub fn list_cells(s: &SessionInfo, any_ranch: bool) -> (r: (String, String))
    ensures
        r.0@ == pad_right(s.id@, 22) + " "@,
        r.1@ == " "@ + pad_right(branch_text(*s), 18) + " "@ + (if any_ranch {
            pad_right(shortened(ranch_text(*s), 22), 22)
        } else {
            pad_right(shortened(s.root@, 34), 34)
        }) + " "@ + task_text(*s),
{
    let mut head = padded_right(&s.id, 22);
    head.push_str(" ");
    let branch = match &s.branch {
        Some(b) => b.clone(),
        None => "-".to_owned(),
    };
    let mut tail = " ".to_owned();
    tail.push_str(&padded_right(&branch, 18));
    tail.push_str(" ");
    if any_ranch {
        tail.push_str(&padded_right(&truncate(&ranch_cell(s), 22), 22));
    } else {
        tail.push_str(&padded_right(&truncate(&s.root, 34), 34));
    }
    tail.push_str(" ");
    tail.push_str(&task_str(s));
    (head, tail)
}

/// Whether some session belongs to a plan.
pub fn any_ranch(sessions: &Vec<SessionInfo>) -> (r: bool)
    ensures
        r == exists|i: int| 0 <= i < sessions@.len() && (#[trigger] sessions@[i]).ranch_id is Some,
{
    let mut i: usize = 0;
    while i < sessions.len()
        invariant
            i <= sessions@.len(),
            forall|k: int| 0 <= k < i ==> (#[trigger] sessions@[k]).ranch_id is None,
        decreases sessions.len() - i,
    {
        if sessions[i].ranch_id.is_some() {
            assert(sessions@[i as int].ranch_id is Some);
            return true;
        }
        i = i + 1;
    }
    false
}

/// Texts, each behind two spaces.
pub open spec fn shifted(ts: Seq<Seq<char>>) -> Seq<Seq<char>> {
    Seq::new(ts.len(), |i: int| "  "@ + ts[i])
}

/// What is said where sessions that have died were cleared away.
pub open spec fn cleanup_text(
    dry_run: bool,
    reclaimed: Seq<Seq<char>>,
    released: Seq<Seq<char>>,
) -> Seq<Seq<char>> {
    if reclaimed.len() == 0 {
        seq!["no stale sessions to reap"@]
    } else {
        let a = seq![
            (if dry_run {
                "would reap"@
            } else {
                "reaped"@
            }) + " "@ + dec(reclaimed.len()) + " stale session(s):"@,
        ] + shifted(reclaimed);
        let b = if released.len() == 0 {
            a
        } else {
            a.push(
                (if dry_run {
                    "would free"@
                } else {
                    "freed"@
                }) + " "@ + dec(released.len()) + " worktree lease(s):"@,
            ) + shifted(released)
        };
        b.push(
            "\nworktrees and branches are left untouched; end orphaned sessions with `cowboy down`."@,
        )
    }
}

fn push_shifted(out: &mut Vec<String>, ts: &Vec<String>)
    ensures
        strs(final(out)@) == strs(old(out)@) + shifted(strs(ts@)),
{
    let ghost start = strs(out@);
    let ghost all = shifted(strs(ts@));
    let mut i: usize = 0;
    assert(strs(out@) =~= start + all.take(0));
    while i < ts.len()
        invariant
            i <= ts@.len(),
            all == shifted(strs(ts@)),
            strs(out@) == start + all.take(i as int),
        decreases ts.len() - i,
    {
        let mut line = "  ".to_owned();
        line.push_str(&ts[i]);
        assert(strs(ts@)[i as int] == ts@[i as int]@);
        push_text(out, line);
        assert(strs(out@) =~= start + all.take(i + 1));
        i = i + 1;
    }
    assert(all.take(all.len() as int) =~= all);
}

/// What is said where sessions that have died were cleared away, or would be.
pub fn cleanup_lines(dry_run: bool, reclaimed: &Vec<String>, released: &Vec<String>) -> (r: Vec<String>)
    ensures
        strs(r@) == cleanup_text(dry_run, strs(reclaimed@), strs(released@)),
{
    let mut out: Vec<String> = Vec::new();
    assert(strs(reclaimed@).len() == reclaimed@.len());
    assert(strs(released@).len() == released@.len());
    if reclaimed.len() == 0 {
        push_text(&mut out, "no stale sessions to reap".to_owned());
        assert(strs(out@) =~= seq!["no stale sessions to reap"@]);
        return out;
    }
    let mut a = (if dry_run {
        "would reap"
    } else {
        "reaped"
    }).to_owned();
    a.push_str(" ");
    a.push_str(&decimal_size(reclaimed.len()));
    a.push_str(" stale session(s):");
    let ghost head = seq![a@];
    push_text(&mut out, a);
    assert(strs(out@) =~= head);
    push_shifted(&mut out, reclaimed);
    if released.len() > 0 {
        let mut b = (if dry_run {
            "would free"
        } else {
            "freed"
        }).to_owned();
        b.push_str(" ");
        b.push_str(&decimal_size(released.len()));
        b.push_str(" worktree lease(s):");
        push_text(&mut out, b);
        push_shifted(&mut out, released);
    }
    push_text(
        &mut out,
        "\nworktrees and branches are left untouched; end orphaned sessions with `cowboy down`.".to_owned(),
    );
    out
}

/// What a replay says of its session: the daemon's record where there is one, else no
/// more than its id; either way with the status that it ended in.
pub fn replay_info(info: Option<SessionInfo>, id: &str, status: SessionStatus) -> (r: SessionInfo)
    ensures
        info matches Some(i) ==> r == (SessionInfo { status, ..i }),
        info is None ==> {
            &&& r.id@ == id@
            &&& r.root@.len() == 0
            &&& r.task is None
            &&& r.status == status
            &&& r.pid is None
            &&& r.branch is None
            &&& r.session_name is None
            &&& r.worker_sock is None
            &&& r.journal_path is None
            &&& r.lease_mode is None
            &&& r.started_ms == 0
            &&& r.last_heartbeat_ms == 0
            &&& r.turn == 0
            &&& r.tokens == (0u64, 0u64)
            &&& r.attached_clients == 0
            &&& r.diffstat@.len() == 0
            &&& r.running_command is None
            &&& r.blocked_reason is None
            &&& r.ranch_id is None
            &&& r.workstream_id is None
        },
{
    match info {
        Some(i) => {
            let mut out = i;
            out.status = status;
            out
        },
        None => SessionInfo {
            id: id.to_owned(),
            root: String::new(),
            task: None,
            status,
            pid: None,
            branch: None,
            session_name: None,
            worker_sock: None,
            journal_path: None,
            lease_mode: None,
            started_ms: 0,
            last_heartbeat_ms: 0,
            turn: 0,
            tokens: (0, 0),
            attached_clients: 0,
            diffstat: String::new(),
            running_command: None,
            blocked_reason: None,
            ranch_id: None,
            workstream_id: None,
        },
    }
}

/// What the daemon answered when it was asked to clear away what has died.
#[derive(Debug)]
pub enum CleanupReply {
    Cleaned { reclaimed: Vec<String>, released: Vec<String> },
    /// There is no daemon.
    Unreachable,
    /// Something else, as it looks.
    Other(String),
}

/// What is said of clearing away sessions that have died.
pub fn cleanup_report(dry_run: bool, reply: &CleanupReply) -> (r: Result<Vec<String>, String>)
    ensures
        match *reply {
            CleanupReply::Cleaned { reclaimed, released } => r is Ok && strs(r->Ok_0@)
                == cleanup_text(dry_run, strs(reclaimed@), strs(released@)),
            CleanupReply::Unreachable => r is Ok && strs(r->Ok_0@)
                == seq!["nothing to clean up (cowboyd not running)"@],
            CleanupReply::Other(shown) => r is Err && r->Err_0@ == "unexpected daemon response: "@
                + shown@,
        },
{
    match reply {
        CleanupReply::Cleaned { reclaimed, released } => Ok(
            cleanup_lines(dry_run, reclaimed, released),
        ),
        CleanupReply::Unreachable => {
            let mut out: Vec<String> = Vec::new();
            push_text(&mut out, "nothing to clean up (cowboyd not running)".to_owned());
            assert(strs(out@) =~= seq!["nothing to clean up (cowboyd not running)"@]);
            Ok(out)
        },
        CleanupReply::Other(shown) => {
            let mut msg = "unexpected daemon response: ".to_owned();
            msg.push_str(shown);
            Err(msg)
        },
    }
}

/// What the daemon answered when it was asked for its sessions.
#[derive(Debug)]
pub enum ListReply {
    Sessions(Vec<SessionInfo>),
    /// There is no daemon.
    Unreachable,
    /// Something else, as it looks.
    Other(String),
}

/// One session of the short list: what stands before its status, the status and its
/// colour, and what stands behind it.
#[derive(Debug)]
pub struct ListRow {
    pub before: String,
    pub status: String,
    pub tint: Tint,
    pub behind: String,
}

/// The short list: a line where there is nothing to list, else a head and rows.
#[derive(Debug)]
pub enum ShortList {
    Line(&'static str),
    Table { head: String, rows: Vec<ListRow> },
}

/// Some session belongs to a plan.
pub open spec fn in_a_ranch(sessions: Seq<SessionInfo>) -> bool {
    exists|i: int| 0 <= i < sessions.len() && (#[trigger] sessions[i]).ranch_id is Some
}

/// The head of the short list.
pub open spec fn list_head(any_ranch: bool) -> Seq<char> {
    pad_right("ID"@, 22) + " "@ + pad_right("STATUS"@, 11) + " "@ + pad_right("BRANCH"@, 18) + " "@
        + (if any_ranch {
        pad_right("RANCH/WORKSTREAM"@, 22)
    } else {
        pad_right("WORKTREE"@, 34)
    }) + " TASK"@
}

/// A row of the short list is that of a session.
pub open spec fn list_row_of(s: SessionInfo, any_ranch: bool, r: ListRow) -> bool {
    &&& r.before@ == pad_right(s.id@, 22) + " "@
    &&& r.status@ == pad_right(session_word(s.status), 11)
    &&& r.tint == tint_of(s.status)
    &&& r.behind@ == " "@ + pad_right(branch_text(s), 18) + " "@ + (if any_ranch {
        pad_right(shortened(ranch_text(s), 22), 22)
    } else {
        pad_right(shortened(s.root@, 34), 34)
    }) + " "@ + task_text(s)
}

/// The short list of the sessions that the daemon knows. The plan is shown where some
/// session has one, else the place.
pub fn daemon_list(reply: ListReply) -> (r: Result<ShortList, String>)
    ensures
        match reply {
            ListReply::Other(shown) => r is Err && r->Err_0@ == "unexpected daemon response: "@
                + shown@,
            ListReply::Unreachable => r matches Ok(ShortList::Line(l)) && l@
                == "no sessions (cowboyd not running)"@,
            ListReply::Sessions(all) => if all@.len() == 0 {
                r matches Ok(ShortList::Line(l)) && l@ == "no sessions"@
            } else {
                r matches Ok(ShortList::Table { head, rows }) && {
                    &&& head@ == list_head(in_a_ranch(all@))
                    &&& rows@.len() == all@.len()
                    &&& forall|i: int|
                        0 <= i < rows@.len() ==> list_row_of(
                            all@[i],
                            in_a_ranch(all@),
                            #[trigger] rows@[i],
                        )
                }
            },
        },
{
    let sessions = match reply {
        ListReply::Sessions(s) => s,
        ListReply::Unreachable => {
            return Ok(ShortList::Line("no sessions (cowboyd not running)"));
        },
        ListReply::Other(shown) => {
            let mut msg = "unexpected daemon response: ".to_owned();
            msg.push_str(&shown);
            return Err(msg);
        },
    };
    if sessions.len() == 0 {
        return Ok(ShortList::Line("no sessions"));
    }
    let plans = any_ranch(&sessions);
    let mut head = padded_right("ID", 22);
    head.push_str(" ");
    head.push_str(&padded_right("STATUS", 11));
    head.push_str(" ");
    head.push_str(&padded_right("BRANCH", 18));
    head.push_str(" ");
    if plans {
        head.push_str(&padded_right("RANCH/WORKSTREAM", 22));
    } else {
        head.push_str(&padded_right("WORKTREE", 34));
    }
    head.push_str(" TASK");
    let mut rows: Vec<ListRow> = Vec::new();
    let mut i: usize = 0;
    while i < sessions.len()
        invariant
            i <= sessions@.len(),
            rows@.len() == i,
            forall|k: int|
                0 <= k < i ==> list_row_of(sessions@[k], plans, #[trigger] rows@[k]),
        decreases sessions.len() - i,
    {
        let s = &sessions[i];
        let (before, behind) = list_cells(s, plans);
        rows.push(
            ListRow {
                before,
                status: padded_right(session_status_str(s.status), 11),
                tint: status_tint(s.status),
                behind,
            },
        );
        i = i + 1;
    }
    Ok(ShortList::Table { head, rows })
}

// ---------------------------------------------------------------------------
// The full list
// ---------------------------------------------------------------------------

/// The full list: the lines above it, and then that there is nothing to list, or a head
/// and rows.
#[derive(Debug)]
pub struct FullList {
    pub notes: Vec<String>,
    pub list: ShortList,
}

/// The lines above the full list: what it covers, and that the daemon is not there.
pub open spec fn full_notes(root: Seq<char>, available: bool) -> Seq<Seq<char>> {
    let scope = "daemon scope: all known projects · disk history: current project only ("@ + root
        + ")"@;
    if available {
        seq![scope]
    } else {
        seq![scope, "cowboyd unavailable; showing current-project disk history"@]
    }
}

/// The head of the full list.
pub open spec fn full_head() -> Seq<char> {
    pad_right("ID"@, 22) + " "@ + pad_right("STATUS"@, 11) + " "@ + pad_right("ACTIVITY"@, 20)
        + " "@ + pad_right("ATTENTION"@, 18) + " "@ + pad_right("SOURCE / ACTION"@, 22)
        + " PROJECT / TASK"@
}

/// A row of the full list is that of a session.
pub open spec fn full_row_of(s: BrowserRow, r: ListRow) -> bool {
    &&& r.before@ == pad_right(s.id@, 22) + " "@
    &&& match s.daemon {
        Some(d) => r.status@ == pad_right(session_word(d.status), 11) && r.tint == tint_of(d.status),
        None => r.status@ == pad_right("saved"@, 11) && r.tint == Tint::Dim,
    }
    &&& r.behind@ == " "@ + pad_right(shortened(s.activity@, 20), 20) + " "@ + pad_right(
        shortened(s.attention@, 18),
        18,
    ) + " "@ + pad_right(source_text(s), 22) + " "@ + shortened(project_text(s), 46)
}

/// The full list is that of these sessions.
pub open spec fn lists_all(rows: Seq<BrowserRow>, l: ShortList) -> bool {
    if rows.len() == 0 {
        l matches ShortList::Line(t) && t@ == "no sessions"@
    } else {
        l matches ShortList::Table { head, rows: shown } && {
            &&& head@ == full_head()
            &&& shown@.len() == rows.len()
            &&& forall|i: int|
                0 <= i < shown@.len() ==> full_row_of(rows[i], #[trigger] shown@[i])
        }
    }
}

fn full_row(s: &BrowserRow) -> (r: ListRow)
    requires
        s.daemon is Some || s.disk is Some,
    ensures
        full_row_of(*s, r),
{
    let mut before = padded_right(&s.id, 22);
    before.push_str(" ");
    let (status, tint) = s.status_cell();
    let mut behind = " ".to_owned();
    behind.push_str(&padded_right(&truncate(&s.activity, 20), 20));
    behind.push_str(" ");
    behind.push_str(&padded_right(&truncate(&s.attention, 18), 18));
    behind.push_str(" ");
    behind.push_str(&padded_right(&s.source_action(), 22));
    behind.push_str(" ");
    behind.push_str(&truncate(&s.project_task(), 46));
    ListRow { before, status, tint, behind }
}

/// The full list of sessions, each known to the daemon or on disk, and whether the daemon
/// answered.
pub fn full_list(rows: &Vec<BrowserRow>, root: &str, available: bool) -> (r: FullList)
    requires
        forall|i: int|
            0 <= i < rows@.len() ==> (#[trigger] rows@[i]).daemon is Some || rows@[i].disk is Some,
    ensures
        strs(r.notes@) == full_notes(root@, available),
        lists_all(rows@, r.list),
{
    let mut notes: Vec<String> = Vec::new();
    let mut scope = "daemon scope: all known projects · disk history: current project only (".to_owned();
    scope.push_str(root);
    scope.push_str(")");
    push_text(&mut notes, scope);
    if !available {
        push_text(
            &mut notes,
            "cowboyd unavailable; showing current-project disk history".to_owned(),
        );
    }
    assert(strs(notes@) =~= full_notes(root@, available));
    if rows.len() == 0 {
        return FullList { notes, list: ShortList::Line("no sessions") };
    }
    let mut head = padded_right("ID", 22);
    head.push_str(" ");
    head.push_str(&padded_right("STATUS", 11));
    head.push_str(" ");
    head.push_str(&padded_right("ACTIVITY", 20));
    head.push_str(" ");
    head.push_str(&padded_right("ATTENTION", 18));
    head.push_str(" ");
    head.push_str(&padded_right("SOURCE / ACTION", 22));
    head.push_str(" PROJECT / TASK");
    let mut shown: Vec<ListRow> = Vec::new();
    let mut i: usize = 0;
    while i < rows.len()
        invariant
            i <= rows@.len(),
            forall|k: int|
                0 <= k < rows@.len() ==> (#[trigger] rows@[k]).daemon is Some || rows@[k].disk
                    is Some,
            shown@.len() == i,
            forall|k: int| 0 <= k < i ==> full_row_of(rows@[k], #[trigger] shown@[k]),
        decreases rows.len() - i,
    {
        shown.push(full_row(&rows[i]));
        i = i + 1;
    }
    FullList { notes, list: ShortList::Table { head, rows: shown } }
}

/// These are the sessions of the daemon and of the disk, in the order of the list.
pub open spec fn merges(
    ds: Seq<SessionInfo>,
    dk: Seq<DiskSession>,
    disk_root: Seq<char>,
    listed: Seq<BrowserRow>,
) -> bool {
    exists|rows: Seq<BrowserRow>| #[trigger]
        rows_match(ds, dk, disk_root, rows) && rows_in_order(rows, listed)
}

proof fn lemma_merged_are_known(
    ds: Seq<SessionInfo>,
    dk: Seq<DiskSession>,
    disk_root: Seq<char>,
    listed: Seq<BrowserRow>,
    i: int,
)
    requires
        merges(ds, dk, disk_root, listed),
        0 <= i < listed.len(),
    ensures
        listed[i].daemon is Some || listed[i].disk is Some,
{
    let rows = choose|rows: Seq<BrowserRow>| #[trigger]
        rows_match(ds, dk, disk_root, rows) && rows_in_order(rows, listed);
    let order = choose|order: Seq<usize>|
        {
            &&& #[trigger] arrangement(order, rows.len() as int)
            &&& in_order(order, listed_before(rows))
            &&& listed.len() == rows.len()
            &&& forall|k: int|
                0 <= k < listed.len() ==> #[trigger] listed[k] == rows[order[k] as int]
        };
    let k = order[i] as int;
    assert(listed[i] == rows[k]);
    assert(0 <= k < rows.len());
    assert(rows[k].daemon is Some || rows[k].disk is Some);
}

/// The full list: the sessions that the daemon knows, of all projects, together with those
/// that are on disk here. Without a daemon it is those on disk.
pub fn browse(reply: ListReply, disk: &Vec<DiskSession>, root: &str) -> (r: Result<
    FullList,
    String,
>)
    ensures
        match reply {
            ListReply::Other(shown) => r is Err && r->Err_0@ == "unexpected daemon response: "@
                + shown@,
            ListReply::Unreachable => {
                &&& r is Ok
                &&& strs(r->Ok_0.notes@) == full_notes(root@, false)
                &&& exists|rows: Seq<BrowserRow>|
                    merges(seq![], disk@, root@, rows) && #[trigger] lists_all(rows, r->Ok_0.list)
            },
            ListReply::Sessions(all) => {
                &&& r is Ok
                &&& strs(r->Ok_0.notes@) == full_notes(root@, true)
                &&& exists|rows: Seq<BrowserRow>|
                    merges(all@, disk@, root@, rows) && #[trigger] lists_all(rows, r->Ok_0.list)
            },
        },
{
    let (sessions, available) = match reply {
        ListReply::Sessions(s) => (s, true),
        ListReply::Unreachable => {
            let none: Vec<SessionInfo> = Vec::new();
            assert(none@ =~= seq![]);
            (none, false)
        },
        ListReply::Other(shown) => {
            let mut msg = "unexpected daemon response: ".to_owned();
            msg.push_str(&shown);
            return Err(msg);
        },
    };
    let rows = merge_rows(&sessions, disk, root);
    proof {
        assert(merges(sessions@, disk@, root@, rows@));
        assert forall|i: int| 0 <= i < rows@.len() implies (#[trigger] rows@[i]).daemon is Some
            || rows@[i].disk is Some by {
            lemma_merged_are_known(sessions@, disk@, root@, rows@, i);
        }
    }
    let out = full_list(&rows, root, available);
    assert(lists_all(rows@, out.list));
    Ok(out)
}

/// Sessions are listed from the newest to the oldest.
pub proof fn newest_sessions_come_first(
    ds: Seq<SessionInfo>,
    dk: Seq<DiskSession>,
    disk_root: Seq<char>,
    listed: Seq<BrowserRow>,
    i: int,
    j: int,
)
    requires
        merges(ds, dk, disk_root, listed),
        0 <= i < j < listed.len(),
    ensures
        listed[i].started_ms >= listed[j].started_ms,
{
    let rows = choose|rows: Seq<BrowserRow>| #[trigger]
        rows_match(ds, dk, disk_root, rows) && rows_in_order(rows, listed);
    let order = choose|order: Seq<usize>|
        {
            &&& #[trigger] arrangement(order, rows.len() as int)
            &&& in_order(order, listed_before(rows))
            &&& listed.len() == rows.len()
            &&& forall|k: int|
                0 <= k < listed.len() ==> #[trigger] listed[k] == rows[order[k] as int]
        };
    let lt = listed_before(rows);
    assert(!lt(order[j] as int, order[i] as int));
    assert(listed[i] == rows[order[i] as int]);
    assert(listed[j] == rows[order[j] as int]);
}

proof fn lemma_daemon_last(ds: Seq<SessionInfo>, k: int, n: int) -> (j: int)
    requires
        0 <= k < n <= ds.len(),
        forall|m: int|
            n <= m < ds.len() ==> !#[trigger] same_session(
                ds[k].id@,
                ds[k].root@,
                ds[m].id@,
                ds[m].root@,
            ),
    ensures
        k <= j < n,
        same_session(ds[k].id@, ds[k].root@, ds[j].id@, ds[j].root@),
        last_daemon(ds, j),
    decreases n,
{
    if same_session(ds[k].id@, ds[k].root@, ds[n - 1].id@, ds[n - 1].root@) {
        assert forall|m: int| n - 1 < m < ds.len() implies !#[trigger] same_session(
            ds[n - 1].id@,
            ds[n - 1].root@,
            ds[m].id@,
            ds[m].root@,
        ) by {
            assert(!same_session(ds[k].id@, ds[k].root@, ds[m].id@, ds[m].root@));
        }
        n - 1
    } else {
        lemma_daemon_last(ds, k, n - 1)
    }
}

proof fn lemma_disk_last(dk: Seq<DiskSession>, k: int, n: int) -> (j: int)
    requires
        0 <= k < n <= dk.len(),
        forall|m: int| n <= m < dk.len() ==> (#[trigger] dk[m]).id@ != dk[k].id@,
    ensures
        k <= j < n,
        dk[j].id@ == dk[k].id@,
        last_disk(dk, j),
    decreases n,
{
    if dk[n - 1].id@ == dk[k].id@ {
        n - 1
    } else {
        lemma_disk_last(dk, k, n - 1)
    }
}

proof fn lemma_daemon_picked(ds: Seq<SessionInfo>, n: int, j: int)
    requires
        0 <= j < n <= ds.len(),
        last_daemon(ds, j),
    ensures
        daemon_picks(ds, n).contains(j),
    decreases n,
{
    let all = daemon_picks(ds, n);
    if j == n - 1 {
        assert(all.last() == j);
    } else {
        lemma_daemon_picked(ds, n - 1, j);
        let before = daemon_picks(ds, n - 1);
        assert(all[before.index_of(j)] == j);
    }
}

proof fn lemma_disk_picked(
    dk: Seq<DiskSession>,
    ds: Seq<SessionInfo>,
    root: Seq<char>,
    n: int,
    j: int,
)
    requires
        0 <= j < n <= dk.len(),
        last_disk(dk, j),
        !daemon_knows(ds, dk[j].id@, root),
    ensures
        disk_picks(dk, ds, root, n).contains(j),
    decreases n,
{
    let all = disk_picks(dk, ds, root, n);
    if j == n - 1 {
        assert(all.last() == j);
    } else {
        lemma_disk_picked(dk, ds, root, n - 1, j);
        let before = disk_picks(dk, ds, root, n - 1);
        assert(all[before.index_of(j)] == j);
    }
}

/// Every session that the daemon knows is listed, as one that it knows.
pub proof fn known_sessions_are_listed(
    ds: Seq<SessionInfo>,
    dk: Seq<DiskSession>,
    disk_root: Seq<char>,
    rows: Seq<BrowserRow>,
    k: int,
) -> (r: int)
    requires
        rows_match(ds, dk, disk_root, rows),
        0 <= k < ds.len(),
    ensures
        0 <= r < rows.len(),
        rows[r].daemon is Some,
        rows[r].id@ == ds[k].id@,
        path_eq(rows[r].root@, ds[k].root@),
{
    let j = lemma_daemon_last(ds, k, ds.len() as int);
    lemma_daemon_picked(ds, ds.len() as int, j);
    let a = daemon_picks(ds, ds.len() as int);
    let r = a.index_of(j);
    assert(daemon_row(ds[a[r]], dk, disk_root, rows[r]));
    r
}

/// Every session on the disk is listed: by what the daemon knows of it where the daemon
/// knows it, else by what the disk holds.
pub proof fn saved_sessions_are_listed(
    ds: Seq<SessionInfo>,
    dk: Seq<DiskSession>,
    disk_root: Seq<char>,
    rows: Seq<BrowserRow>,
    k: int,
) -> (r: int)
    requires
        rows_match(ds, dk, disk_root, rows),
        0 <= k < dk.len(),
    ensures
        0 <= r < rows.len(),
        rows[r].id@ == dk[k].id@,
        path_eq(rows[r].root@, disk_root),
        rows[r].daemon is Some <==> exists|m: int|
            0 <= m < ds.len() && (#[trigger] ds[m]).id@ == dk[k].id@ && path_eq(
                ds[m].root@,
                disk_root,
            ),
{
    if daemon_knows(ds, dk[k].id@, disk_root) {
        let m = choose|m: int|
            0 <= m < ds.len() && #[trigger] same_session(
                dk[k].id@,
                disk_root,
                ds[m].id@,
                ds[m].root@,
            );
        assert(ds[m].id@ == dk[k].id@);
        known_sessions_are_listed(ds, dk, disk_root, rows, m)
    } else {
        assert forall|m: int| 0 <= m < ds.len() implies !((#[trigger] ds[m]).id@ == dk[k].id@
            && path_eq(ds[m].root@, disk_root)) by {
            assert(!same_session(dk[k].id@, disk_root, ds[m].id@, ds[m].root@));
        }
        let j = lemma_disk_last(dk, k, dk.len() as int);
        lemma_disk_picked(dk, ds, disk_root, dk.len() as int, j);
        let a = daemon_picks(ds, ds.len() as int);
        let b = disk_picks(dk, ds, disk_root, dk.len() as int);
        let r = a.len() + b.index_of(j);
        assert(disk_row(dk[b[r - a.len()]], disk_root, rows[r]));
        r
    }
}

/// What can be done with a listed session: one that the daemon knows and that has neither
/// completed nor failed nor gone stale can be attached to; every other is replayed.
pub proof fn ended_sessions_are_replayed(r: BrowserRow)
    ensures
        ({
            let live = r.daemon matches Some(s) && s.status != SessionStatus::Completed && s.status
                != SessionStatus::Failed && s.status != SessionStatus::Stale;
            let from = if r.daemon is Some && r.disk is Some {
                "daemon+disk → "@
            } else if r.daemon is Some {
                "daemon → "@
            } else {
                "current disk → "@
            };
            r.daemon is Some ==> source_text(r) == from + (if live {
                "attach"@
            } else {
                "replay"@
            })
        }),
        r.daemon is None ==> source_text(r) == "current disk → replay"@,
{
}

/// A text that is cut to a length is at most that long, and begins as it did; one that
/// fits stays as it is.
pub proof fn cutting_keeps_the_beginning(s: Seq<char>, max: int)
    requires
        max > 0,
    ensures
        shortened(s, max).len() <= max,
        s.len() <= max ==> shortened(s, max) == s,
        s.len() > max ==> shortened(s, max).len() == max && shortened(s, max).take(max - 1)
            == s.take(max - 1) && shortened(s, max)[max - 1] == '…',
{
    reveal_strlit("…");
    if s.len() > max {
        assert(shortened(s, max).take(max - 1) =~= s.take(max - 1));
    }
}

/// What needs the user is said of a session exactly where it waits for them, is blocked,
/// has failed or went stale.
pub proof fn attention_is_called_for(s: SessionInfo)
    requires
        s.blocked_reason matches Some(r) ==> r@ != "-"@,
    ensures
        attention_of(s) != "-"@ <==> s.status == SessionStatus::AwaitingApproval || s.status
            == SessionStatus::AwaitingInput || s.status == SessionStatus::Blocked || s.status
            == SessionStatus::Failed || s.status == SessionStatus::Stale,
        s.status == SessionStatus::Blocked ==> (s.blocked_reason matches Some(r) ==> attention_of(s)
            == r@),
{
    reveal_strlit("-");
    reveal_strlit("approval needed");
    reveal_strlit("input needed");
    reveal_strlit("blocked");
    reveal_strlit("failed");
    reveal_strlit("stale");
    assert("approval needed"@.len() != "-"@.len());
    assert("input needed"@.len() != "-"@.len());
    assert("blocked"@.len() != "-"@.len());
    assert("failed"@.len() != "-"@.len());
    assert("stale"@.len() != "-"@.len());
}

/// What a session does is told by the first of these that there is: the command that it
/// runs, its turn, what it has changed, what the disk holds of it.
pub proof fn activity_is_the_latest(s: SessionInfo, disk: Option<DiskSession>)
    ensures
        s.running_command matches Some(c) ==> activity_of(s, disk) == "exec "@ + c@,
        s.running_command is None && s.turn > 0 ==> activity_of(s, disk) == "turn "@ + dec(
            s.turn as nat,
        ),
        s.running_command is None && s.turn == 0 && s.diffstat@.len() > 0 ==> activity_of(s, disk)
            == s.diffstat@,
        s.running_command is None && s.turn == 0 && s.diffstat@.len() == 0 ==> activity_of(s, disk)
            == match disk {
            Some(d) => d.activity@,
            None => "-"@,
        },
{
}

/// A row on a session that the daemon knows holds what it says, with what the disk holds of
/// the session of that id in that place beside it, and the time it began at: as the daemon
/// has it, else as the disk has it, else as the id tells.
pub proof fn rows_join_both_sources(
    s: SessionInfo,
    dk: Seq<DiskSession>,
    disk_root: Seq<char>,
    r: BrowserRow,
)
    requires
        daemon_row(s, dk, disk_root, r),
    ensures
        r.daemon == Some(s),
        r.disk is Some <==> path_eq(s.root@, disk_root) && exists|k: int|
            0 <= k < dk.len() && (#[trigger] dk[k]).id@ == s.id@,
        r.disk matches Some(d) ==> d.id@ == s.id@ && dk.contains(d),
        s.started_ms > 0 ==> r.started_ms == s.started_ms,
        s.started_ms == 0 && r.disk is Some ==> r.started_ms == (r.disk->0).started_ms,
        s.started_ms == 0 && r.disk is None ==> r.started_ms == started_of(s.id@),
{
    lemma_disk_of(dk, disk_root, s.id@, s.root@, dk.len() as int);
}

proof fn lemma_disk_of(
    dk: Seq<DiskSession>,
    disk_root: Seq<char>,
    id: Seq<char>,
    root: Seq<char>,
    n: int,
)
    requires
        0 <= n <= dk.len(),
    ensures
        disk_of(dk, disk_root, id, root, n) is Some <==> path_eq(root, disk_root) && exists|k: int|
            0 <= k < n && (#[trigger] dk[k]).id@ == id,
        disk_of(dk, disk_root, id, root, n) matches Some(d) ==> d.id@ == id && dk.contains(d),
    decreases n,
{
    if n > 0 {
        lemma_disk_of(dk, disk_root, id, root, n - 1);
        if path_eq(root, disk_root) && dk[n - 1].id@ == id {
            assert(dk.contains(dk[n - 1]));
        }
    }
}

/// The time that an id tells is the number in front of its first dash.
pub proof fn ids_tell_when_they_began(n: nat, rest: Seq<char>)
    requires
        n <= u64::MAX,
    ensures
        started_of(dec(n) + "-"@ + rest) == n,
        started_of(dec(n)) == n,
{
    reveal_strlit("-");
    let dash = "-"@;
    assert(dash =~= seq!['-']);
    decimals_are_read_back(n);
    let d = dec(n);
    assert(is_digit(d[0]));
    assert(natural(d) == Some(n));
    let s = d + dash + rest;
    let k = d.len() as int;
    lemma_find(s, dash, 0);
    assert(s.subrange(k, k + 1) =~= dash);
    assert(at(s, dash, k));
    let i = find(s, dash, 0)->0;
    if i < k {
        assert(s.subrange(i, i + 1)[0] == d[i]);
        assert(is_digit(d[i]));
    }
    assert(s.take(k) =~= d);
    lemma_find(d, dash, 0);
    if find(d, dash, 0) is Some {
        let j = find(d, dash, 0)->0;
        assert(d.subrange(j, j + 1)[0] == d[j]);
        assert(is_digit(d[j]));
    }
}

/// The colours of a list tell how a session stands: red is what failed or went stale,
/// yellow what waits for the user, green what is alive.
pub proof fn tints_tell_how_sessions_stand(s: SessionStatus)
    ensures
        tint_of(s) == Tint::Red <==> s == SessionStatus::Failed || s == SessionStatus::Stale,
        tint_of(s) == Tint::Yellow <==> s == SessionStatus::AwaitingApproval || s
            == SessionStatus::AwaitingInput || s == SessionStatus::Blocked,
        tint_of(s) == Tint::Green <==> s == SessionStatus::Running || s == SessionStatus::Idle,
        tint_of(s) == Tint::Dim <==> s == SessionStatus::Completed,
{
}

} // verus!
