//! Replacing a file as a whole: a sibling is written and renamed over it, so that a reader
//! sees the old content or the new one.

use crate::paths::{below, file_name, last_name, mount_source, parent, parent_path};
use crate::words::{dec, decimal};
use vstd::prelude::*;

verus! {

broadcast use vstd::string::group_string_axioms;

/// How far a write has come.
#[derive(Debug, PartialEq, Eq)]
pub enum WriteStage {
    /// The sibling is to be created.
    Create,
    /// It is to be filled.
    Fill,
    /// It is to get the permissions of the file that it replaces.
    SetMode,
    /// It is to be renamed.
    Rename,
    /// It could not be renamed, and is to be removed.
    Remove { why: String },
    Done,
    Failed { what: String, why: String },
}

/// A write under way.
#[derive(Debug)]
pub struct AtomicWrite {
    /// What is replaced, as it was named.
    pub path: String,
    /// The directory that it is in, and its name there.
    pub dir: String,
    pub name: String,
    /// The name of the sibling.
    pub sibling: String,
    /// The permissions of the file that is replaced, where there is one.
    pub mode: Option<u32>,
    /// Whether the sibling has got them.
    pub mode_set: bool,
    pub stage: WriteStage,
}

/// What is to be done.
#[derive(Debug, PartialEq, Eq)]
pub enum WriteAction {
    /// An empty file is made here.
    Create(String),
    /// The new content is written here, down to the disk.
    Fill(String),
    SetMode(String, u32),
    Rename { from: String, to: String },
    Remove(String),
    Nothing,
}

/// The name of the sibling: hidden, and of one process alone.
pub open spec fn sibling_name(name: Seq<char>, pid: u32) -> Seq<char> {
    "."@ + name + ".cowboy-tmp-"@ + dec(pid as nat)
}

/// Where the sibling is.
pub open spec fn sibling_path(w: AtomicWrite) -> Seq<char> {
    below(w.dir@, w.sibling@)
}

/// The sibling is another file, and permissions are set only where there are any.
pub open spec fn sound(w: AtomicWrite) -> bool {
    &&& w.sibling@ != w.name@
    &&& w.mode_set ==> !(w.stage is Create) && !(w.stage is Fill)
    &&& w.stage is SetMode ==> w.mode is Some
}

/// What is to be done at a stage.
pub open spec fn action_of(w: AtomicWrite, a: WriteAction) -> bool {
    match w.stage {
        WriteStage::Create => a matches WriteAction::Create(p) && p@ == sibling_path(w),
        WriteStage::Fill => a matches WriteAction::Fill(p) && p@ == sibling_path(w),
        WriteStage::SetMode => match w.mode {
            Some(m) => a matches WriteAction::SetMode(p, n) && p@ == sibling_path(w) && n == m,
            None => a is Nothing,
        },
        WriteStage::Rename => a matches WriteAction::Rename { from, to } && from@ == sibling_path(w)
            && to@ == w.path@,
        WriteStage::Remove { .. } => a matches WriteAction::Remove(p) && p@ == sibling_path(w),
        WriteStage::Done | WriteStage::Failed { .. } => a is Nothing,
    }
}

/// What becomes of a write with what came of its action. Permissions that cannot be set
/// do not stop it.
pub open spec fn stepped(w: AtomicWrite, outcome: Result<(), String>, t: AtomicWrite) -> bool {
    match (w.stage, outcome) {
        (WriteStage::Create, Ok(_)) => t == (AtomicWrite { stage: WriteStage::Fill, ..w }),
        (WriteStage::Create, Err(e)) => fails(w, t, "creating temp file "@ + sibling_path(w), e),
        (WriteStage::Fill, Ok(_)) => t == (AtomicWrite {
            stage: if w.mode is Some {
                WriteStage::SetMode
            } else {
                WriteStage::Rename
            },
            ..w
        }),
        (WriteStage::Fill, Err(e)) => fails(w, t, "writing temp file "@ + sibling_path(w), e),
        (WriteStage::SetMode, _) => t == (AtomicWrite {
            stage: WriteStage::Rename,
            mode_set: outcome is Ok,
            ..w
        }),
        (WriteStage::Rename, Ok(_)) => t == (AtomicWrite { stage: WriteStage::Done, ..w }),
        (WriteStage::Rename, Err(e)) => t == (AtomicWrite {
            stage: WriteStage::Remove { why: e },
            ..w
        }),
        (WriteStage::Remove { why }, _) => fails(w, t, "replacing "@ + w.path@, why),
        _ => t == w,
    }
}

/// A write fails at something, for some reason.
pub open spec fn fails(w: AtomicWrite, t: AtomicWrite, what: Seq<char>, why: String) -> bool {
    &&& t == (AtomicWrite { stage: t.stage, ..w })
    &&& t.stage matches WriteStage::Failed { what: x, why: y } && x@ == what && y == why
}

fn fail(w: AtomicWrite, before: &str, at: &str, why: String) -> (t: AtomicWrite)
    ensures
        fails(w, t, before@ + at@, why),
{
    let mut what = before.to_owned();
    what.push_str(at);
    AtomicWrite { stage: WriteStage::Failed { what, why }, ..w }
}

impl AtomicWrite {
    /// A write that begins: of the file at `path`, with the permissions that it has, by a
    /// process of this number.
    pub fn new(path: &str, mode: Option<u32>, pid: u32) -> (r: AtomicWrite)
        ensures
            r.path@ == path@,
            r.dir@ == match parent_path(path@) {
                Some(d) => d,
                None => "."@,
            },
            r.name@ == match last_name(path@) {
                Some(n) => n,
                None => "file"@,
            },
            r.sibling@ == sibling_name(r.name@, pid),
            sound(r),
            r.mode == mode,
            !r.mode_set,
            r.stage == WriteStage::Create,
    {
        let dir = match parent(path) {
            Some(d) => d,
            None => ".".to_owned(),
        };
        let name = match file_name(path) {
            Some(n) => n,
            None => "file".to_owned(),
        };
        let mut sibling = ".".to_owned();
        sibling.push_str(&name);
        sibling.push_str(".cowboy-tmp-");
        sibling.push_str(&decimal(pid as u128));
        proof {
            reveal_strlit(".");
            assert(sibling@.len() > name@.len());
        }
        AtomicWrite {
            path: path.to_owned(),
            dir,
            name,
            sibling,
            mode,
            mode_set: false,
            stage: WriteStage::Create,
        }
    }

    /// What is to be done next.
    pub fn action(&self) -> (r: WriteAction)
        ensures
            action_of(*self, r),
    {
        let at = mount_source(&self.dir, &self.sibling);
        match &self.stage {
            WriteStage::Create => WriteAction::Create(at),
            WriteStage::Fill => WriteAction::Fill(at),
            WriteStage::SetMode => match self.mode {
                Some(m) => WriteAction::SetMode(at, m),
                None => WriteAction::Nothing,
            },
            WriteStage::Rename => WriteAction::Rename { from: at, to: self.path.clone() },
            WriteStage::Remove { .. } => WriteAction::Remove(at),
            WriteStage::Done | WriteStage::Failed { .. } => WriteAction::Nothing,
        }
    }

    /// Goes on with what came of the action.
    pub fn step(self, outcome: Result<(), String>) -> (t: AtomicWrite)
        ensures
            stepped(self, outcome, t),
    {
        let at = mount_source(&self.dir, &self.sibling);
        match (&self.stage, outcome) {
            (WriteStage::Create, Ok(_)) => AtomicWrite { stage: WriteStage::Fill, ..self },
            (WriteStage::Create, Err(e)) => fail(self, "creating temp file ", &at, e),
            (WriteStage::Fill, Ok(_)) => {
                let stage = if self.mode.is_some() {
                    WriteStage::SetMode
                } else {
                    WriteStage::Rename
                };
                AtomicWrite { stage, ..self }
            },
            (WriteStage::Fill, Err(e)) => fail(self, "writing temp file ", &at, e),
            (WriteStage::SetMode, came) => AtomicWrite {
                stage: WriteStage::Rename,
                mode_set: came.is_ok(),
                ..self
            },
            (WriteStage::Rename, Ok(_)) => AtomicWrite { stage: WriteStage::Done, ..self },
            (WriteStage::Rename, Err(why)) => AtomicWrite {
                stage: WriteStage::Remove { why },
                ..self
            },
            (WriteStage::Remove { why }, _) => {
                let why = why.clone();
                let path = self.path.clone();
                fail(self, "replacing ", &path, why)
            },
            _ => self,
        }
    }
}

// ---------------------------------------------------------------------------
// What a reader sees
// ---------------------------------------------------------------------------

/// A file, as a reader sees it.
pub struct Contents {
    pub bytes: Seq<u8>,
    pub mode: nat,
}

/// What the action of a write makes of the files of its directory, by name, where it works
/// and where it does not. A rename is one change.
pub open spec fn does(
    w: AtomicWrite,
    bytes: Seq<u8>,
    works: bool,
    before: Map<Seq<char>, Contents>,
    after: Map<Seq<char>, Contents>,
) -> bool {
    let s = w.sibling@;
    match w.stage {
        WriteStage::Create => if works {
            after.dom().contains(s) && after == before.insert(s, after[s])
        } else {
            after == before
        },
        WriteStage::Fill => {
            &&& after.dom().contains(s)
            &&& after == before.insert(s, after[s])
            &&& works ==> after[s].bytes == bytes
        },
        WriteStage::SetMode => if works && w.mode is Some {
            after == before.insert(s, Contents { mode: (w.mode->0) as nat, ..before[s] })
        } else {
            after == before
        },
        WriteStage::Rename => if works {
            after == before.remove(s).insert(w.name@, before[s])
        } else {
            after == before
        },
        WriteStage::Remove { .. } => if works {
            after == before.remove(s)
        } else {
            after == before
        },
        WriteStage::Done | WriteStage::Failed { .. } => after == before,
    }
}

/// How the files stand at a stage of a write of `bytes` that found them as `start`.
pub open spec fn stands(
    w: AtomicWrite,
    bytes: Seq<u8>,
    start: Map<Seq<char>, Contents>,
    now: Map<Seq<char>, Contents>,
) -> bool {
    let s = w.sibling@;
    match w.stage {
        WriteStage::Create => now == start,
        WriteStage::Fill | WriteStage::Failed { .. } => now.remove(s) == start.remove(s),
        WriteStage::SetMode | WriteStage::Rename | WriteStage::Remove { .. } => {
            &&& now.remove(s) == start.remove(s)
            &&& now.dom().contains(s)
            &&& now[s].bytes == bytes
            &&& w.mode_set ==> w.mode is Some && now[s].mode == w.mode->0
        },
        WriteStage::Done => {
            &&& !now.dom().contains(s)
            &&& now.remove(w.name@) == start.remove(s).remove(w.name@)
            &&& now.dom().contains(w.name@)
            &&& now[w.name@].bytes == bytes
            &&& w.mode_set ==> w.mode is Some && now[w.name@].mode == w.mode->0
        },
    }
}

/// Every step of a write keeps the files as they should stand, whether its action works or
/// not.
pub proof fn steps_keep_files_in_order(
    w: AtomicWrite,
    bytes: Seq<u8>,
    start: Map<Seq<char>, Contents>,
    before: Map<Seq<char>, Contents>,
    outcome: Result<(), String>,
    after: Map<Seq<char>, Contents>,
    t: AtomicWrite,
)
    requires
        sound(w),
        stands(w, bytes, start, before),
        does(w, bytes, outcome is Ok, before, after),
        stepped(w, outcome, t),
    ensures
        sound(t),
        stands(t, bytes, start, after),
{
    let s = w.sibling@;
    let n = w.name@;
    assert(after.remove(s) =~= before.remove(s) || w.stage is Rename);
    if w.stage is Rename && outcome is Ok {
        assert(after.remove(n) =~= before.remove(s).remove(n));
    }
}

/// A file is as it was, or is still not there.
pub open spec fn unchanged(
    start: Map<Seq<char>, Contents>,
    now: Map<Seq<char>, Contents>,
    name: Seq<char>,
) -> bool {
    &&& now.dom().contains(name) <==> start.dom().contains(name)
    &&& start.dom().contains(name) ==> now[name] == start[name]
}

/// At every moment of a write, a reader finds the file as it was, or, once the write is
/// done, with the new content as a whole and with the permissions that it had where those
/// could be set; all other files but the sibling are as they were, and nothing is left of
/// the sibling then.
pub proof fn readers_see_old_or_new(
    w: AtomicWrite,
    bytes: Seq<u8>,
    start: Map<Seq<char>, Contents>,
    now: Map<Seq<char>, Contents>,
)
    requires
        sound(w),
        stands(w, bytes, start, now),
    ensures
        !(w.stage is Done) ==> unchanged(start, now, w.name@),
        w.stage is Done ==> {
            &&& now.dom().contains(w.name@)
            &&& now[w.name@].bytes == bytes
            &&& w.mode_set ==> now[w.name@].mode == w.mode->0
            &&& !now.dom().contains(w.sibling@)
        },
        forall|other: Seq<char>|
            other != w.name@ && other != w.sibling@ ==> #[trigger] unchanged(start, now, other),
{
    let s = w.sibling@;
    let n = w.name@;
    assert forall|other: Seq<char>|
        other != s && (other != n || !(w.stage is Done)) implies #[trigger] unchanged(
        start,
        now,
        other,
    ) by {
        let (a, b) = if w.stage is Done {
            (now.remove(n), start.remove(s).remove(n))
        } else {
            (now.remove(s), start.remove(s))
        };
        assert(a == b);
        assert(a.dom().contains(other) == now.dom().contains(other));
        assert(b.dom().contains(other) == start.dom().contains(other));
        if start.dom().contains(other) {
            assert(a[other] == now[other]);
            assert(b[other] == start[other]);
        }
    }
}

} // verus!
