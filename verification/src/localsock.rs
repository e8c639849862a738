//! Which directories and sockets a user's control channels may use: those that are the
//! user's own and nobody else's.

use crate::words::{dec, decimal};
use vstd::prelude::*;

verus! {

broadcast use vstd::string::group_string_axioms;

/// What the file system says of a path, a link not followed.
#[derive(Debug, Clone, Copy)]
pub struct FileFacts {
    pub is_symlink: bool,
    pub is_dir: bool,
    pub is_socket: bool,
    pub uid: u32,
    pub mode: u32,
}

/// The mode of a directory for its owner alone.
pub const PRIVATE_DIR: u32 = 0o700;

/// The mode of a socket or file for its owner alone.
pub const PRIVATE_FILE: u32 = 0o600;

/// Why a directory may not hold a control socket.
pub open spec fn dir_error(path: Seq<char>, f: FileFacts, our_uid: u32) -> Option<Seq<char>> {
    if f.is_symlink || !f.is_dir {
        Some(path + " is not a real directory; refusing to put a control socket there"@)
    } else if f.uid != our_uid {
        Some(
            path + " is owned by uid "@ + dec(f.uid as nat)
                + ", not by you; refusing to put a control socket there"@,
        )
    } else {
        None
    }
}

/// What a directory needs before it may hold a control socket: `Some` mode where it is
/// to be set, nothing where it is as it should be. One that is no directory of the
/// user's own is refused.
pub fn ensure_private_dir(path: &str, f: &FileFacts, our_uid: u32) -> (r: Result<Option<u32>, String>)
    ensures
        match r {
            Ok(set) => dir_error(path@, *f, our_uid) is None && set == (if f.mode & 0o777
                != PRIVATE_DIR {
                Some(PRIVATE_DIR)
            } else {
                None
            }),
            Err(why) => dir_error(path@, *f, our_uid) == Some(why@),
        },
{
    if f.is_symlink || !f.is_dir {
        let mut why = path.to_owned();
        why.push_str(" is not a real directory; refusing to put a control socket there");
        return Err(why);
    }
    if f.uid != our_uid {
        let mut why = path.to_owned();
        why.push_str(" is owned by uid ");
        why.push_str(&decimal(f.uid as u128));
        why.push_str(", not by you; refusing to put a control socket there");
        return Err(why);
    }
    if f.mode & 0o777 != PRIVATE_DIR {
        Ok(Some(PRIVATE_DIR))
    } else {
        Ok(None)
    }
}

/// Why a socket may not be spoken to.
pub open spec fn socket_error(path: Seq<char>, f: FileFacts, our_uid: u32) -> Option<Seq<char>> {
    if !f.is_socket {
        Some(path + " is not a socket; refusing to talk to it"@)
    } else if f.uid != our_uid {
        Some(
            path + " is owned by uid "@ + dec(f.uid as nat)
                + ", not by you; refusing to talk to it"@,
        )
    } else {
        None
    }
}

/// Whether a socket may be spoken to: where it is one, and the user's own.
pub fn verify_ours(path: &str, f: &FileFacts, our_uid: u32) -> (r: Result<(), String>)
    ensures
        match r {
            Ok(_) => socket_error(path@, *f, our_uid) is None,
            Err(why) => socket_error(path@, *f, our_uid) == Some(why@),
        },
{
    if !f.is_socket {
        let mut why = path.to_owned();
        why.push_str(" is not a socket; refusing to talk to it");
        return Err(why);
    }
    if f.uid != our_uid {
        let mut why = path.to_owned();
        why.push_str(" is owned by uid ");
        why.push_str(&decimal(f.uid as u128));
        why.push_str(", not by you; refusing to talk to it");
        return Err(why);
    }
    Ok(())
}

/// Whether the other end of a connection is admitted: the user, and nobody of whom it
/// cannot be told.
pub fn peer_is_ours(peer_uid: Option<u32>, our_uid: u32) -> (r: bool)
    ensures
        r == (peer_uid == Some(our_uid)),
{
    match peer_uid {
        Some(uid) => uid == our_uid,
        None => false,
    }
}

/// What keeps the contents of a directory from being believed.
#[derive(Debug, Clone, Copy, PartialEq, Eq, Structural)]
pub enum Distrust {
    /// Nothing is known of it.
    Unknown,
    NotReal,
    Foreign,
    WritableByOthers,
}

impl Distrust {
    /// What is said of it.
    pub open spec fn said(self) -> Seq<char> {
        match self {
            Distrust::Unknown => "it cannot be inspected"@,
            Distrust::NotReal => "not a real directory"@,
            Distrust::Foreign => "owned by another user"@,
            Distrust::WritableByOthers => "writable by others, so its entries may not be ours"@,
        }
    }

    /// What is said of it.
    pub fn why(self) -> (r: &'static str)
        ensures
            r@ == self.said(),
    {
        match self {
            Distrust::Unknown => "it cannot be inspected",
            Distrust::NotReal => "not a real directory",
            Distrust::Foreign => "owned by another user",
            Distrust::WritableByOthers => "writable by others, so its entries may not be ours",
        }
    }
}

/// What keeps the contents of a directory from being believed: of one that is not there
/// nothing does, and one that others can write to is believed by nobody, whatever its
/// mode is set to later.
pub open spec fn distrust(present: bool, facts: Option<FileFacts>, our_uid: u32) -> Option<Distrust> {
    if !present {
        None
    } else {
        match facts {
            None => Some(Distrust::Unknown),
            Some(f) => if f.is_symlink || !f.is_dir {
                Some(Distrust::NotReal)
            } else if f.uid != our_uid {
                Some(Distrust::Foreign)
            } else if f.mode & 0o022 != 0 {
                Some(Distrust::WritableByOthers)
            } else {
                None
            },
        }
    }
}

/// Whether the contents of a directory may be believed.
pub fn readable(present: bool, facts: &Option<FileFacts>, our_uid: u32) -> (r: Result<(), Distrust>)
    ensures
        match r {
            Ok(_) => distrust(present, *facts, our_uid) is None,
            Err(why) => distrust(present, *facts, our_uid) == Some(why),
        },
{
    if !present {
        return Ok(());
    }
    match facts {
        None => Err(Distrust::Unknown),
        Some(f) => if f.is_symlink || !f.is_dir {
            Err(Distrust::NotReal)
        } else if f.uid != our_uid {
            Err(Distrust::Foreign)
        } else if f.mode & 0o022 != 0 {
            Err(Distrust::WritableByOthers)
        } else {
            Ok(())
        },
    }
}

/// A directory that is taken is the user's own, and for the user alone once the mode
/// that is asked for is set.
pub proof fn taken_directories_are_private(path: Seq<char>, f: FileFacts, our_uid: u32, set: Option<u32>)
    requires
        dir_error(path, f, our_uid) is None,
        set == (if f.mode & 0o777 != PRIVATE_DIR {
            Some(PRIVATE_DIR)
        } else {
            None
        }),
    ensures
        f.is_dir && !f.is_symlink && f.uid == our_uid,
        ({
            let mode = match set {
                Some(m) => m,
                None => f.mode,
            };
            mode & 0o777 == 0o700 && mode & 0o077 == 0
        }),
{
    let m = f.mode;
    assert(0o700u32 & 0o777 == 0o700 && 0o700u32 & 0o077 == 0) by (bit_vector);
    assert(m & 0o777 == 0o700 ==> m & 0o077 == 0) by (bit_vector);
}

/// A control socket is put into a directory, and one is talked to, exactly where they are
/// what they should be and the user's own.
pub proof fn strange_places_are_refused(path: Seq<char>, f: FileFacts, our_uid: u32)
    ensures
        dir_error(path, f, our_uid) is None <==> f.is_dir && !f.is_symlink && f.uid == our_uid,
        socket_error(path, f, our_uid) is None <==> f.is_socket && f.uid == our_uid,
{
}

/// What is there is read only where it is known to be a real directory of the user's own
/// that no one else can write to; what is not there harms nothing.
pub proof fn only_own_entries_are_read(present: bool, facts: Option<FileFacts>, our_uid: u32)
    ensures
        distrust(present, facts, our_uid) is None <==> !present || (facts matches Some(f) && f.is_dir
            && !f.is_symlink && f.uid == our_uid && f.mode & 0o022 == 0),
        present && facts is None ==> distrust(present, facts, our_uid) == Some(Distrust::Unknown),
{
}

} // verus!
