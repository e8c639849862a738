//! Paths of the host that a user lets the sandbox see.

use crate::text::{push_text, strs};
use crate::words::{pad_right, padded_right};
use vstd::prelude::*;

verus! {

broadcast use vstd::string::group_string_axioms;

/// What a user asks for.
#[derive(Debug)]
pub struct GrantArgs {
    pub path: Option<String>,
    pub ro: bool,
    pub global: bool,
    pub list: bool,
    pub remove: bool,
}

/// What is to be done.
#[derive(Debug)]
pub enum Request {
    List,
    Remove(String),
    Grant(String),
}

/// What is to be done: the list goes before everything else, and anything else needs a
/// path.
pub fn request(args: &GrantArgs) -> (r: Result<Request, String>)
    ensures
        match r {
            Ok(Request::List) => args.list,
            Ok(Request::Remove(p)) => !args.list && args.remove && args.path == Some(p),
            Ok(Request::Grant(p)) => !args.list && !args.remove && args.path == Some(p),
            Err(why) => !args.list && args.path is None && why@
                == "give a path to grant, or `--list` to see the current ones"@,
        },
{
    if args.list {
        return Ok(Request::List);
    }
    match &args.path {
        None => Err("give a path to grant, or `--list` to see the current ones".to_owned()),
        Some(p) => if args.remove {
            Ok(Request::Remove(p.clone()))
        } else {
            Ok(Request::Grant(p.clone()))
        },
    }
}

/// What is said where a grant was to be forgotten.
pub fn removed_lines(path: &str, changed: bool) -> (r: Vec<String>)
    ensures
        strs(r@) == (if changed {
            seq![
                "forgot the grant for "@ + path@,
                "Running commands keep it until the session restarts."@,
            ]
        } else {
            seq!["no saved grant for "@ + path@]
        }),
{
    let mut out: Vec<String> = Vec::new();
    if changed {
        let mut a = "forgot the grant for ".to_owned();
        a.push_str(path);
        push_text(&mut out, a);
        push_text(&mut out, "Running commands keep it until the session restarts.".to_owned());
        assert(strs(out@) =~= seq![
            "forgot the grant for "@ + path@,
            "Running commands keep it until the session restarts."@,
        ]);
    } else {
        let mut a = "no saved grant for ".to_owned();
        a.push_str(path);
        push_text(&mut out, a);
        assert(strs(out@) =~= seq!["no saved grant for "@ + path@]);
    }
    out
}

/// What a path may be used for.
pub open spec fn access(ro: bool) -> Seq<char> {
    if ro {
        "read-only"@
    } else {
        "read-write"@
    }
}

/// What is said where a path was granted, `label` being for whom.
pub fn granted_lines(path: &str, ro: bool, label: &str, changed: bool) -> (r: Vec<String>)
    ensures
        strs(r@) == (if changed {
            seq![
                "granted "@ + access(ro) + " access to "@ + path@ + " for "@ + label@,
                "It applies to the next command, in this session and future ones."@,
                "Already-running processes keep their old view until restarted."@,
            ]
        } else {
            seq![path@ + " was already granted "@ + access(ro) + " for "@ + label@]
        }),
{
    let word = if ro {
        "read-only"
    } else {
        "read-write"
    };
    let mut out: Vec<String> = Vec::new();
    if changed {
        let mut a = "granted ".to_owned();
        a.push_str(word);
        a.push_str(" access to ");
        a.push_str(path);
        a.push_str(" for ");
        a.push_str(label);
        let ghost first = a@;
        push_text(&mut out, a);
        push_text(
            &mut out,
            "It applies to the next command, in this session and future ones.".to_owned(),
        );
        push_text(
            &mut out,
            "Already-running processes keep their old view until restarted.".to_owned(),
        );
        assert(strs(out@) =~= seq![
            first,
            "It applies to the next command, in this session and future ones."@,
            "Already-running processes keep their old view until restarted."@,
        ]);
    } else {
        let mut a = path.to_owned();
        a.push_str(" was already granted ");
        a.push_str(word);
        a.push_str(" for ");
        a.push_str(label);
        let ghost first = a@;
        push_text(&mut out, a);
        assert(strs(out@) =~= seq![first]);
    }
    out
}

/// A grant that is kept.
#[derive(Debug)]
pub struct SavedGrant {
    pub path: String,
    pub read_only: bool,
    /// For whom it is.
    pub scope: String,
    /// Why it is refused now, where it is.
    pub refused: Option<String>,
    pub present: bool,
}

/// The line on a grant: that it is refused goes before that its path is gone.
pub open spec fn grant_line(g: SavedGrant) -> Seq<char> {
    "  "@ + (if g.read_only {
        "ro"@
    } else {
        "rw"@
    }) + "  "@ + pad_right(g.scope@, 12) + "  "@ + g.path@ + match g.refused {
        Some(why) => "  REFUSED: "@ + why@,
        None => if !g.present {
            "  (path no longer exists)"@
        } else {
            ""@
        },
    }
}

/// The lines on the grants of a project.
pub fn list(root: &str, all: &Vec<SavedGrant>) -> (r: Vec<String>)
    ensures
        strs(r@) == (if all@.len() == 0 {
            seq!["no saved grants for "@ + root@, "Add one with `cowboy grant <path>`."@]
        } else {
            seq!["saved grants for "@ + root@ + "\n"@] + Seq::new(
                all@.len(),
                |i: int| grant_line(all@[i]),
            )
        }),
{
    let mut out: Vec<String> = Vec::new();
    if all.len() == 0 {
        let mut a = "no saved grants for ".to_owned();
        a.push_str(root);
        push_text(&mut out, a);
        push_text(&mut out, "Add one with `cowboy grant <path>`.".to_owned());
        assert(strs(out@) =~= seq![
            "no saved grants for "@ + root@,
            "Add one with `cowboy grant <path>`."@,
        ]);
        return out;
    }
    let mut head = "saved grants for ".to_owned();
    head.push_str(root);
    head.push_str("\n");
    let ghost h = seq![head@];
    push_text(&mut out, head);
    let ghost ls = Seq::new(all@.len(), |i: int| grant_line(all@[i]));
    let mut i: usize = 0;
    assert(strs(out@) =~= h + ls.take(0));
    while i < all.len()
        invariant
            i <= all@.len(),
            ls == Seq::new(all@.len(), |i: int| grant_line(all@[i])),
            strs(out@) == h + ls.take(i as int),
        decreases all.len() - i,
    {
        let g = &all[i];
        let mut line = "  ".to_owned();
        line.push_str(
            if g.read_only {
                "ro"
            } else {
                "rw"
            },
        );
        line.push_str("  ");
        line.push_str(&padded_right(&g.scope, 12));
        line.push_str("  ");
        line.push_str(&g.path);
        let mut note = "".to_owned();
        match &g.refused {
            Some(why) => {
                note = "  REFUSED: ".to_owned();
                note.push_str(why);
            },
            None => if !g.present {
                note = "  (path no longer exists)".to_owned();
            },
        }
        line.push_str(&note);
        assert(line@ == ls[i as int]);
        push_text(&mut out, line);
        assert(strs(out@) =~= h + ls.take(i + 1));
        i = i + 1;
    }
    assert(ls.take(ls.len() as int) =~= ls);
    out
}

} // verus!
