//! Changes that are shown, kept, applied and undone by git.

use crate::output::{from_utf8_lossy, lossy};
use crate::text::{blank, is_blank, same, trim, trimmed};
use crate::words::{byte_len, bytes_in, dec, decimal_size};
use crate::worktree::outcome_text;
use vstd::prelude::*;

verus! {

broadcast use vstd::string::group_string_axioms;

/// That a directory is in no repository.
pub fn not_a_repository(root: &str) -> (r: String)
    ensures
        r@ == "not a git repository: "@ + root@
            + "\nrun `cowboy init --git` or `git init` first"@,
{
    let mut out = "not a git repository: ".to_owned();
    out.push_str(root);
    out.push_str("\nrun `cowboy init --git` or `git init` first");
    out
}

/// What a command of git wrote, or that it failed and why.
pub open spec fn git_said(what: Seq<char>, success: bool, stdout: Seq<u8>, stderr: Seq<u8>) -> Result<
    Seq<char>,
    Seq<char>,
> {
    if success {
        Ok(lossy(stdout))
    } else {
        Err(what + " failed: "@ + trim(lossy(stderr)))
    }
}

/// What a command of git wrote, or that it failed and why.
pub fn git_result(what: &str, success: bool, stdout: &Vec<u8>, stderr: &Vec<u8>) -> (r: Result<
    String,
    String,
>)
    ensures
        outcome_text(r) == git_said(what@, success, stdout@, stderr@),
{
    if success {
        Ok(from_utf8_lossy(stdout))
    } else {
        let mut why = what.to_owned();
        why.push_str(" failed: ");
        why.push_str(&trimmed(&from_utf8_lossy(stderr)));
        Err(why)
    }
}

/// What is shown of the changes.
pub fn show(diff: &str) -> (r: String)
    ensures
        r@ == (if diff@.len() == 0 {
            "(no uncommitted changes)\n"@
        } else {
            diff@
        }),
{
    if diff.is_empty() {
        "(no uncommitted changes)\n".to_owned()
    } else {
        diff.to_owned()
    }
}

/// What is said where the changes were kept.
pub fn saved_line(path: &str, diff: &str) -> (r: String)
    ensures
        r@ == "saved "@ + path@ + " ("@ + dec(byte_len(diff@)) + " bytes)"@,
{
    let mut out = "saved ".to_owned();
    out.push_str(path);
    out.push_str(" (");
    out.push_str(&decimal_size(bytes_in(diff)));
    out.push_str(" bytes)");
    out
}

/// Whether there is a patch to apply: one that is not blank.
pub fn check_patch(patch: &str) -> (r: Result<(), String>)
    ensures
        match r {
            Ok(_) => !blank(patch@),
            Err(why) => blank(patch@) && why@ == "no patch provided on stdin"@,
        },
{
    if is_blank(patch) {
        Err("no patch provided on stdin".to_owned())
    } else {
        Ok(())
    }
}

/// What is said where a patch applies or was applied.
pub fn applied_line(check_only: bool) -> (r: &'static str)
    ensures
        r@ == (if check_only {
            "patch applies cleanly"@
        } else {
            "patch applied"@
        }),
{
    if check_only {
        "patch applies cleanly"
    } else {
        "patch applied"
    }
}

/// What is done where changes are to be undone.
#[derive(Debug, Clone, Copy, PartialEq, Eq, Structural)]
pub enum Revert {
    /// There are none.
    Nothing,
    /// The user does not want it.
    Abort,
    Discard,
}

/// Yes.
pub open spec fn is_yes(line: Seq<char>) -> bool {
    trim(line) == "y"@ || trim(line) == "Y"@ || trim(line) == "yes"@
}

/// What is done where changes are to be undone: they are where there are any and the user
/// says yes, or has said so beforehand. `answer` is what the user typed.
pub fn revert(diff: &str, assume_yes: bool, answer: &str) -> (r: Revert)
    ensures
        r == (if diff@.len() == 0 {
            Revert::Nothing
        } else if assume_yes || is_yes(answer@) {
            Revert::Discard
        } else {
            Revert::Abort
        }),
{
    if diff.is_empty() {
        return Revert::Nothing;
    }
    if assume_yes {
        return Revert::Discard;
    }
    let t = trimmed(answer);
    if same(&t, "y") || same(&t, "Y") || same(&t, "yes") {
        Revert::Discard
    } else {
        Revert::Abort
    }
}

} // verus!
