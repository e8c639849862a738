//! Small decisions around a session: its task, what is left of one, and what was
//! remembered.

use crate::text::{trim, trimmed};
use crate::words::{quote, quoted};
use vstd::prelude::*;

verus! {

broadcast use vstd::string::group_string_axioms;

/// The task of a session: the one given, or else what the user types, where that is
/// anything.
pub fn resolve_task(task: Option<String>, typed: &str) -> (r: Option<String>)
    ensures
        match task {
            Some(t) => r == Some(t),
            None => if trim(typed@).len() == 0 {
                r is None
            } else {
                r matches Some(t) && t@ == trim(typed@)
            },
        },
{
    match task {
        Some(t) => Some(t),
        None => {
            let t = trimmed(typed);
            if t.as_str().is_empty() {
                None
            } else {
                Some(t)
            }
        },
    }
}

/// What a session left to those after it, or that it left nothing.
pub fn handoff(id: &str, body: Option<String>) -> (r: Result<String, String>)
    ensures
        match body {
            Some(b) => r == Ok::<String, String>(b),
            None => r matches Err(why) && why@ == "no handoff for session "@ + id@
                + " (not finished yet?)"@,
        },
{
    match body {
        Some(b) => Ok(b),
        None => {
            let mut why = "no handoff for session ".to_owned();
            why.push_str(id);
            why.push_str(" (not finished yet?)");
            Err(why)
        },
    }
}

/// The session that is meant: the one given, or else the latest.
pub fn session_or_latest(given: Option<String>, latest: Option<String>, missing: &str) -> (r: Result<
    String,
    String,
>)
    ensures
        match (given, latest) {
            (Some(g), _) => r == Ok::<String, String>(g),
            (None, Some(l)) => r == Ok::<String, String>(l),
            (None, None) => r matches Err(why) && why@ == missing@,
        },
{
    match given {
        Some(g) => Ok(g),
        None => match latest {
            Some(l) => Ok(l),
            None => Err(missing.to_owned()),
        },
    }
}

/// What is shown of what is remembered.
pub fn memory_list(index: &str) -> (r: String)
    ensures
        r@ == (if index@.len() == 0 {
            "no memories stored\n"@
        } else {
            index@
        }),
{
    if index.is_empty() {
        "no memories stored\n".to_owned()
    } else {
        index.to_owned()
    }
}

/// That nothing is remembered under a name.
pub fn no_memory(name: &str) -> (r: String)
    ensures
        r@ == "no memory named "@ + quoted(name@),
{
    let mut out = "no memory named ".to_owned();
    out.push_str(&quote(name));
    out
}

} // verus!
