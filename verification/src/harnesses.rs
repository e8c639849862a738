//! The programs of other makers that work can be handed to.

use crate::firstrun::Mark;
use crate::text::{push_text, strs};
use crate::words::{join, joined};
use vstd::prelude::*;

verus! {

broadcast use vstd::string::group_string_axioms;

/// How much of a login such a program sees.
#[derive(Debug, Clone, Copy, PartialEq, Eq, Structural)]
pub enum AuthExposure {
    AuthFile,
    FullHome,
}

/// Such a program, and what was found of it.
#[derive(Debug)]
pub struct Harness {
    pub name: String,
    pub kind: String,
    pub model: Option<String>,
    /// Where it is, or why it is nowhere.
    pub binary: Result<String, String>,
    pub version: Option<String>,
    pub logged_in: bool,
    /// What it is called.
    pub command: String,
    pub auth: AuthExposure,
    pub hosts: Vec<String>,
}

/// How texts are set off.
#[derive(Debug)]
pub struct Colours {
    pub bold: Mark,
    pub dim: Mark,
    pub red: Mark,
    pub green: Mark,
}

/// The lines on such a program.
pub open spec fn harness_lines(c: Colours, h: Harness) -> Seq<Seq<char>> {
    seq![
        c.bold.on(h.name@) + "  ("@ + h.kind@ + " CLI"@ + match h.model {
            Some(m) => ", model "@ + m@,
            None => ""@,
        } + ")"@,
        match h.binary {
            Ok(b) => "  binary   "@ + b@ + " "@ + c.dim.on(
                match h.version {
                    Some(v) => v@,
                    None => "(version unknown)"@,
                },
            ),
            Err(e) => "  binary   "@ + c.red.on("missing — "@ + e@),
        },
        "  login    "@ + (if h.logged_in {
            c.green.on("present"@)
        } else {
            c.red.on("missing — run `"@ + h.command@ + " login`"@)
        }),
        "  exposes  "@ + (match h.auth {
            AuthExposure::AuthFile => "the login file only"@,
            AuthExposure::FullHome => "the login + vendor config (auth: full_home)"@,
        }),
        "  hosts    "@ + join(strs(h.hosts@), ", "@),
        ""@,
    ]
}

/// That there is none, and how one is set up.
pub open spec fn none_text(path: Option<String>) -> Seq<char> {
    "no harnesses configured. Add one to "@ + match path {
        Some(p) => p@,
        None => "~/.config/cowboy/harnesses.yaml"@,
    }
        + ":\n\n  harnesses:\n    grok:\n      kind: grok\n\nthen route a crew category to it (`exploration: grok` in crew.yaml), or ask the agent to \"have grok …\"."@
}

/// The lines on the first `n` such programs.
pub open spec fn all_lines(c: Colours, hs: Seq<Harness>, n: int) -> Seq<Seq<char>>
    decreases n,
{
    if n <= 0 {
        seq![]
    } else {
        all_lines(c, hs, n - 1) + harness_lines(c, hs[n - 1])
    }
}

fn push_harness(out: &mut Vec<String>, c: &Colours, h: &Harness)
    ensures
        strs(final(out)@) == strs(old(out)@) + harness_lines(*c, *h),
{
    let ghost start = strs(out@);
    let mut a = c.bold.set(&h.name);
    a.push_str("  (");
    a.push_str(&h.kind);
    a.push_str(" CLI");
    let mut model = "".to_owned();
    match &h.model {
        Some(m) => {
            model = ", model ".to_owned();
            model.push_str(m);
        },
        None => {},
    }
    a.push_str(&model);
    a.push_str(")");
    let mut b = "  binary   ".to_owned();
    match &h.binary {
        Ok(p) => {
            b.push_str(p);
            b.push_str(" ");
            match &h.version {
                Some(v) => b.push_str(&c.dim.set(v)),
                None => b.push_str(&c.dim.set("(version unknown)")),
            }
        },
        Err(e) => {
            let mut m = "missing — ".to_owned();
            m.push_str(e);
            b.push_str(&c.red.set(&m));
        },
    }
    let mut l = "  login    ".to_owned();
    if h.logged_in {
        l.push_str(&c.green.set("present"));
    } else {
        let mut m = "missing — run `".to_owned();
        m.push_str(&h.command);
        m.push_str(" login`");
        l.push_str(&c.red.set(&m));
    }
    let mut e = "  exposes  ".to_owned();
    e.push_str(
        match h.auth {
            AuthExposure::AuthFile => "the login file only",
            AuthExposure::FullHome => "the login + vendor config (auth: full_home)",
        },
    );
    let mut t = "  hosts    ".to_owned();
    t.push_str(&joined(&h.hosts, ", "));
    let ghost want = seq![a@, b@, l@, e@, t@, ""@];
    push_text(out, a);
    push_text(out, b);
    push_text(out, l);
    push_text(out, e);
    push_text(out, t);
    push_text(out, "".to_owned());
    assert(strs(out@) =~= start + want);
    assert(want =~= harness_lines(*c, *h));
}

/// The lines on all such programs, or that there is none.
pub fn list(c: &Colours, all: &Vec<Harness>, path: &Option<String>) -> (r: Vec<String>)
    ensures
        strs(r@) == (if all@.len() == 0 {
            seq![none_text(*path)]
        } else {
            all_lines(*c, all@, all@.len() as int)
        }),
{
    let mut out: Vec<String> = Vec::new();
    assert(strs(out@) =~= seq![]);
    if all.len() == 0 {
        let mut s = "no harnesses configured. Add one to ".to_owned();
        match path {
            Some(p) => s.push_str(p),
            None => s.push_str("~/.config/cowboy/harnesses.yaml"),
        }
        s.push_str(
            ":\n\n  harnesses:\n    grok:\n      kind: grok\n\nthen route a crew category to it (`exploration: grok` in crew.yaml), or ask the agent to \"have grok …\".",
        );
        push_text(&mut out, s);
        assert(strs(out@) =~= seq![none_text(*path)]);
        return out;
    }
    let mut i: usize = 0;
    while i < all.len()
        invariant
            i <= all@.len(),
            strs(out@) == all_lines(*c, all@, i as int),
        decreases all.len() - i,
    {
        push_harness(&mut out, c, &all[i]);
        i = i + 1;
    }
    out
}

} // verus!
