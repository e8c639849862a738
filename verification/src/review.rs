//! What is laid out for a review.

use crate::text::{trim, trimmed};
use crate::words::{dec, decimal, decimal_size};
use crate::worktree::{merge_text, merge_word, WorktreeStatus};
use vstd::prelude::*;

verus! {

broadcast use vstd::string::group_string_axioms;

/// A line for each of the first `n` files.
pub open spec fn file_lines(fs: Seq<String>, n: int) -> Seq<char>
    decreases n,
{
    if n <= 0 {
        seq![]
    } else {
        file_lines(fs, n - 1) + ("  "@ + fs[n - 1]@ + "\n"@)
    }
}

/// What a branch changes.
pub open spec fn branch_text(s: WorktreeStatus) -> Seq<char> {
    "forked at "@ + s.base@ + "; "@ + dec(s.files@.len()) + " file(s), +"@ + dec(
        s.insertions as nat,
    ) + " -"@ + dec(s.deletions as nat) + "; merges "@ + merge_word(s.mergeable) + " vs HEAD\n"@
        + file_lines(s.files@, s.files@.len() as int)
}

/// What a branch changes.
pub fn render_branch(s: &WorktreeStatus) -> (r: String)
    ensures
        r@ == branch_text(*s),
{
    let mut out = "forked at ".to_owned();
    out.push_str(&s.base);
    out.push_str("; ");
    out.push_str(&decimal_size(s.files.len()));
    out.push_str(" file(s), +");
    out.push_str(&decimal(s.insertions));
    out.push_str(" -");
    out.push_str(&decimal(s.deletions));
    out.push_str("; merges ");
    out.push_str(merge_text(s.mergeable));
    out.push_str(" vs HEAD\n");
    let ghost head = out@;
    let mut i: usize = 0;
    assert(head + seq![] =~= head);
    while i < s.files.len()
        invariant
            i <= s.files@.len(),
            out@ == head + file_lines(s.files@, i as int),
        decreases s.files.len() - i,
    {
        let mut line = "  ".to_owned();
        line.push_str(&s.files[i]);
        line.push_str("\n");
        proof {
            let b = file_lines(s.files@, i as int);
            assert(head + b + line@ =~= head + (b + line@));
        }
        out.push_str(&line);
        i = i + 1;
    }
    out
}

/// Something that a session put forward.
#[derive(Debug)]
pub struct ArtifactRow {
    pub id: String,
    pub kind: String,
    pub title: String,
}

/// Something that was decided in a session.
#[derive(Debug)]
pub struct DecisionRow {
    pub id: String,
    pub question: String,
    pub selected: Option<String>,
}

/// What is known of a session.
#[derive(Debug)]
pub struct SessionRecord {
    pub id: String,
    /// What it left to those after it.
    pub handoff: Option<String>,
    pub artifacts: Vec<ArtifactRow>,
    pub decisions: Vec<DecisionRow>,
    /// How many steps of it are on record.
    pub events: usize,
    /// How large the record of its changes is, where there is one.
    pub diff_bytes: Option<u64>,
}

/// A line for each of the first `n` things put forward.
pub open spec fn artifact_lines(v: Seq<ArtifactRow>, n: int) -> Seq<char>
    decreases n,
{
    if n <= 0 {
        seq![]
    } else {
        artifact_lines(v, n - 1) + ("- "@ + v[n - 1].id@ + " ["@ + v[n - 1].kind@ + "] "@
            + v[n - 1].title@ + "\n"@)
    }
}

/// A line for each of the first `n` decisions.
pub open spec fn decision_lines(v: Seq<DecisionRow>, n: int) -> Seq<char>
    decreases n,
{
    if n <= 0 {
        seq![]
    } else {
        decision_lines(v, n - 1) + ("- "@ + v[n - 1].id@ + ": "@ + v[n - 1].question@ + " → "@
            + match v[n - 1].selected {
            Some(s) => s@,
            None => "(none)"@,
        } + "\n"@)
    }
}

/// What is laid out of a session.
pub open spec fn session_text(s: SessionRecord) -> Seq<char> {
    let a = "# Review of session "@ + s.id@ + "\n\n"@ + "## Handoff\n"@;
    let b = match s.handoff {
        Some(h) => a + trim(h@) + "\n"@,
        None => a + "(no handoff)\n"@,
    };
    let c = b + "\n## Artifacts ("@ + dec(s.artifacts@.len()) + ")\n"@ + artifact_lines(
        s.artifacts@,
        s.artifacts@.len() as int,
    );
    let d = if s.decisions@.len() > 0 {
        c + "\n## Decisions ("@ + dec(s.decisions@.len()) + ")\n"@ + decision_lines(
            s.decisions@,
            s.decisions@.len() as int,
        )
    } else {
        c
    };
    let e = if s.events > 0 {
        d + "\n## Lifecycle ("@ + dec(s.events as nat) + " events)\n"@
    } else {
        d
    };
    match s.diff_bytes {
        Some(n) => if n > 0 {
            e + "\n## Diff\ndiff.patch ("@ + dec(n as nat) + " bytes)\n"@
        } else {
            e
        },
        None => e,
    }
}

fn push_artifacts(out: &mut String, v: &Vec<ArtifactRow>)
    ensures
        final(out)@ == old(out)@ + artifact_lines(v@, v@.len() as int),
{
    let ghost head = out@;
    let mut i: usize = 0;
    assert(head + seq![] =~= head);
    while i < v.len()
        invariant
            i <= v@.len(),
            out@ == head + artifact_lines(v@, i as int),
        decreases v.len() - i,
    {
        let mut line = "- ".to_owned();
        line.push_str(&v[i].id);
        line.push_str(" [");
        line.push_str(&v[i].kind);
        line.push_str("] ");
        line.push_str(&v[i].title);
        line.push_str("\n");
        proof {
            let b = artifact_lines(v@, i as int);
            assert(head + b + line@ =~= head + (b + line@));
        }
        out.push_str(&line);
        i = i + 1;
    }
}

fn push_decisions(out: &mut String, v: &Vec<DecisionRow>)
    ensures
        final(out)@ == old(out)@ + decision_lines(v@, v@.len() as int),
{
    let ghost head = out@;
    let mut i: usize = 0;
    assert(head + seq![] =~= head);
    while i < v.len()
        invariant
            i <= v@.len(),
            out@ == head + decision_lines(v@, i as int),
        decreases v.len() - i,
    {
        let mut line = "- ".to_owned();
        line.push_str(&v[i].id);
        line.push_str(": ");
        line.push_str(&v[i].question);
        line.push_str(" → ");
        match &v[i].selected {
            Some(s) => line.push_str(s),
            None => line.push_str("(none)"),
        }
        line.push_str("\n");
        proof {
            let b = decision_lines(v@, i as int);
            assert(head + b + line@ =~= head + (b + line@));
        }
        out.push_str(&line);
        i = i + 1;
    }
}

/// What is laid out of a session.
pub fn render_session(s: &SessionRecord) -> (r: String)
    ensures
        r@ == session_text(*s),
{
    let mut out = "# Review of session ".to_owned();
    out.push_str(&s.id);
    out.push_str("\n\n");
    out.push_str("## Handoff\n");
    match &s.handoff {
        Some(h) => {
            out.push_str(&trimmed(h));
            out.push_str("\n");
        },
        None => out.push_str("(no handoff)\n"),
    }
    out.push_str("\n## Artifacts (");
    out.push_str(&decimal_size(s.artifacts.len()));
    out.push_str(")\n");
    push_artifacts(&mut out, &s.artifacts);
    if s.decisions.len() > 0 {
        out.push_str("\n## Decisions (");
        out.push_str(&decimal_size(s.decisions.len()));
        out.push_str(")\n");
        push_decisions(&mut out, &s.decisions);
    }
    if s.events > 0 {
        out.push_str("\n## Lifecycle (");
        out.push_str(&decimal_size(s.events));
        out.push_str(" events)\n");
    }
    match s.diff_bytes {
        Some(n) => if n > 0 {
            out.push_str("\n## Diff\ndiff.patch (");
            out.push_str(&decimal(n as u128));
            out.push_str(" bytes)\n");
        },
        None => {},
    }
    out
}

/// What is kept of a review: what was laid out, and room for what is found.
pub fn review_record(bundle: &str) -> (r: String)
    ensures
        r@ == bundle@ + "\n## Findings\n(add review findings here)\n"@,
{
    let mut out = bundle.to_owned();
    out.push_str("\n## Findings\n(add review findings here)\n");
    out
}

} // verus!
