//! The texts of a plan: its first draft, its status, and the task of a workstream.

use crate::choice::{ascending, lemma_one_more};
use crate::depths::{dep_depths, depth_key, depths_of, laid_before, layout_order, Depths};
use crate::order::{arrangement, in_order};
use crate::ranch::{proposal_status_str, proposal_word, ranch_status, ranch_word, ws_glyph, ws_sign,
    ws_status, ws_word, ProposalStatus, Ranch, Workstream};
use crate::text::{chars_of, string_of, strs};
use crate::words::{as_much_fits_as_can, byte_len, bytes_in, concat, dec, decimal, decimal_size,
    fitting, fitting_chars, join, joined, pad_right, padded_right, quote, quoted};
use vstd::prelude::*;

verus! {

broadcast use vstd::string::group_string_axioms;

// ---------------------------------------------------------------------------
// A new plan
// ---------------------------------------------------------------------------

/// The goal of a plan, or a place to write it.
pub open spec fn goal_or_default(goal: Option<Seq<char>>) -> Seq<char> {
    match goal {
        Some(g) => g,
        None => "(describe the overall goal)"@,
    }
}

/// The file of a new plan: no workstreams yet, and an example of some in comments.
pub fn new_plan(id: &str, title: &str, goal: &Option<String>, now: u64) -> (r: String)
    ensures
        r@ == "version: 1\nid: "@ + id@ + "\ntitle: "@ + quoted(title@) + "\ngoal: "@ + quoted(goal_or_default(crate::grep::opt(*goal))) + "\nstatus: planning\nauto_advance: true  # daemon launches ready workstreams as deps finish\ncreated_ms: "@ + dec(now as nat) + "\nupdated_ms: "@ + dec(now as nat) + "\nworkstreams: []\n# Define the workstreams to run, e.g.:\n# workstreams:\n#   - id: schema\n#     title: Add billing schema\n#     goal: Add tables + migrations for billing.\n#     depends_on: []\n#     expected_artifacts: [schema-contract.md]\n#     acceptance:\n#       - migrations apply cleanly\n#   - id: api\n#     title: Implement billing API\n#     depends_on: [schema]\n#     expected_artifacts: [api-contract.md]\n"@,
{
    let aim = match goal {
        Some(g) => g.clone(),
        None => "(describe the overall goal)".to_owned(),
    };
    let mut out = "version: 1\nid: ".to_owned();
    out.push_str(id);
    out.push_str("\ntitle: ");
    out.push_str(&quote(title));
    out.push_str("\ngoal: ");
    out.push_str(&quote(&aim));
    out.push_str("\nstatus: planning\nauto_advance: true  # daemon launches ready workstreams as deps finish\ncreated_ms: ");
    out.push_str(&decimal(now as u128));
    out.push_str("\nupdated_ms: ");
    out.push_str(&decimal(now as u128));
    out.push_str("\nworkstreams: []\n# Define the workstreams to run, e.g.:\n# workstreams:\n#   - id: schema\n#     title: Add billing schema\n#     goal: Add tables + migrations for billing.\n#     depends_on: []\n#     expected_artifacts: [schema-contract.md]\n#     acceptance:\n#       - migrations apply cleanly\n#   - id: api\n#     title: Implement billing API\n#     depends_on: [schema]\n#     expected_artifacts: [api-contract.md]\n");
    out
}

/// The task of a session that drafts a plan for `goal`.
pub fn plan_task(goal: &str) -> (r: String)
    ensures
        r@ == "Plan a multi-workstream Ranch Plan for the goal below — DO NOT implement anything or edit files. Research the codebase READ-ONLY (read/grep/ls) to find the natural seams, then decompose the goal into independent, parallelizable workstreams wired by dependencies (a DAG), and call the `propose_ranch` tool ONCE with the full decomposition (ids, goals, depends_on, expected artifacts, acceptance criteria). Keep workstreams coarse-grained. After it's drafted, summarize the plan and tell me to review it with `cowboy ranch status`.\n\nGoal: "@ + goal@,
{
    let mut out = "Plan a multi-workstream Ranch Plan for the goal below — DO NOT implement anything or edit files. Research the codebase READ-ONLY (read/grep/ls) to find the natural seams, then decompose the goal into independent, parallelizable workstreams wired by dependencies (a DAG), and call the `propose_ranch` tool ONCE with the full decomposition (ids, goals, depends_on, expected artifacts, acceptance criteria). Keep workstreams coarse-grained. After it's drafted, summarize the plan and tell me to review it with `cowboy ranch status`.\n\nGoal: ".to_owned();
    out.push_str(goal);
    out
}

// ---------------------------------------------------------------------------
// The task of a workstream
// ---------------------------------------------------------------------------

/// Bytes of one artifact that are put into a task.
pub const ARTIFACT_BYTES: usize = 8000;

/// `s` cut to at most `max` bytes, between characters, with a note of the cut.
pub open spec fn truncated(s: Seq<char>, max: int) -> Seq<char> {
    if byte_len(s) <= max {
        s
    } else {
        s.take(fitting(s, max)) + "\n…(truncated)"@
    }
}

/// Cuts `s` to at most `max` bytes.
pub fn truncate(s: &str, max: usize) -> (r: String)
    ensures
        r@ == truncated(s@, max as int),
{
    if bytes_in(s) <= max {
        return s.to_owned();
    }
    let cs = chars_of(s);
    let n = fitting_chars(&cs, max);
    let mut out = string_of(&cs, 0, n);
    assert(out@ =~= s@.take(n as int));
    out.push_str("\n…(truncated)");
    out
}

/// A file that a dependency published.
#[derive(Debug)]
pub struct Artifact {
    pub dependency: String,
    pub name: String,
    pub body: String,
}

/// One artifact in a task.
pub open spec fn artifact_block(a: Artifact) -> Seq<char> {
    "\n### "@ + a.dependency@ + "/"@ + a.name@ + "\n"@ + truncated(a.body@, ARTIFACT_BYTES as int)
        + "\n"@
}

/// The first `n` artifacts in a task.
pub open spec fn artifact_blocks(artifacts: Seq<Artifact>, n: int) -> Seq<char>
    decreases n,
{
    if n <= 0 {
        seq![]
    } else {
        artifact_blocks(artifacts, n - 1) + artifact_block(artifacts[n - 1])
    }
}

/// The first `n` criteria, a line each.
pub open spec fn criteria(lines: Seq<Seq<char>>, n: int) -> Seq<char>
    decreases n,
{
    if n <= 0 {
        seq![]
    } else {
        criteria(lines, n - 1) + ("- "@ + lines[n - 1] + "\n"@)
    }
}

/// The rules that end every task.
pub open spec fn coordination_rules() -> Seq<char> {
    "\nCoordination rules:\n- Work only on this workstream, in this worktree.\n- Publish status/blockers/outputs with your tools (artifact / blocked / handoff).\n- Do NOT edit the ranch plan. If it looks wrong (a workstream is missing, unnecessary, or misscoped), use `propose_scope_change` to file a proposal for the user to approve — never change scope on your own.\n- Make a solid first attempt now: publish the expected artifacts and a handoff, then stop. This is an interactive workstream — the user will attach, review your work, refine it with you, and sign off with `/accept` when satisfied. Do NOT consider the workstream complete yourself; wait for their direction.\n"@
}

/// The task of a workstream: the plan's goal and its own, what it depends on, what is
/// expected of it, what its dependencies published, and the rules.
pub open spec fn task_text(ranch: Ranch, ws: Workstream, artifacts: Seq<Artifact>) -> Seq<char> {
    let a = "You are running ONE workstream of a larger Ranch Plan.\n\nRanch: "@ + ranch.title@
        + "\n"@;
    let b = if ranch.goal@.len() > 0 {
        a + "Ranch goal: "@ + ranch.goal@ + "\n"@
    } else {
        a
    };
    let c = b + "\nYour workstream: "@ + ws.title@ + " ("@ + ws.id@ + ")\n"@;
    let d = if ws.goal@.len() > 0 {
        c + ws.goal@ + "\n"@
    } else {
        c
    };
    let e = if ws.depends_on@.len() > 0 {
        d + "\nDepends on (complete): "@ + join(strs(ws.depends_on@), ", "@) + "\n"@
    } else {
        d
    };
    let f = if ws.expected_artifacts@.len() > 0 {
        e + "Expected artifacts to publish: "@ + join(strs(ws.expected_artifacts@), ", "@) + "\n"@
    } else {
        e
    };
    let g = if ws.acceptance@.len() > 0 {
        f + "\nAcceptance criteria:\n"@ + criteria(
            strs(ws.acceptance@),
            ws.acceptance@.len() as int,
        )
    } else {
        f
    };
    let h = if artifacts.len() > 0 {
        g + "\nArtifacts from your dependencies (consume these):\n"@ + artifact_blocks(
            artifacts,
            artifacts.len() as int,
        )
    } else {
        g
    };
    h + coordination_rules()
}

/// The task of a workstream.
pub fn compose_task(ranch: &Ranch, ws: &Workstream, artifacts: &Vec<Artifact>) -> (r: String)
    ensures
        r@ == task_text(*ranch, *ws, artifacts@),
{
    let mut out = "You are running ONE workstream of a larger Ranch Plan.\n\nRanch: ".to_owned();
    out.push_str(&ranch.title);
    out.push_str("\n");
    if !ranch.goal.as_str().is_empty() {
        out.push_str("Ranch goal: ");
        out.push_str(&ranch.goal);
        out.push_str("\n");
    }
    out.push_str("\nYour workstream: ");
    out.push_str(&ws.title);
    out.push_str(" (");
    out.push_str(&ws.id);
    out.push_str(")\n");
    if !ws.goal.as_str().is_empty() {
        out.push_str(&ws.goal);
        out.push_str("\n");
    }
    if ws.depends_on.len() > 0 {
        out.push_str("\nDepends on (complete): ");
        out.push_str(&joined(&ws.depends_on, ", "));
        out.push_str("\n");
    }
    if ws.expected_artifacts.len() > 0 {
        out.push_str("Expected artifacts to publish: ");
        out.push_str(&joined(&ws.expected_artifacts, ", "));
        out.push_str("\n");
    }
    if ws.acceptance.len() > 0 {
        out.push_str("\nAcceptance criteria:\n");
        let ghost head = out@;
        let ghost ls = strs(ws.acceptance@);
        let mut i: usize = 0;
        assert(head + seq![] =~= head);
        while i < ws.acceptance.len()
            invariant
                i <= ws.acceptance@.len(),
                ls == strs(ws.acceptance@),
                out@ == head + criteria(ls, i as int),
            decreases ws.acceptance.len() - i,
        {
            let mut line = "- ".to_owned();
            line.push_str(&ws.acceptance[i]);
            line.push_str("\n");
            proof {
                assert(ls[i as int] == ws.acceptance@[i as int]@);
                assert(head + criteria(ls, i as int) + line@ =~= head + (criteria(ls, i as int)
                    + line@));
            }
            out.push_str(&line);
            i = i + 1;
        }
    }
    if artifacts.len() > 0 {
        out.push_str("\nArtifacts from your dependencies (consume these):\n");
        let ghost head = out@;
        let mut i: usize = 0;
        assert(head + seq![] =~= head);
        while i < artifacts.len()
            invariant
                i <= artifacts@.len(),
                out@ == head + artifact_blocks(artifacts@, i as int),
            decreases artifacts.len() - i,
        {
            let a = &artifacts[i];
            let mut block = "\n### ".to_owned();
            block.push_str(&a.dependency);
            block.push_str("/");
            block.push_str(&a.name);
            block.push_str("\n");
            block.push_str(&truncate(&a.body, ARTIFACT_BYTES));
            block.push_str("\n");
            proof {
                let b = artifact_blocks(artifacts@, i as int);
                assert(head + b + block@ =~= head + (b + block@));
            }
            out.push_str(&block);
            i = i + 1;
        }
    }
    out.push_str(
        "\nCoordination rules:\n- Work only on this workstream, in this worktree.\n- Publish status/blockers/outputs with your tools (artifact / blocked / handoff).\n- Do NOT edit the ranch plan. If it looks wrong (a workstream is missing, unnecessary, or misscoped), use `propose_scope_change` to file a proposal for the user to approve — never change scope on your own.\n- Make a solid first attempt now: publish the expected artifacts and a handoff, then stop. This is an interactive workstream — the user will attach, review your work, refine it with you, and sign off with `/accept` when satisfied. Do NOT consider the workstream complete yourself; wait for their direction.\n",
    );
    out
}

// ---------------------------------------------------------------------------
// Reports
// ---------------------------------------------------------------------------

/// What is said of a workstream that was added.
pub fn added_report(ranch_id: &str, ws: &Workstream) -> (r: String)
    ensures
        r@ == "✓ added workstream `"@ + ws.id@ + "` to ranch `"@ + ranch_id@ + "` (depends on: "@
            + (if ws.depends_on@.len() == 0 {
            "none (ready to start)"@
        } else {
            join(strs(ws.depends_on@), ", "@)
        }) + ")\n  next: `cowboy ranch status "@ + ranch_id@
            + "` · start with `cowboy ranch start "@ + ranch_id@ + "`\n"@,
{
    let deps = if ws.depends_on.len() == 0 {
        "none (ready to start)".to_owned()
    } else {
        joined(&ws.depends_on, ", ")
    };
    let mut out = "✓ added workstream `".to_owned();
    out.push_str(&ws.id);
    out.push_str("` to ranch `");
    out.push_str(ranch_id);
    out.push_str("` (depends on: ");
    out.push_str(&deps);
    out.push_str(")\n  next: `cowboy ranch status ");
    out.push_str(ranch_id);
    out.push_str("` · start with `cowboy ranch start ");
    out.push_str(ranch_id);
    out.push_str("`\n");
    out
}

/// One plan in the table of plans.
pub open spec fn ranch_row(r: Ranch) -> Seq<char> {
    pad_right(r.id@, 20) + " "@ + pad_right(ranch_word(r.status), 12) + " "@ + pad_right(
        dec(r.workstreams@.len()),
        12,
    ) + " "@ + r.title@ + "\n"@
}

/// The first `n` rows of the table of plans.
pub open spec fn ranch_rows(rs: Seq<Ranch>, n: int) -> Seq<char>
    decreases n,
{
    if n <= 0 {
        seq![]
    } else {
        ranch_rows(rs, n - 1) + ranch_row(rs[n - 1])
    }
}

/// The table of plans.
pub fn status_table(ranches: &Vec<Ranch>) -> (r: String)
    ensures
        r@ == if ranches@.len() == 0 {
            "no ranches (create one with `cowboy ranch create \"<title>\"`)\n"@
        } else {
            pad_right("ID"@, 20) + " "@ + pad_right("STATUS"@, 12) + " WORKSTREAMS  TITLE\n"@
                + ranch_rows(ranches@, ranches@.len() as int)
        },
{
    if ranches.len() == 0 {
        return "no ranches (create one with `cowboy ranch create \"<title>\"`)\n".to_owned();
    }
    let mut out = padded_right("ID", 20);
    out.push_str(" ");
    out.push_str(&padded_right("STATUS", 12));
    out.push_str(" WORKSTREAMS  TITLE\n");
    let ghost head = out@;
    let mut i: usize = 0;
    assert(head + seq![] =~= head);
    while i < ranches.len()
        invariant
            i <= ranches@.len(),
            out@ == head + ranch_rows(ranches@, i as int),
        decreases ranches.len() - i,
    {
        let r = &ranches[i];
        let mut row = padded_right(&r.id, 20);
        row.push_str(" ");
        row.push_str(&padded_right(ranch_status(r.status), 12));
        row.push_str(" ");
        row.push_str(&padded_right(&decimal_size(r.workstreams.len()), 12));
        row.push_str(" ");
        row.push_str(&r.title);
        row.push_str("\n");
        proof {
            let b = ranch_rows(ranches@, i as int);
            assert(head + b + row@ =~= head + (b + row@));
        }
        out.push_str(&row);
        i = i + 1;
    }
    out
}

/// Two spaces for each of `n` levels.
pub open spec fn indent(n: int) -> Seq<char> {
    Seq::new((2 * n) as nat, |i: int| ' ')
}

fn indentation(n: u128) -> (r: String)
    ensures
        r@ == indent(n as int),
{
    let mut out = String::new();
    let mut i: u128 = 0;
    assert(out@ =~= indent(0));
    while i < n
        invariant
            i <= n,
            out@ == indent(i as int),
        decreases n - i,
    {
        out.push(' ');
        out.push(' ');
        assert(out@ =~= indent(i + 1));
        i = i + 1;
    }
    out
}

/// One workstream in the tree of a plan: indented by its depth, with its status, its
/// session, and what it waits for.
pub open spec fn tree_line(w: Workstream, depth: int) -> Seq<char> {
    let a = indent(depth + 1) + ws_sign(w.status) + " "@ + w.id@ + " — "@ + ws_word(w.status);
    let b = match w.session_id {
        Some(s) => a + " · "@ + s@,
        None => a,
    };
    let c = if w.depends_on@.len() > 0 {
        b + "   ← "@ + join(strs(w.depends_on@), ", "@)
    } else {
        b
    };
    c + "\n"@
}

/// The first `n` lines of the tree, in this order.
pub open spec fn tree(
    ws: Seq<Workstream>,
    depths: Depths,
    order: Seq<usize>,
    n: int,
) -> Seq<char>
    decreases n,
{
    if n <= 0 {
        seq![]
    } else {
        tree(ws, depths, order, n - 1) + tree_line(
            ws[order[n - 1] as int],
            depth_key(depths, ws[order[n - 1] as int].id@),
        )
    }
}

/// A plan in full: its head, its workstreams in this order, and what can be launched.
pub open spec fn plan_text(
    r: Ranch,
    depths: Depths,
    order: Seq<usize>,
    path: Seq<char>,
    ready: Seq<Seq<char>>,
) -> Seq<char> {
    let a = "ranch "@ + r.id@ + " — "@ + r.title@ + "\nstatus: "@ + ranch_word(r.status) + "\n"@;
    let b = if r.goal@.len() > 0 {
        a + "goal:   "@ + r.goal@ + "\n"@
    } else {
        a
    };
    if r.workstreams@.len() == 0 {
        b + "\n(no workstreams yet — edit "@ + path + ")\n"@
    } else {
        let c = b
            + "\n  ✓ done · ⟳ running · ◷ ready · ⊘ blocked · ⏸ waiting · · planned\n\nworkstreams (top runs first):\n"@
            + tree(r.workstreams@, depths, order, order.len() as int);
        if ready.len() > 0 {
            c + "\nready to start: "@ + join(ready, ", "@) + "\nlaunch with `cowboy ranch start "@
                + r.id@ + "`\n"@
        } else {
            c
        }
    }
}

/// A plan in full, its workstreams in a given order.
pub fn show_plan(
    ranch: &Ranch,
    depths: &Depths,
    order: &Vec<usize>,
    path: &str,
    ready: &Vec<String>,
) -> (r: String)
    requires
        arrangement(order@, ranch.workstreams@.len() as int),
    ensures
        r@ == plan_text(*ranch, *depths, order@, path@, strs(ready@)),
{
    let mut out = "ranch ".to_owned();
    out.push_str(&ranch.id);
    out.push_str(" — ");
    out.push_str(&ranch.title);
    out.push_str("\nstatus: ");
    out.push_str(ranch_status(ranch.status));
    out.push_str("\n");
    if !ranch.goal.as_str().is_empty() {
        out.push_str("goal:   ");
        out.push_str(&ranch.goal);
        out.push_str("\n");
    }
    if ranch.workstreams.len() == 0 {
        out.push_str("\n(no workstreams yet — edit ");
        out.push_str(path);
        out.push_str(")\n");
        return out;
    }
    out.push_str(
        "\n  ✓ done · ⟳ running · ◷ ready · ⊘ blocked · ⏸ waiting · · planned\n\nworkstreams (top runs first):\n",
    );
    let ghost head = out@;
    let mut i: usize = 0;
    assert(head + seq![] =~= head);
    while i < order.len()
        invariant
            i <= order@.len(),
            arrangement(order@, ranch.workstreams@.len() as int),
            out@ == head + tree(ranch.workstreams@, *depths, order@, i as int),
        decreases order.len() - i,
    {
        let w = &ranch.workstreams[order[i]];
        let depth: usize = match depths.get(&w.id) {
            Some(d) => d,
            None => 0,
        };
        let mut line = indentation(depth as u128 + 1);
        line.push_str(ws_glyph(w.status));
        line.push_str(" ");
        line.push_str(&w.id);
        line.push_str(" — ");
        line.push_str(ws_status(w.status));
        match &w.session_id {
            Some(s) => {
                line.push_str(" · ");
                line.push_str(s);
            },
            None => {},
        }
        if w.depends_on.len() > 0 {
            line.push_str("   ← ");
            line.push_str(&joined(&w.depends_on, ", "));
        }
        line.push_str("\n");
        proof {
            let b = tree(ranch.workstreams@, *depths, order@, i as int);
            assert(head + b + line@ =~= head + (b + line@));
        }
        out.push_str(&line);
        i = i + 1;
    }
    assert(strs(ready@).len() == ready@.len());
    if ready.len() > 0 {
        out.push_str("\nready to start: ");
        out.push_str(&joined(ready, ", "));
        out.push_str("\nlaunch with `cowboy ranch start ");
        out.push_str(&ranch.id);
        out.push_str("`\n");
    }
    out
}

/// A plan in full, its workstreams in the order they run: by depth, and by id among
/// those equally deep.
pub fn show_one(ranch: &Ranch, path: &str, ready: &Vec<String>) -> (r: String)
    ensures
        exists|depths: Depths, order: Seq<usize>|
            {
                &&& depths_of(ranch.workstreams@, depths)
                &&& arrangement(order, ranch.workstreams@.len() as int)
                &&& in_order(order, laid_before(ranch.workstreams@, depths))
                &&& r@ == #[trigger] plan_text(*ranch, depths, order, path@, strs(ready@))
            },
{
    let depths = dep_depths(ranch);
    let order = layout_order(ranch, &depths);
    let out = show_plan(ranch, &depths, &order, path, ready);
    assert(out@ == plan_text(*ranch, depths, order@, path@, strs(ready@)));
    out
}

/// A proposal in the list of proposals, with its change in words.
#[derive(Debug)]
pub struct ProposalRow {
    pub id: String,
    pub status: ProposalStatus,
    pub from: String,
    pub label: String,
    pub summary: String,
    pub rationale: Option<String>,
}

/// One proposal in the list.
pub open spec fn proposal_line(p: ProposalRow) -> Seq<char> {
    let a = pad_right(p.id@, 8) + " "@ + pad_right(proposal_word(p.status), 9) + " "@ + pad_right(
        p.from@,
        8,
    ) + " "@ + p.label@ + " — "@ + p.summary@ + "\n"@;
    match p.rationale {
        Some(r) => a + "         rationale: "@ + r@ + "\n"@,
        None => a,
    }
}

/// A proposal is listed: all are, or only those that are pending.
pub open spec fn listed(p: ProposalRow, all: bool) -> bool {
    all || p.status == ProposalStatus::Pending
}

/// The lines of those of the first `n` proposals that are listed.
pub open spec fn proposal_lines(ps: Seq<ProposalRow>, all: bool, n: int) -> Seq<char>
    decreases n,
{
    if n <= 0 {
        seq![]
    } else if listed(ps[n - 1], all) {
        proposal_lines(ps, all, n - 1) + proposal_line(ps[n - 1])
    } else {
        proposal_lines(ps, all, n - 1)
    }
}

/// One of the first `n` proposals is listed.
pub open spec fn any_listed(ps: Seq<ProposalRow>, all: bool, n: int) -> bool {
    exists|i: int| 0 <= i < n && listed(#[trigger] ps[i], all)
}

/// The list of proposals.
pub fn list_proposals(id: &str, proposals: &Vec<ProposalRow>, all: bool) -> (r: String)
    ensures
        r@ == if !any_listed(proposals@, all, proposals@.len() as int) {
            "no "@ + (if all {
                ""@
            } else {
                "pending "@
            }) + "proposals for ranch `"@ + id@ + "`\n"@
        } else {
            pad_right("ID"@, 8) + " "@ + pad_right("STATUS"@, 9) + " "@ + pad_right("FROM"@, 8)
                + " CHANGE / SUMMARY\n"@ + proposal_lines(
                proposals@,
                all,
                proposals@.len() as int,
            )
        },
{
    let mut out = padded_right("ID", 8);
    out.push_str(" ");
    out.push_str(&padded_right("STATUS", 9));
    out.push_str(" ");
    out.push_str(&padded_right("FROM", 8));
    out.push_str(" CHANGE / SUMMARY\n");
    let ghost head = out@;
    let mut any = false;
    let mut i: usize = 0;
    assert(head + seq![] =~= head);
    while i < proposals.len()
        invariant
            i <= proposals@.len(),
            any == any_listed(proposals@, all, i as int),
            out@ == head + proposal_lines(proposals@, all, i as int),
        decreases proposals.len() - i,
    {
        let p = &proposals[i];
        if all || p.status == ProposalStatus::Pending {
            let mut row = padded_right(&p.id, 8);
            row.push_str(" ");
            row.push_str(&padded_right(proposal_status_str(p.status), 9));
            row.push_str(" ");
            row.push_str(&padded_right(&p.from, 8));
            row.push_str(" ");
            row.push_str(&p.label);
            row.push_str(" — ");
            row.push_str(&p.summary);
            row.push_str("\n");
            match &p.rationale {
                Some(r) => {
                    row.push_str("         rationale: ");
                    row.push_str(r);
                    row.push_str("\n");
                },
                None => {},
            }
            proof {
                let b = proposal_lines(proposals@, all, i as int);
                assert(head + b + row@ =~= head + (b + row@));
                assert(listed(proposals@[i as int], all));
            }
            out.push_str(&row);
            any = true;
        }
        i = i + 1;
    }
    if !any {
        let mut none = "no ".to_owned();
        none.push_str(if all { "" } else { "pending " });
        none.push_str("proposals for ranch `");
        none.push_str(id);
        none.push_str("`\n");
        return none;
    }
    out
}

// ---------------------------------------------------------------------------
// Laws
// ---------------------------------------------------------------------------

/// A text that is too long is cut to as much of its beginning as fits, and says so; one
/// that fits stays as it is.
pub proof fn long_texts_are_cut(s: Seq<char>, max: int) -> (n: int)
    requires
        0 <= max,
    ensures
        byte_len(s) <= max ==> truncated(s, max) == s,
        byte_len(s) > max ==> {
            &&& 0 <= n < s.len()
            &&& truncated(s, max) == s.take(n) + "\n…(truncated)"@
            &&& byte_len(s.take(n)) <= max
            &&& byte_len(s.take(n + 1)) > max
        },
{
    as_much_fits_as_can(s, max);
    let n = fitting(s, max);
    if n == s.len() {
        assert(s.take(n) =~= s);
    }
    n
}

/// The proposals that are listed are those that are pending, or all where all are asked
/// for, each once and in order.
pub proof fn pending_proposals_are_listed(ps: Seq<ProposalRow>, all: bool, n: int) -> (js: Seq<int>)
    requires
        0 <= n <= ps.len(),
    ensures
        ascending(js, n),
        forall|i: int|
            0 <= i < n ==> (#[trigger] js.contains(i) <==> all || ps[i].status
                == ProposalStatus::Pending),
        proposal_lines(ps, all, n) == concat(Seq::new(js.len(), |k: int| proposal_line(ps[js[k]]))),
    decreases n,
{
    if n == 0 {
        let js: Seq<int> = seq![];
        assert(Seq::new(js.len(), |k: int| proposal_line(ps[js[k]])) =~= seq![]);
        js
    } else {
        let before = pending_proposals_are_listed(ps, all, n - 1);
        lemma_one_more(before, n - 1);
        if listed(ps[n - 1], all) {
            let js = before.push(n - 1);
            assert(Seq::new(js.len(), |k: int| proposal_line(ps[js[k]])).drop_last() =~= Seq::new(
                before.len(),
                |k: int| proposal_line(ps[before[k]]),
            ));
            js
        } else {
            before
        }
    }
}

} // verus!
