//! Setting a project up.

use crate::search::{ends_with, has_suffix};
use crate::text::{
    chomp, is_ws, lemma_line_end_is, lemma_pieces_add, lemma_pieces_ended,
    lemma_trim_shorter, lines, pieces, push_text, same, split_lines, strs, trim,
    trim_end, trim_start, trimmed,
};
use vstd::prelude::*;

verus! {

broadcast use vstd::string::group_string_axioms;

/// What git is told to leave alone.
pub open spec fn wanted() -> Seq<Seq<char>> {
    seq![
        ".env"@,
        ".cowboy/sessions/"@,
        ".cowboy/mise/"@,
        ".cowboy/ranches/*/events.jsonl"@,
        ".cowboy/ranches/*/workstreams/"@,
        "/target"@,
    ]
}

/// One of the lines of a text is this, but for white space around it.
pub open spec fn listed(text: Seq<char>, entry: Seq<char>) -> bool {
    exists|i: int| 0 <= i < lines(text).len() && trim(#[trigger] lines(text)[i]) == entry
}

/// A line for each of the first `n` entries that a text does not list.
pub open spec fn additions(text: Seq<char>, n: int) -> Seq<char>
    decreases n,
{
    if n <= 0 {
        seq![]
    } else if listed(text, wanted()[n - 1]) {
        additions(text, n - 1)
    } else {
        additions(text, n - 1) + wanted()[n - 1] + "\n"@
    }
}

/// `text`, its last line ended.
pub open spec fn ended(text: Seq<char>) -> Seq<char> {
    if text.len() > 0 && text.last() != '\n' {
        text.push('\n')
    } else {
        text
    }
}

/// What git is to be told, where that is more than it is told.
pub open spec fn completed_gitignore(text: Seq<char>) -> Option<Seq<char>> {
    let more = additions(text, wanted().len() as int);
    if more.len() == 0 {
        None
    } else {
        Some(ended(text) + "\n# cowboy\n"@ + more)
    }
}

fn wanted_entries() -> (r: Vec<String>)
    ensures
        strs(r@) == wanted(),
{
    let mut v: Vec<String> = Vec::new();
    push_text(&mut v, ".env".to_owned());
    push_text(&mut v, ".cowboy/sessions/".to_owned());
    push_text(&mut v, ".cowboy/mise/".to_owned());
    push_text(&mut v, ".cowboy/ranches/*/events.jsonl".to_owned());
    push_text(&mut v, ".cowboy/ranches/*/workstreams/".to_owned());
    push_text(&mut v, "/target".to_owned());
    assert(strs(v@) =~= wanted());
    v
}

fn is_listed(ls: &Vec<String>, entry: &str) -> (r: bool)
    ensures
        r == exists|i: int| 0 <= i < strs(ls@).len() && trim(#[trigger] strs(ls@)[i]) == entry@,
{
    let ghost all = strs(ls@);
    let mut i: usize = 0;
    while i < ls.len()
        invariant
            i <= ls@.len(),
            all == strs(ls@),
            forall|k: int| 0 <= k < i ==> trim(#[trigger] all[k]) != entry@,
        decreases ls.len() - i,
    {
        if same(&trimmed(&ls[i]), entry) {
            assert(trim(all[i as int]) == entry@);
            return true;
        }
        assert(trim(all[i as int]) != entry@);
        i = i + 1;
    }
    false
}

/// The file that tells git what to leave alone, with what it lacks, or nothing where it
/// lacks nothing. What is in it stays.
pub fn ensure_gitignore(text: &str) -> (r: Option<String>)
    ensures
        match r {
            Some(t) => completed_gitignore(text@) == Some(t@),
            None => completed_gitignore(text@) is None,
        },
{
    let ls = split_lines(text);
    let entries = wanted_entries();
    let mut more = String::new();
    let mut i: usize = 0;
    assert(more@ =~= seq![]);
    assert(strs(entries@).len() == entries@.len());
    while i < entries.len()
        invariant
            i <= entries@.len(),
            strs(entries@) == wanted(),
            strs(ls@) == lines(text@),
            more@ == additions(text@, i as int),
        decreases entries.len() - i,
    {
        assert(wanted()[i as int] == entries@[i as int]@);
        let there = is_listed(&ls, &entries[i]);
        if !there {
            more.push_str(&entries[i]);
            more.push_str("\n");
        }
        i = i + 1;
    }
    if more.as_str().is_empty() {
        return None;
    }
    let mut out = text.to_owned();
    let ghost t = text@;
    proof {
        reveal_strlit("\n");
        assert("\n"@ =~= seq!['\n']);
        if t.len() > 0 {
            assert(ends_with(t, "\n"@) <==> t.last() == '\n') by {
                if ends_with(t, "\n"@) {
                    assert(t.skip(t.len() - 1)[0] == t.last());
                } else {
                    assert(t.last() == '\n' ==> t.skip(t.len() - 1) =~= "\n"@);
                }
            }
        }
    }
    let ends = has_suffix(text, "\n");
    if !text.is_empty() && !ends {
        out.push_str("\n");
        assert(out@ =~= t.push('\n'));
    }
    out.push_str("\n# cowboy\n");
    out.push_str(&more);
    Some(out)
}

// ---------------------------------------------------------------------------
// The files
// ---------------------------------------------------------------------------

/// What is done with a file of the configuration.
#[derive(Debug, Clone, Copy, PartialEq, Eq, Structural)]
pub enum Write {
    Skip,
    Rewrite,
    Create,
}

/// What is done with a file: one that is there stays unless it is to be overwritten.
pub fn write_action(present: bool, force: bool) -> (r: Write)
    ensures
        r == (if present && !force {
            Write::Skip
        } else if present {
            Write::Rewrite
        } else {
            Write::Create
        }),
{
    if present && !force {
        Write::Skip
    } else if present {
        Write::Rewrite
    } else {
        Write::Create
    }
}

/// The word for what was done, and what is said after it.
pub fn write_words(w: Write, path: &str) -> (r: (&'static str, String))
    ensures
        match w {
            Write::Skip => r.0@ == "skip  "@ && r.1@ == path@
                + " (exists; use --force to overwrite)"@,
            Write::Rewrite => r.0@ == "rewrote"@ && r.1@ == path@,
            Write::Create => r.0@ == "created"@ && r.1@ == path@,
        },
{
    match w {
        Write::Skip => {
            let mut s = path.to_owned();
            s.push_str(" (exists; use --force to overwrite)");
            ("skip  ", s)
        },
        Write::Rewrite => ("rewrote", path.to_owned()),
        Write::Create => ("created", path.to_owned()),
    }
}

/// Those of the first `n` files that are there.
pub open spec fn there(files: Seq<(String, bool)>, n: int) -> Seq<Seq<char>>
    decreases n,
{
    if n <= 0 {
        seq![]
    } else if files[n - 1].1 {
        there(files, n - 1).push(files[n - 1].0@)
    } else {
        there(files, n - 1)
    }
}

/// The files that would be overwritten, and about which the user is asked first.
pub fn overwritten(files: &Vec<(String, bool)>, force: bool) -> (r: Vec<String>)
    ensures
        strs(r@) == (if force {
            there(files@, files@.len() as int)
        } else {
            seq![]
        }),
{
    let mut out: Vec<String> = Vec::new();
    assert(strs(out@) =~= seq![]);
    if !force {
        return out;
    }
    let mut i: usize = 0;
    while i < files.len()
        invariant
            i <= files@.len(),
            strs(out@) == there(files@, i as int),
        decreases files.len() - i,
    {
        if files[i].1 {
            push_text(&mut out, files[i].0.clone());
        }
        i = i + 1;
    }
    out
}

/// What is to be done next.
pub fn next_step(has_provider: bool) -> (r: &'static str)
    ensures
        r@ == (if has_provider {
            "run `cowboy doctor`."@
        } else {
            "run `cowboy models setup` to configure a model provider, then `cowboy doctor`."@
        }),
{
    if has_provider {
        "run `cowboy doctor`."
    } else {
        "run `cowboy models setup` to configure a model provider, then `cowboy doctor`."
    }
}

// ---------------------------------------------------------------------------
// Laws
// ---------------------------------------------------------------------------

proof fn lemma_listed_concat(a: Seq<char>, b: Seq<char>, e: Seq<char>)
    requires
        a.len() == 0 || a.last() == '\n',
    ensures
        listed(a, e) ==> listed(a + b, e),
        listed(b, e) ==> listed(a + b, e),
{
    lemma_pieces_add(a, b);
    let n = pieces(a).len() as int;
    if listed(a, e) {
        let i = choose|i: int| 0 <= i < lines(a).len() && trim(#[trigger] lines(a)[i]) == e;
        assert(lines(a + b)[i] == lines(a)[i]);
    }
    if listed(b, e) {
        let i = choose|i: int| 0 <= i < lines(b).len() && trim(#[trigger] lines(b)[i]) == e;
        assert(lines(a + b)[n + i] == lines(b)[i]);
    }
}

proof fn lemma_listed_ended(a: Seq<char>, e: Seq<char>)
    requires
        listed(a, e),
    ensures
        listed(ended(a), e),
{
    if a.len() > 0 && a.last() != '\n' {
        lemma_pieces_ended(a);
        let t = ended(a);
        let i = choose|i: int| 0 <= i < lines(a).len() && trim(#[trigger] lines(a)[i]) == e;
        if i < lines(a).len() - 1 {
            assert(pieces(t)[i] == pieces(a)[i]);
            assert(lines(t)[i] == lines(a)[i]);
        } else {
            let p = pieces(a).last();
            assert(pieces(t)[i] == p.push('\n'));
            assert(chomp(p) == p);
            assert(p.push('\n').drop_last() =~= p);
            if p.last() == '\r' {
                assert(chomp(p.push('\n')) == p.drop_last());
                lemma_trim_shorter(p);
            }
            assert(trim(lines(t)[i]) == e);
        }
    }
}

proof fn lemma_line_listed(e: Seq<char>)
    requires
        e.len() > 0,
        forall|i: int| 0 <= i < e.len() ==> #[trigger] e[i] != '\n',
        !is_ws(e[0]),
        !is_ws(e.last()),
    ensures
        listed(e.push('\n'), e),
{
    let t = e.push('\n');
    assert forall|i: int| 0 <= i < t.len() - 1 implies #[trigger] t[i] != '\n' by {
        assert(t[i] == e[i]);
    }
    lemma_line_end_is(t, t.len() as int);
    assert(t.take(t.len() as int) =~= t);
    assert(pieces(t.skip(t.len() as int)).len() == 0);
    assert(pieces(t) =~= seq![t]);
    assert(t.drop_last() =~= e);
    assert(chomp(t) == e);
    assert(lines(t)[0] == e);
    assert(trim_start(e) == e);
    assert(trim_end(e) == e);
    assert(trim(lines(t)[0]) == e);
}

/// An entry is one that can stand on a line of its own.
spec fn plain_entry(e: Seq<char>) -> bool {
    &&& e.len() > 0
    &&& forall|i: int| 0 <= i < e.len() ==> #[trigger] e[i] != '\n'
    &&& !is_ws(e[0])
    &&& !is_ws(e.last())
}

proof fn lemma_entries_plain(i: int)
    requires
        0 <= i < wanted().len(),
    ensures
        plain_entry(wanted()[i]),
{
    reveal_strlit(".env");
    reveal_strlit(".cowboy/sessions/");
    reveal_strlit(".cowboy/mise/");
    reveal_strlit(".cowboy/ranches/*/events.jsonl");
    reveal_strlit(".cowboy/ranches/*/workstreams/");
    reveal_strlit("/target");
    if i == 0 {
        assert(plain_entry(".env"@));
    } else if i == 1 {
        assert(plain_entry(".cowboy/sessions/"@));
    } else if i == 2 {
        assert(plain_entry(".cowboy/mise/"@));
    } else if i == 3 {
        assert(plain_entry(".cowboy/ranches/*/events.jsonl"@));
    } else if i == 4 {
        assert(plain_entry(".cowboy/ranches/*/workstreams/"@));
    } else {
        assert(plain_entry("/target"@));
    }
}

proof fn lemma_additions_list(text: Seq<char>, n: int, k: int)
    requires
        0 <= k < n <= wanted().len(),
        !listed(text, wanted()[k]),
    ensures
        listed(additions(text, n), wanted()[k]),
    decreases n,
{
    lemma_additions_end(text, n - 1);
    reveal_strlit("\n");
    let a = additions(text, n - 1);
    let e = wanted()[n - 1];
    assert(a + e + "\n"@ =~= a + e.push('\n'));
    if k < n - 1 {
        lemma_additions_list(text, n - 1, k);
        lemma_listed_concat(a, e.push('\n'), wanted()[k]);
    } else {
        lemma_entries_plain(k);
        lemma_line_listed(e);
        lemma_listed_concat(a, e.push('\n'), e);
    }
}

proof fn lemma_additions_end(text: Seq<char>, n: int)
    requires
        0 <= n <= wanted().len(),
    ensures
        additions(text, n).len() == 0 || additions(text, n).last() == '\n',
    decreases n,
{
    if n > 0 {
        lemma_additions_end(text, n - 1);
        reveal_strlit("\n");
    }
}

proof fn lemma_nothing_to_add(text: Seq<char>, n: int)
    requires
        0 <= n <= wanted().len(),
        forall|k: int| 0 <= k < n ==> listed(text, #[trigger] wanted()[k]),
    ensures
        additions(text, n).len() == 0,
    decreases n,
{
    if n > 0 {
        lemma_nothing_to_add(text, n - 1);
        assert(listed(text, wanted()[n - 1]));
    }
}

/// What was in the file stays at its start, every entry is listed afterwards, and a second
/// time there is nothing to add.
pub proof fn gitignore_is_completed_once(text: Seq<char>, out: Seq<char>)
    requires
        completed_gitignore(text) == Some(out),
    ensures
        text.is_prefix_of(out),
        forall|k: int| 0 <= k < wanted().len() ==> listed(out, #[trigger] wanted()[k]),
        completed_gitignore(out) is None,
{
    let n = wanted().len() as int;
    let base = ended(text);
    let more = additions(text, n);
    reveal_strlit("\n# cowboy\n");
    let head = base + "\n# cowboy\n"@;
    assert(out == head + more);
    assert(text.is_prefix_of(out)) by {
        assert(text =~= out.take(text.len() as int));
    }
    assert(head.last() == '\n');
    assert forall|k: int| 0 <= k < n implies listed(out, #[trigger] wanted()[k]) by {
        let e = wanted()[k];
        if listed(text, e) {
            lemma_listed_ended(text, e);
            lemma_listed_concat(base, "\n# cowboy\n"@, e);
            lemma_listed_concat(head, more, e);
        } else {
            lemma_additions_list(text, n, k);
            lemma_listed_concat(head, more, e);
        }
    }
    lemma_nothing_to_add(out, n);
}

/// Nothing is added to a `.gitignore` exactly where every entry is listed in it already.
pub proof fn complete_files_stay(text: Seq<char>)
    ensures
        completed_gitignore(text) is None <==> forall|k: int|
            0 <= k < wanted().len() ==> listed(text, #[trigger] wanted()[k]),
        wanted().contains(".env"@) && wanted().contains(".cowboy/sessions/"@) && wanted().contains(
            ".cowboy/mise/"@,
        ) && wanted().contains(".cowboy/ranches/*/events.jsonl"@) && wanted().contains(
            ".cowboy/ranches/*/workstreams/"@,
        ),
{
    let w = wanted();
    assert(w[0] == ".env"@ && w[1] == ".cowboy/sessions/"@ && w[2] == ".cowboy/mise/"@ && w[3]
        == ".cowboy/ranches/*/events.jsonl"@ && w[4] == ".cowboy/ranches/*/workstreams/"@);
    lemma_additions_empty(text, w.len() as int);
}

proof fn lemma_additions_empty(text: Seq<char>, n: int)
    requires
        0 <= n <= wanted().len(),
    ensures
        additions(text, n).len() == 0 <==> forall|k: int|
            0 <= k < n ==> listed(text, #[trigger] wanted()[k]),
    decreases n,
{
    reveal_strlit("\n");
    if n > 0 {
        lemma_additions_empty(text, n - 1);
        assert(wanted()[n - 1] == wanted()[n - 1]);
    }
}

} // verus!
