//! Worktrees of git for sessions that run beside each other: their names, what they
//! change, and which there are.

use crate::choice::{ascending, lemma_one_more};
use crate::container::{all_digits, decimals_are_read_back};
use crate::output::{from_utf8_lossy, lossy};
use crate::paths::{lower, to_lower};
use crate::runtime::{natural, parse_u64};
use crate::search::{at, find, lemma_find, split_once, starts_with, strip_prefix};
use crate::text::{blank, chars_of, is_blank, is_digit, lines, push_text, same, split_lines,
    string_of, strs, trim, trimmed};
use crate::words::{
    alphanumeric, dec, decimal, decimal_size, digit, fitting, fitting_chars, pad_right,
    padded_right,
};
use vstd::prelude::*;

verus! {

broadcast use vstd::string::group_string_axioms;

// ---------------------------------------------------------------------------
// Slugs
// ---------------------------------------------------------------------------

/// The greatest length of a slug.
pub const SLUG_CHARS: usize = 40;

/// The first `n` characters, those that are no letter or number made dashes, and no dash
/// beside another.
pub open spec fn dashed(s: Seq<char>, n: int) -> Seq<char>
    decreases n,
{
    if n <= 0 {
        seq![]
    } else {
        let before = dashed(s, n - 1);
        if alphanumeric(s[n - 1]) && s[n - 1] != '-' {
            before.push(s[n - 1])
        } else if before.len() > 0 && before.last() == '-' {
            before
        } else {
            before.push('-')
        }
    }
}

/// `s` without a dash at its start and at its end.
pub open spec fn undashed(s: Seq<char>) -> Seq<char> {
    let a = if s.len() > 0 && s[0] == '-' {
        s.drop_first()
    } else {
        s
    };
    if a.len() > 0 && a.last() == '-' {
        a.drop_last()
    } else {
        a
    }
}

/// The slug of a text in lower case: everything but letters and numbers made single
/// dashes, none at the ends, and not too long; a word where nothing is left.
pub open spec fn slug_of_lower(low: Seq<char>) -> Seq<char> {
    let t = undashed(dashed(low, low.len() as int));
    let cut = if t.len() <= SLUG_CHARS {
        t
    } else {
        t.take(SLUG_CHARS as int)
    };
    if cut.len() == 0 {
        "work"@
    } else {
        cut
    }
}

/// The slug of a text.
pub open spec fn slug_of(s: Seq<char>) -> Seq<char> {
    slug_of_lower(lower(s))
}

/// The slug of a task.
pub fn slugify(task: Option<&str>) -> (r: String)
    ensures
        r@ == slug_of(
            match task {
                Some(t) => t@,
                None => "work"@,
            },
        ),
{
    let raw = to_lower(
        match task {
            Some(t) => t,
            None => "work",
        },
    );
    lowered_slug(&raw)
}

/// The slug of a text in lower case.
pub fn lowered_slug(low: &str) -> (r: String)
    ensures
        r@ == slug_of_lower(low@),
{
    let cs = chars_of(low);
    let mut out: Vec<char> = Vec::new();
    let mut i: usize = 0;
    while i < cs.len()
        invariant
            i <= cs@.len(),
            out@ == dashed(cs@, i as int),
        decreases cs.len() - i,
    {
        let c = cs[i];
        if c != '-' && c.is_alphanumeric() {
            out.push(c);
        } else if !(out.len() > 0 && out[out.len() - 1] == '-') {
            out.push('-');
        }
        i = i + 1;
    }
    let ghost t = undashed(out@);
    let from: usize = if out.len() > 0 && out[0] == '-' {
        1
    } else {
        0
    };
    let to: usize = if out.len() > from && out[out.len() - 1] == '-' {
        out.len() - 1
    } else {
        out.len()
    };
    assert(t =~= out@.subrange(from as int, to as int));
    let end: usize = if to - from <= SLUG_CHARS {
        to
    } else {
        from + SLUG_CHARS
    };
    if end == from {
        return "work".to_owned();
    }
    let r = string_of(&out, from, end);
    assert(r@ =~= (if t.len() <= SLUG_CHARS {
        t
    } else {
        t.take(SLUG_CHARS as int)
    }));
    r
}

// ---------------------------------------------------------------------------
// What git says
// ---------------------------------------------------------------------------

/// What a command of git wrote, without white space around it, or that it failed.
pub open spec fn said_by_git(args: Seq<char>, success: bool, stdout: Seq<u8>, stderr: Seq<u8>) -> Result<
    Seq<char>,
    Seq<char>,
> {
    if success {
        Ok(trim(lossy(stdout)))
    } else {
        Err("git "@ + args + " failed: "@ + trim(lossy(stderr)))
    }
}

/// What came of something, as texts.
pub open spec fn outcome_text(r: Result<String, String>) -> Result<Seq<char>, Seq<char>> {
    match r {
        Ok(t) => Ok(t@),
        Err(w) => Err(w@),
    }
}

/// What a command of git wrote, without white space around it, or that it failed.
pub fn git_output(args: &str, success: bool, stdout: &Vec<u8>, stderr: &Vec<u8>) -> (r: Result<
    String,
    String,
>)
    ensures
        outcome_text(r) == said_by_git(args@, success, stdout@, stderr@),
{
    if success {
        Ok(trimmed(&from_utf8_lossy(stdout)))
    } else {
        let mut why = "git ".to_owned();
        why.push_str(args);
        why.push_str(" failed: ");
        why.push_str(&trimmed(&from_utf8_lossy(stderr)));
        Err(why)
    }
}

/// The root of the repository that a directory is in.
pub fn repo_root(dir: &str, success: bool, stdout: &Vec<u8>) -> (r: Result<String, String>)
    ensures
        outcome_text(r) == (if success {
            Ok::<Seq<char>, Seq<char>>(trim(lossy(stdout@)))
        } else {
            Err(dir@ + " is not inside a git repository"@)
        }),
{
    if success {
        Ok(trimmed(&from_utf8_lossy(stdout)))
    } else {
        let mut why = dir.to_owned();
        why.push_str(" is not inside a git repository");
        Err(why)
    }
}

/// Whether there is anything that is not committed: where git could tell and told of
/// something.
pub fn is_dirty(success: bool, stdout: &Vec<u8>) -> (r: bool)
    ensures
        r == (success && stdout@.len() > 0),
{
    success && stdout.len() > 0
}

/// The commit at which a branch forked off, in short.
pub open spec fn fork_text(merge_base: Result<Seq<char>, Seq<char>>) -> Seq<char> {
    match merge_base {
        Ok(s) => if lines(s).len() == 0 {
            "HEAD"@
        } else {
            lines(s)[0].take(fitting(lines(s)[0], 12))
        },
        Err(_) => "HEAD"@,
    }
}

/// The commit at which a branch forked off, in short, or `HEAD` where that is unknown.
pub fn fork_point(merge_base: &Result<String, String>) -> (r: String)
    ensures
        r@ == fork_text(outcome_text(*merge_base)),
{
    match merge_base {
        Ok(s) => {
            let ls = split_lines(s);
            assert(strs(ls@).len() == ls@.len());
            if ls.len() == 0 {
                return "HEAD".to_owned();
            }
            assert(strs(ls@)[0] == ls@[0]@);
            let cs = chars_of(&ls[0]);
            let n = fitting_chars(&cs, 12);
            let r = string_of(&cs, 0, n);
            assert(r@ =~= ls@[0]@.take(n as int));
            r
        },
        Err(_) => "HEAD".to_owned(),
    }
}

/// Whether a branch can be merged without a conflict, from how git ended: unknown where it
/// ended in any other way than in these two.
pub fn mergeability(code: Option<i32>) -> (r: Option<bool>)
    ensures
        r == (if code == Some(0i32) {
            Some(true)
        } else if code == Some(1i32) {
            Some(false)
        } else {
            None
        }),
{
    match code {
        Some(c) => if c == 0 {
            Some(true)
        } else if c == 1 {
            Some(false)
        } else {
            None
        },
        None => None,
    }
}

/// What a branch changes.
#[derive(Debug)]
pub struct WorktreeStatus {
    pub branch: String,
    /// The commit at which it forked off, in short.
    pub base: String,
    /// What became of which file.
    pub files: Vec<String>,
    pub insertions: u128,
    pub deletions: u128,
    /// Whether it can be merged without a conflict, where that is known.
    pub mergeable: Option<bool>,
}

/// Those of the first `n` lines that are not blank.
pub open spec fn filled_lines(ls: Seq<Seq<char>>, n: int) -> Seq<Seq<char>>
    decreases n,
{
    if n <= 0 {
        seq![]
    } else if blank(ls[n - 1]) {
        filled_lines(ls, n - 1)
    } else {
        filled_lines(ls, n - 1).push(ls[n - 1])
    }
}

/// The first column of a line.
pub open spec fn first_column(s: Seq<char>) -> Seq<char> {
    match find(s, seq!['\t'], 0) {
        Some(i) => s.take(i),
        None => s,
    }
}

/// The second column of a line, where it has one.
pub open spec fn second_column(s: Seq<char>) -> Option<Seq<char>> {
    match find(s, seq!['\t'], 0) {
        Some(i) => Some(first_column(s.skip(i + 1))),
        None => None,
    }
}

/// The number that a column holds, or none.
pub open spec fn count_in(s: Seq<char>) -> nat {
    match natural(s) {
        Some(n) => n,
        None => 0,
    }
}

/// The lines that the first `n` lines say were added.
pub open spec fn added(ls: Seq<Seq<char>>, n: int) -> nat
    decreases n,
{
    if n <= 0 {
        0
    } else {
        added(ls, n - 1) + count_in(first_column(ls[n - 1]))
    }
}

/// The lines that the first `n` lines say were removed.
pub open spec fn removed(ls: Seq<Seq<char>>, n: int) -> nat
    decreases n,
{
    if n <= 0 {
        0
    } else {
        removed(ls, n - 1) + match second_column(ls[n - 1]) {
            Some(c) => count_in(c),
            None => 0,
        }
    }
}

fn counts(line: &str) -> (r: (u64, u64))
    ensures
        r.0 == count_in(first_column(line@)),
        r.1 == match second_column(line@) {
            Some(c) => count_in(c),
            None => 0,
        },
{
    proof {
        reveal_strlit("\t");
        assert("\t"@ =~= seq!['\t']);
    }
    match split_once(line, "\t") {
        None => {
            let a: u64 = match parse_u64(line) {
                Some(n) => n,
                None => 0,
            };
            (a, 0)
        },
        Some((first, rest)) => {
            let a: u64 = match parse_u64(&first) {
                Some(n) => n,
                None => 0,
            };
            let second = match split_once(&rest, "\t") {
                Some((s, _)) => s,
                None => rest,
            };
            let b: u64 = match parse_u64(&second) {
                Some(n) => n,
                None => 0,
            };
            (a, b)
        },
    }
}

/// That there is no such branch.
pub open spec fn no_branch(branch: Seq<char>) -> Seq<char> {
    "no such branch: "@ + branch
}

/// What a branch changes, from what git says of it; the first of its failures where it
/// fails.
pub fn status(
    branch: &str,
    present: bool,
    merge_base: &Result<String, String>,
    name_status: &Result<String, String>,
    numstat: &Result<String, String>,
    merge_code: Option<i32>,
) -> (r: Result<WorktreeStatus, String>)
    ensures
        match r {
            Ok(s) => {
                &&& present
                &&& name_status is Ok && numstat is Ok
                &&& s.branch@ == branch@
                &&& s.base@ == fork_text(outcome_text(*merge_base))
                &&& strs(s.files@) == filled_lines(
                    lines((name_status->Ok_0)@),
                    lines((name_status->Ok_0)@).len() as int,
                )
                &&& s.insertions == added(
                    lines((numstat->Ok_0)@),
                    lines((numstat->Ok_0)@).len() as int,
                )
                &&& s.deletions == removed(
                    lines((numstat->Ok_0)@),
                    lines((numstat->Ok_0)@).len() as int,
                )
                &&& s.mergeable == (if merge_code == Some(0i32) {
                    Some(true)
                } else if merge_code == Some(1i32) {
                    Some(false)
                } else {
                    None
                })
            },
            Err(why) => if !present {
                why@ == no_branch(branch@)
            } else {
                match (*name_status, *numstat) {
                    (Err(w), _) => why == w,
                    (Ok(_), Err(w)) => why == w,
                    _ => false,
                }
            },
        },
{
    if !present {
        let mut why = "no such branch: ".to_owned();
        why.push_str(branch);
        return Err(why);
    }
    let names = match name_status {
        Ok(t) => split_lines(t),
        Err(w) => return Err(w.clone()),
    };
    let stats = match numstat {
        Ok(t) => split_lines(t),
        Err(w) => return Err(w.clone()),
    };
    let mut files: Vec<String> = Vec::new();
    let ghost ns = strs(names@);
    let mut i: usize = 0;
    assert(strs(files@) =~= seq![]);
    while i < names.len()
        invariant
            i <= names@.len(),
            ns == strs(names@),
            strs(files@) == filled_lines(ns, i as int),
        decreases names.len() - i,
    {
        assert(ns[i as int] == names@[i as int]@);
        let empty = is_blank(&names[i]);
        if !empty {
            push_text(&mut files, names[i].clone());
        }
        i = i + 1;
    }
    let ghost ss = strs(stats@);
    let mut insertions: u128 = 0;
    let mut deletions: u128 = 0;
    let mut k: usize = 0;
    while k < stats.len()
        invariant
            k <= stats.len(),
            ss == strs(stats@),
            insertions == added(ss, k as int),
            deletions == removed(ss, k as int),
            insertions <= k * (u64::MAX as int),
            deletions <= k * (u64::MAX as int),
        decreases stats.len() - k,
    {
        assert(ss[k as int] == stats@[k as int]@);
        let (a, b) = counts(&stats[k]);
        assert(k * (u64::MAX as int) + u64::MAX as int <= u128::MAX && (k + 1) * (u64::MAX as int)
            == k * (u64::MAX as int) + u64::MAX as int) by (nonlinear_arith)
            requires
                0 <= k < usize::MAX,
                usize::MAX <= u64::MAX,
        ;
        insertions = insertions + a as u128;
        deletions = deletions + b as u128;
        k = k + 1;
    }
    Ok(
        WorktreeStatus {
            branch: branch.to_owned(),
            base: fork_point(merge_base),
            files,
            insertions,
            deletions,
            mergeable: mergeability(merge_code),
        },
    )
}

/// The range of commits that a branch has for itself.
pub fn range_of(base: &str, branch: &str) -> (r: String)
    ensures
        r@ == base@ + ".."@ + branch@,
{
    let mut out = base.to_owned();
    out.push_str("..");
    out.push_str(branch);
    out
}

/// What a branch changes in short, from what git says of it.
pub fn diff_stat(branch: &str, present: bool, stat: &Result<String, String>) -> (r: Result<
    String,
    String,
>)
    ensures
        outcome_text(r) == (if !present {
            Err::<Seq<char>, Seq<char>>(no_branch(branch@))
        } else {
            outcome_text(*stat)
        }),
{
    if !present {
        let mut why = "no such branch: ".to_owned();
        why.push_str(branch);
        return Err(why);
    }
    match stat {
        Ok(t) => Ok(t.clone()),
        Err(w) => Err(w.clone()),
    }
}

// ---------------------------------------------------------------------------
// A free name
// ---------------------------------------------------------------------------

/// The name tried at the `n`th attempt.
pub open spec fn attempt(slug: Seq<char>, n: nat) -> Seq<char> {
    if n <= 1 {
        slug
    } else {
        slug + "-"@ + dec(n)
    }
}

/// The branch of that name.
pub open spec fn branch_name(suffixed: Seq<char>) -> Seq<char> {
    "cowboy/"@ + suffixed
}

/// The directory of that name, beside that of the repository.
pub open spec fn dir_name(repo: Seq<char>, suffixed: Seq<char>) -> Seq<char> {
    repo + "-cowboy-"@ + suffixed
}

/// Neither the branch nor the directory of the `n`th attempt is there.
pub open spec fn is_free(
    repo: Seq<char>,
    slug: Seq<char>,
    branches: Seq<Seq<char>>,
    entries: Seq<Seq<char>>,
    n: nat,
) -> bool {
    &&& !branches.contains(branch_name(attempt(slug, n)))
    &&& !entries.contains(dir_name(repo, attempt(slug, n)))
}

proof fn lemma_dec_len(n: nat)
    ensures
        dec(n).len() >= 1,
    decreases n,
{
    if n >= 10 {
        lemma_dec_len(n / 10);
    }
}

/// Different numbers are written differently.
pub proof fn lemma_dec_injective(a: nat, b: nat)
    requires
        dec(a) == dec(b),
    ensures
        a == b,
    decreases a,
{
    lemma_dec_len(a);
    lemma_dec_len(b);
    if a < 10 {
        if b >= 10 {
            lemma_dec_len(b / 10);
        } else {
            assert(dec(a)[0] == digit(a as int));
            assert(dec(b)[0] == digit(b as int));
        }
    } else {
        lemma_dec_len(a / 10);
        if b >= 10 {
            assert(dec(a).last() == digit((a % 10) as int));
            assert(dec(b).last() == digit((b % 10) as int));
            assert(dec(a).drop_last() =~= dec(a / 10));
            assert(dec(b).drop_last() =~= dec(b / 10));
            lemma_dec_injective(a / 10, b / 10);
        }
    }
}

proof fn lemma_attempts_differ(slug: Seq<char>, a: nat, b: nat)
    requires
        1 <= a < b,
    ensures
        attempt(slug, a) != attempt(slug, b),
{
    reveal_strlit("-");
    if attempt(slug, a) == attempt(slug, b) {
        if a == 1 {
            lemma_dec_len(b);
            assert(attempt(slug, b).len() > slug.len());
        } else {
            let k = (slug + "-"@).len() as int;
            assert(attempt(slug, a).skip(k) =~= dec(a));
            assert(attempt(slug, b).skip(k) =~= dec(b));
            lemma_dec_injective(a, b);
        }
    }
}

proof fn lemma_names_differ(repo: Seq<char>, slug: Seq<char>, a: nat, b: nat)
    requires
        1 <= a,
        1 <= b,
        a != b,
    ensures
        branch_name(attempt(slug, a)) != branch_name(attempt(slug, b)),
        dir_name(repo, attempt(slug, a)) != dir_name(repo, attempt(slug, b)),
{
    if a < b {
        lemma_attempts_differ(slug, a, b);
    } else {
        lemma_attempts_differ(slug, b, a);
    }
    let x = attempt(slug, a);
    let y = attempt(slug, b);
    let p = "cowboy/"@;
    let q = repo + "-cowboy-"@;
    assert(branch_name(x).skip(p.len() as int) =~= x);
    assert(branch_name(y).skip(p.len() as int) =~= y);
    assert(dir_name(repo, x).skip(q.len() as int) =~= x);
    assert(dir_name(repo, y).skip(q.len() as int) =~= y);
}

fn among(names: &Vec<String>, name: &str) -> (r: bool)
    ensures
        r == strs(names@).contains(name@),
{
    let ghost ns = strs(names@);
    let mut i: usize = 0;
    while i < names.len()
        invariant
            i <= names@.len(),
            ns == strs(names@),
            forall|k: int| 0 <= k < i ==> #[trigger] ns[k] != name@,
        decreases names.len() - i,
    {
        if same(&names[i], name) {
            assert(ns[i as int] == name@);
            return true;
        }
        assert(ns[i as int] != name@);
        i = i + 1;
    }
    false
}

/// The names that the attempts before the `n`th found taken: the places of the branches,
/// and after them those of the directories.
spec fn taken_by(
    repo: Seq<char>,
    slug: Seq<char>,
    branches: Seq<Seq<char>>,
    entries: Seq<Seq<char>>,
    used: Set<int>,
    n: nat,
) -> bool {
    &&& used.finite()
    &&& used.len() == n - 1
    &&& forall|i: int| #[trigger]
        used.contains(i) ==> {
            ||| 0 <= i < branches.len() && exists|k: nat|
                1 <= k < n && branches[i] == #[trigger] branch_name(attempt(slug, k))
            ||| branches.len() <= i < branches.len() + entries.len() && exists|k: nat|
                1 <= k < n && entries[i - branches.len()] == #[trigger] dir_name(
                    repo,
                    attempt(slug, k),
                )
        }
}

proof fn lemma_taken_grows(
    repo: Seq<char>,
    slug: Seq<char>,
    branches: Seq<Seq<char>>,
    entries: Seq<Seq<char>>,
    used: Set<int>,
    n: nat,
) -> (more: Set<int>)
    requires
        n >= 1,
        taken_by(repo, slug, branches, entries, used, n),
        !is_free(repo, slug, branches, entries, n),
    ensures
        taken_by(repo, slug, branches, entries, more, n + 1),
{
    let b = branch_name(attempt(slug, n));
    let d = dir_name(repo, attempt(slug, n));
    let at = if branches.contains(b) {
        choose|i: int| 0 <= i < branches.len() && branches[i] == b
    } else {
        branches.len() + choose|i: int| 0 <= i < entries.len() && entries[i] == d
    };
    if used.contains(at) {
        if at < branches.len() {
            let k = choose|k: nat|
                1 <= k < n && branches[at] == #[trigger] branch_name(attempt(slug, k));
            lemma_names_differ(repo, slug, k, n);
        } else {
            let k = choose|k: nat|
                1 <= k < n && entries[at - branches.len()] == #[trigger] dir_name(
                    repo,
                    attempt(slug, k),
                );
            lemma_names_differ(repo, slug, k, n);
        }
        assert(false);
    }
    let more = used.insert(at);
    assert forall|i: int| #[trigger] more.contains(i) implies {
        ||| 0 <= i < branches.len() && exists|k: nat|
            1 <= k < n + 1 && branches[i] == #[trigger] branch_name(attempt(slug, k))
        ||| branches.len() <= i < branches.len() + entries.len() && exists|k: nat|
            1 <= k < n + 1 && entries[i - branches.len()] == #[trigger] dir_name(
                repo,
                attempt(slug, k),
            )
    } by {
        if i == at {
            if branches.contains(b) {
                assert(branches[i] == branch_name(attempt(slug, n)));
            } else {
                assert(entries[i - branches.len()] == dir_name(repo, attempt(slug, n)));
            }
        } else {
            assert(used.contains(i));
            if 0 <= i < branches.len() && exists|k: nat|
                1 <= k < n && branches[i] == #[trigger] branch_name(attempt(slug, k)) {
                let k = choose|k: nat|
                    1 <= k < n && branches[i] == #[trigger] branch_name(attempt(slug, k));
                assert(branches[i] == branch_name(attempt(slug, k)));
            } else {
                let k = choose|k: nat|
                    1 <= k < n && entries[i - branches.len()] == #[trigger] dir_name(
                        repo,
                        attempt(slug, k),
                    );
                assert(entries[i - branches.len()] == dir_name(repo, attempt(slug, k)));
            }
        }
    }
    more
}

proof fn lemma_taken_bounded(
    repo: Seq<char>,
    slug: Seq<char>,
    branches: Seq<Seq<char>>,
    entries: Seq<Seq<char>>,
    used: Set<int>,
    n: nat,
)
    requires
        taken_by(repo, slug, branches, entries, used, n),
    ensures
        n - 1 <= branches.len() + entries.len(),
{
    let all = vstd::set_lib::set_int_range(0, (branches.len() + entries.len()) as int);
    vstd::set_lib::lemma_int_range(0, (branches.len() + entries.len()) as int);
    assert(used.subset_of(all));
    vstd::set_lib::lemma_len_subset(used, all);
}

/// The attempt at which a name is free, and none before it was.
pub open spec fn first_free(
    repo: Seq<char>,
    slug: Seq<char>,
    branches: Seq<Seq<char>>,
    entries: Seq<Seq<char>>,
    n: nat,
) -> bool {
    &&& n >= 1
    &&& is_free(repo, slug, branches, entries, n)
    &&& forall|k: nat| 1 <= k < n ==> !#[trigger] is_free(repo, slug, branches, entries, k)
}

/// The name of a repository.
pub open spec fn repo_name(repo: Option<String>) -> Seq<char> {
    match repo {
        Some(name) => name@,
        None => "repo"@,
    }
}

/// A free branch and directory for a slug, from the branches that there are and what is
/// beside the repository: the first attempt at which both are free. There always is one.
pub fn plan(
    repo: &Option<String>,
    slug: &str,
    branches: &Vec<String>,
    entries: &Vec<String>,
) -> (r: (String, String))
    ensures
        exists|n: nat| #[trigger]
            first_free(repo_name(*repo), slug@, strs(branches@), strs(entries@), n) && r.0@
                == branch_name(attempt(slug@, n)) && r.1@ == dir_name(
                repo_name(*repo),
                attempt(slug@, n),
            ),
{
    let name = match repo {
        Some(n) => n.clone(),
        None => "repo".to_owned(),
    };
    let ghost bs = strs(branches@);
    let ghost es = strs(entries@);
    let ghost mut used: Set<int> = Set::empty();
    let mut n: u128 = 1;
    let most: u128 = branches.len() as u128 + entries.len() as u128;
    loop
        invariant
            bs == strs(branches@),
            es == strs(entries@),
            most == bs.len() + es.len(),
            most < u128::MAX - 2,
            n >= 1,
            taken_by(name@, slug@, bs, es, used, n as nat),
            forall|k: nat| 1 <= k < n ==> !#[trigger] is_free(name@, slug@, bs, es, k),
            name@ == repo_name(*repo),
        decreases most + 2 - n,
    {
        proof {
            lemma_taken_bounded(name@, slug@, bs, es, used, n as nat);
        }
        let mut suffixed = slug.to_owned();
        if n > 1 {
            suffixed.push_str("-");
            suffixed.push_str(&decimal(n));
        }
        assert(suffixed@ == attempt(slug@, n as nat));
        let mut branch = "cowboy/".to_owned();
        branch.push_str(&suffixed);
        let mut dir = name.clone();
        dir.push_str("-cowboy-");
        dir.push_str(&suffixed);
        if !among(branches, &branch) && !among(entries, &dir) {
            assert(first_free(name@, slug@, bs, es, n as nat));
            assert(branch@ == branch_name(attempt(slug@, n as nat)));
            assert(dir@ == dir_name(name@, attempt(slug@, n as nat)));
            return (branch, dir);
        }
        proof {
            used = lemma_taken_grows(name@, slug@, bs, es, used, n as nat);
            lemma_taken_bounded(name@, slug@, bs, es, used, (n + 1) as nat);
        }
        n = n + 1;
    }
}

/// The slug under which a worktree is made: that of the branch asked for, or else of none.
pub fn create_slug(branch: Option<&str>) -> (r: String)
    ensures
        r@ == match branch {
            Some(b) => if starts_with(b@, "cowboy/"@) {
                b@.skip("cowboy/"@.len() as int)
            } else {
                b@
            },
            None => slug_of("work"@),
        },
{
    match branch {
        Some(b) => match strip_prefix(b, "cowboy/") {
            Some(s) => s,
            None => b.to_owned(),
        },
        None => slugify(None),
    }
}

// ---------------------------------------------------------------------------
// Which worktrees there are
// ---------------------------------------------------------------------------

/// A worktree: where it is, and its branch.
#[derive(Debug, PartialEq, Eq)]
pub struct WorktreeInfo {
    pub path: String,
    pub branch: String,
}

/// What has been read of a list of worktrees: those that are complete, and the path and
/// the branch of the one that is not.
pub struct Reading {
    pub list: Seq<(Seq<char>, Seq<char>)>,
    pub path: Option<Seq<char>>,
    pub branch: Option<Seq<char>>,
}

/// Worktrees as texts.
pub open spec fn infos(v: Seq<WorktreeInfo>) -> Seq<(Seq<char>, Seq<char>)> {
    Seq::new(v.len(), |i: int| (v[i].path@, v[i].branch@))
}

/// `s` without as many `p` as it starts with.
pub open spec fn without_prefixes(s: Seq<char>, p: Seq<char>) -> Seq<char>
    decreases s.len(),
{
    if p.len() > 0 && starts_with(s, p) {
        without_prefixes(s.skip(p.len() as int), p)
    } else {
        s
    }
}

/// What has been read, the last worktree complete.
pub open spec fn completed(r: Reading) -> Reading {
    match r.path {
        Some(p) => Reading {
            list: r.list.push(
                (
                    p,
                    match r.branch {
                        Some(b) => b,
                        None => "(detached)"@,
                    },
                ),
            ),
            path: None,
            branch: None,
        },
        None => r,
    }
}

/// What has been read after the first `n` lines.
pub open spec fn read_lines(ls: Seq<Seq<char>>, n: int) -> Reading
    decreases n,
{
    if n <= 0 {
        Reading { list: seq![], path: None, branch: None }
    } else {
        let r = read_lines(ls, n - 1);
        let line = ls[n - 1];
        if starts_with(line, "worktree "@) {
            Reading { path: Some(line.skip("worktree "@.len() as int)), ..completed(r) }
        } else if starts_with(line, "branch "@) {
            Reading {
                branch: Some(
                    without_prefixes(line.skip("branch "@.len() as int), "refs/heads/"@),
                ),
                ..r
            }
        } else {
            r
        }
    }
}

fn strip_all(s: &str, p: &str) -> (r: String)
    requires
        p@.len() > 0,
    ensures
        r@ == without_prefixes(s@, p@),
{
    let mut t = s.to_owned();
    loop
        invariant
            p@.len() > 0,
            without_prefixes(t@, p@) == without_prefixes(s@, p@),
        decreases t@.len(),
    {
        match strip_prefix(&t, p) {
            Some(rest) => {
                t = rest;
            },
            None => {
                return t;
            },
        }
    }
}

/// What has been read of a list, as texts.
pub open spec fn reading(list: Seq<WorktreeInfo>, path: Option<String>, branch: Option<String>) -> Reading {
    Reading {
        list: infos(list),
        path: match path {
            Some(p) => Some(p@),
            None => None,
        },
        branch: match branch {
            Some(b) => Some(b@),
            None => None,
        },
    }
}

fn complete(list: &mut Vec<WorktreeInfo>, path: Option<String>, branch: Option<String>) -> (r: Option<
    String,
>)
    ensures
        reading(final(list)@, None, r) == completed(reading(old(list)@, path, branch)),
{
    match path {
        Some(p) => {
            let b = match branch {
                Some(b) => b,
                None => "(detached)".to_owned(),
            };
            let ghost before = infos(list@);
            let ghost pair = (p@, b@);
            list.push(WorktreeInfo { path: p, branch: b });
            assert(infos(list@) =~= before.push(pair));
            None
        },
        None => branch,
    }
}

/// The worktrees of a repository, from the list that git gives of them.
pub fn list(text: &str) -> (r: Vec<WorktreeInfo>)
    ensures
        infos(r@) == completed(read_lines(lines(text@), lines(text@).len() as int)).list,
{
    let ls = split_lines(text);
    let ghost all = strs(ls@);
    let mut out: Vec<WorktreeInfo> = Vec::new();
    let mut path: Option<String> = None;
    let mut branch: Option<String> = None;
    let mut i: usize = 0;
    proof {
        reveal_strlit("refs/heads/");
        assert(infos(out@) =~= seq![]);
    }
    while i < ls.len()
        invariant
            i <= ls@.len(),
            all == strs(ls@),
            "refs/heads/"@.len() > 0,
            reading(out@, path, branch) == read_lines(all, i as int),
        decreases ls.len() - i,
    {
        let line = &ls[i];
        assert(all[i as int] == line@);
        match strip_prefix(line, "worktree ") {
            Some(p) => {
                branch = complete(&mut out, path, branch);
                path = Some(p);
            },
            None => match strip_prefix(line, "branch ") {
                Some(b) => {
                    branch = Some(strip_all(&b, "refs/heads/"));
                },
                None => {},
            },
        }
        i = i + 1;
    }
    let ghost last = reading(out@, path, branch);
    complete(&mut out, path, branch);
    assert(infos(out@) == completed(last).list);
    out
}

// ---------------------------------------------------------------------------
// What is shown
// ---------------------------------------------------------------------------

/// A word for whether a branch can be merged.
pub open spec fn merge_word(m: Option<bool>) -> Seq<char> {
    match m {
        Some(true) => "clean"@,
        Some(false) => "CONFLICTS"@,
        None => "unknown"@,
    }
}

/// A word for whether a branch can be merged.
pub fn merge_text(m: Option<bool>) -> (r: &'static str)
    ensures
        r@ == merge_word(m),
{
    match m {
        Some(true) => "clean",
        Some(false) => "CONFLICTS",
        None => "unknown",
    }
}

/// The lines on what a branch changes.
pub open spec fn status_text(s: WorktreeStatus) -> Seq<Seq<char>> {
    seq![
        "branch:     "@ + s.branch@,
        "forked at:  "@ + s.base@,
        "changes:    "@ + dec(s.files@.len()) + " file(s), +"@ + dec(s.insertions as nat) + " -"@
            + dec(s.deletions as nat),
        "merges:     "@ + merge_word(s.mergeable) + " (vs HEAD)"@,
    ] + Seq::new(s.files@.len(), |i: int| "  "@ + s.files@[i]@)
}

/// The lines on what a branch changes.
pub fn status_lines(s: &WorktreeStatus) -> (r: Vec<String>)
    ensures
        strs(r@) == status_text(*s),
{
    let mut out: Vec<String> = Vec::new();
    let mut a = "branch:     ".to_owned();
    a.push_str(&s.branch);
    let mut b = "forked at:  ".to_owned();
    b.push_str(&s.base);
    let mut c = "changes:    ".to_owned();
    c.push_str(&decimal_size(s.files.len()));
    c.push_str(" file(s), +");
    c.push_str(&decimal(s.insertions));
    c.push_str(" -");
    c.push_str(&decimal(s.deletions));
    let mut d = "merges:     ".to_owned();
    d.push_str(merge_text(s.mergeable));
    d.push_str(" (vs HEAD)");
    let ghost head = seq![a@, b@, c@, d@];
    push_text(&mut out, a);
    push_text(&mut out, b);
    push_text(&mut out, c);
    push_text(&mut out, d);
    let ghost all = Seq::new(s.files@.len(), |i: int| "  "@ + s.files@[i]@);
    let mut i: usize = 0;
    assert(strs(out@) =~= head + all.take(0));
    while i < s.files.len()
        invariant
            i <= s.files@.len(),
            all == Seq::new(s.files@.len(), |i: int| "  "@ + s.files@[i]@),
            strs(out@) == head + all.take(i as int),
        decreases s.files.len() - i,
    {
        let mut line = "  ".to_owned();
        line.push_str(&s.files[i]);
        push_text(&mut out, line);
        assert(strs(out@) =~= head + all.take(i + 1));
        i = i + 1;
    }
    assert(all.take(all.len() as int) =~= all);
    out
}

/// The line on a worktree and the session in it.
pub open spec fn worktree_line(w: WorktreeInfo, session: Option<String>) -> Seq<char> {
    pad_right(w.branch@, 24) + " "@ + pad_right(w.path@, 28) + " "@ + match session {
        Some(s) => s@,
        None => "-"@,
    }
}

/// The lines on all worktrees, each with the session in it.
pub fn list_lines(all: &Vec<(WorktreeInfo, Option<String>)>) -> (r: Vec<String>)
    ensures
        strs(r@) == (if all@.len() == 0 {
            seq!["no worktrees"@]
        } else {
            seq![pad_right("BRANCH"@, 24) + " "@ + pad_right("PATH"@, 28) + " SESSION"@]
                + Seq::new(all@.len(), |i: int| worktree_line(all@[i].0, all@[i].1))
        }),
{
    let mut out: Vec<String> = Vec::new();
    if all.len() == 0 {
        push_text(&mut out, "no worktrees".to_owned());
        assert(strs(out@) =~= seq!["no worktrees"@]);
        return out;
    }
    let mut head = padded_right("BRANCH", 24);
    head.push_str(" ");
    head.push_str(&padded_right("PATH", 28));
    head.push_str(" SESSION");
    let ghost h = seq![head@];
    push_text(&mut out, head);
    let ghost ls = Seq::new(all@.len(), |i: int| worktree_line(all@[i].0, all@[i].1));
    let mut i: usize = 0;
    assert(strs(out@) =~= h + ls.take(0));
    while i < all.len()
        invariant
            i <= all@.len(),
            ls == Seq::new(all@.len(), |i: int| worktree_line(all@[i].0, all@[i].1)),
            strs(out@) == h + ls.take(i as int),
        decreases all.len() - i,
    {
        let mut line = padded_right(&all[i].0.branch, 24);
        line.push_str(" ");
        line.push_str(&padded_right(&all[i].0.path, 28));
        line.push_str(" ");
        match &all[i].1 {
            Some(s) => line.push_str(s),
            None => line.push_str("-"),
        }
        assert(line@ == ls[i as int]);
        push_text(&mut out, line);
        assert(strs(out@) =~= h + ls.take(i + 1));
        i = i + 1;
    }
    assert(ls.take(ls.len() as int) =~= ls);
    out
}

/// What the daemon says of a session's branch.
#[derive(Debug)]
pub enum BranchReply {
    /// The session is known, and its branch where it has one.
    Session(Option<String>),
    Refused(String),
}

/// The branch to look at: the one given, or else that of the session given.
pub fn resolve_branch(
    branch: Option<String>,
    session: &Option<String>,
    reply: Option<BranchReply>,
) -> (r: Result<String, String>)
    requires
        branch is None && session is Some ==> reply is Some,
    ensures
        match (branch, *session) {
            (Some(b), _) => r == Ok::<String, String>(b),
            (None, None) => r matches Err(w) && w@ == "specify a BRANCH or --session <id>"@,
            (None, Some(id)) => match reply->0 {
                BranchReply::Session(Some(b)) => r == Ok::<String, String>(b),
                BranchReply::Session(None) => r matches Err(w) && w@ == "session "@ + id@
                    + " has no branch"@,
                BranchReply::Refused(m) => r == Err::<String, String>(m),
            },
        },
{
    match branch {
        Some(b) => Ok(b),
        None => match session {
            None => Err("specify a BRANCH or --session <id>".to_owned()),
            Some(id) => match reply {
                Some(BranchReply::Session(Some(b))) => Ok(b),
                Some(BranchReply::Refused(m)) => Err(m),
                _ => {
                    let mut why = "session ".to_owned();
                    why.push_str(id);
                    why.push_str(" has no branch");
                    Err(why)
                },
            },
        },
    }
}

// ---------------------------------------------------------------------------
// Laws
// ---------------------------------------------------------------------------

/// A text is clean: letters, numbers and dashes, and no dash beside another.
pub open spec fn clean(s: Seq<char>) -> bool {
    &&& forall|i: int| 0 <= i < s.len() ==> alphanumeric(#[trigger] s[i]) || s[i] == '-'
    &&& forall|i: int| 0 < i < s.len() ==> !(#[trigger] s[i] == '-' && s[i - 1] == '-')
}

proof fn lemma_dashed_clean(s: Seq<char>, n: int)
    requires
        0 <= n <= s.len(),
    ensures
        clean(dashed(s, n)),
    decreases n,
{
    if n > 0 {
        lemma_dashed_clean(s, n - 1);
        let b = dashed(s, n - 1);
        let t = dashed(s, n);
        assert forall|i: int| 0 <= i < t.len() implies alphanumeric(#[trigger] t[i]) || t[i] == '-' by {
            if i < b.len() {
                assert(t[i] == b[i]);
            }
        }
        assert forall|i: int| 0 < i < t.len() implies !(#[trigger] t[i] == '-' && t[i - 1] == '-') by {
            if i < b.len() {
                assert(t[i] == b[i] && t[i - 1] == b[i - 1]);
            } else {
                assert(t[i - 1] == b.last());
            }
        }
    }
}

proof fn lemma_undashed_clean(s: Seq<char>)
    requires
        clean(s),
    ensures
        clean(undashed(s)),
        undashed(s).len() > 0 ==> undashed(s)[0] != '-' && undashed(s).last() != '-',
{
    let a = if s.len() > 0 && s[0] == '-' {
        s.drop_first()
    } else {
        s
    };
    assert forall|i: int| 0 < i < a.len() implies !(#[trigger] a[i] == '-' && a[i - 1] == '-') by {
        if s.len() > 0 && s[0] == '-' {
            assert(a[i] == s[i + 1] && a[i - 1] == s[i]);
            assert(!(s[i + 1] == '-' && s[i + 1 - 1] == '-'));
        }
    }
    if s.len() > 1 && s[0] == '-' {
        assert(!(s[1] == '-' && s[1 - 1] == '-'));
        assert(a[0] == s[1]);
    }
    let t = undashed(s);
    if a.len() > 0 && a.last() == '-' {
        assert forall|i: int| 0 < i < t.len() implies !(#[trigger] t[i] == '-' && t[i - 1] == '-') by {
            assert(t[i] == a[i] && t[i - 1] == a[i - 1]);
        }
        if t.len() > 0 {
            let k = a.len() - 1;
            assert(!(a[k] == '-' && a[k - 1] == '-'));
        }
    }
}

/// A slug is never empty and never longer than it may be. It is clean and does not start
/// with a dash, nor does it end in one unless it was cut there.
pub proof fn slugs_are_clean(s: Seq<char>)
    ensures
        0 < slug_of(s).len() <= SLUG_CHARS,
        clean(slug_of(s)),
        slug_of(s)[0] != '-',
        slug_of(s).len() < SLUG_CHARS ==> slug_of(s).last() != '-',
{
    reveal_strlit("work");
    let low = lower(s);
    let d = dashed(low, low.len() as int);
    lemma_dashed_clean(low, low.len() as int);
    lemma_undashed_clean(d);
    let t = undashed(d);
    if t.len() > SLUG_CHARS {
        let cut = t.take(SLUG_CHARS as int);
        assert forall|i: int| 0 < i < cut.len() implies !(#[trigger] cut[i] == '-' && cut[i - 1]
            == '-') by {
            assert(cut[i] == t[i] && cut[i - 1] == t[i - 1]);
        }
    }
}

/// A worktree as git lists it: its path, the commit it is at, and its branch where it has
/// one.
pub struct GitEntry {
    pub path: Seq<char>,
    pub commit: Seq<char>,
    pub branch: Option<Seq<char>>,
}

/// The lines in which git lists a worktree.
pub open spec fn git_lines(e: GitEntry) -> Seq<Seq<char>> {
    seq![
        "worktree "@ + e.path,
        "HEAD "@ + e.commit,
        match e.branch {
            Some(b) => "branch "@ + ("refs/heads/"@ + b),
            None => "detached"@,
        },
        ""@,
    ]
}

/// The lines in which git lists worktrees.
pub open spec fn git_listing(es: Seq<GitEntry>) -> Seq<Seq<char>>
    decreases es.len(),
{
    if es.len() == 0 {
        seq![]
    } else {
        git_listing(es.drop_last()) + git_lines(es.last())
    }
}

proof fn lemma_begins(p: Seq<char>, rest: Seq<char>)
    ensures
        starts_with(p + rest, p),
        (p + rest).skip(p.len() as int) == rest,
{
    let s = p + rest;
    assert(s.subrange(0, p.len() as int) =~= p);
    assert(s.skip(p.len() as int) =~= rest);
}

proof fn lemma_begins_otherwise(s: Seq<char>, p: Seq<char>)
    requires
        p.len() > 0,
        s.len() > 0 ==> s[0] != p[0],
    ensures
        !starts_with(s, p),
{
    if starts_with(s, p) {
        assert(s.subrange(0, p.len() as int)[0] == s[0]);
    }
}

proof fn lemma_read_prefix(a: Seq<Seq<char>>, b: Seq<Seq<char>>, n: int)
    requires
        0 <= n <= a.len() <= b.len(),
        forall|i: int| 0 <= i < n ==> #[trigger] b[i] == a[i],
    ensures
        read_lines(b, n) == read_lines(a, n),
    decreases n,
{
    if n > 0 {
        lemma_read_prefix(a, b, n - 1);
        assert(b[n - 1] == a[n - 1]);
    }
}

/// What git lists is read back: every worktree, in order, with its path and its branch, or
/// as one that has none.
pub proof fn worktrees_are_read_back(es: Seq<GitEntry>)
    requires
        forall|i: int|
            0 <= i < es.len() && (#[trigger] es[i]).branch is Some ==> !starts_with(
                es[i].branch->0,
                "refs/heads/"@,
            ),
    ensures
        ({
            let ls = git_listing(es);
            let r = read_lines(ls, ls.len() as int);
            &&& completed(r).list == Seq::new(
                es.len(),
                |i: int|
                    (
                        es[i].path,
                        match es[i].branch {
                            Some(b) => b,
                            None => "(detached)"@,
                        },
                    ),
            )
            &&& r.path is None ==> r.branch is None
        }),
    decreases es.len(),
{
    let ls = git_listing(es);
    let shown = Seq::new(
        es.len(),
        |i: int|
            (
                es[i].path,
                match es[i].branch {
                    Some(b) => b,
                    None => "(detached)"@,
                },
            ),
    );
    if es.len() == 0 {
        assert(completed(read_lines(ls, 0)).list =~= shown);
    } else {
        reveal_strlit("worktree ");
        reveal_strlit("HEAD ");
        reveal_strlit("branch ");
        reveal_strlit("detached");
        reveal_strlit("");
        let few = es.drop_last();
        let e = es.last();
        assert forall|i: int| 0 <= i < few.len() && (#[trigger] few[i]).branch is Some implies
            !starts_with(few[i].branch->0, "refs/heads/"@) by {
            assert(few[i] == es[i]);
        }
        worktrees_are_read_back(few);
        let before = git_listing(few);
        let n = before.len() as int;
        assert(ls == before + git_lines(e));
        assert forall|i: int| 0 <= i < n implies #[trigger] ls[i] == before[i] by {}
        lemma_read_prefix(before, ls, n);
        let r0 = read_lines(ls, n);
        let l1 = "worktree "@ + e.path;
        let l2 = "HEAD "@ + e.commit;
        let l3 = git_lines(e)[2];
        let l4 = ""@;
        assert(ls[n] == l1 && ls[n + 1] == l2 && ls[n + 2] == l3 && ls[n + 3] == l4);
        lemma_begins("worktree "@, e.path);
        let r1 = read_lines(ls, n + 1);
        assert(r1 == (Reading { path: Some(e.path), ..completed(r0) }));
        assert(r1.branch is None);
        assert(l2[0] == 'H');
        lemma_begins_otherwise(l2, "worktree "@);
        lemma_begins_otherwise(l2, "branch "@);
        let r2 = read_lines(ls, n + 2);
        assert(r2 == r1);
        let r3 = read_lines(ls, n + 3);
        match e.branch {
            Some(b) => {
                let name = "refs/heads/"@ + b;
                assert(l3 == "branch "@ + name);
                assert(l3[0] == 'b');
                lemma_begins_otherwise(l3, "worktree "@);
                lemma_begins("branch "@, name);
                lemma_begins("refs/heads/"@, b);
                reveal_strlit("refs/heads/");
                assert(es[es.len() - 1].branch is Some);
                assert(without_prefixes(b, "refs/heads/"@) == b);
                assert(without_prefixes(name, "refs/heads/"@) == b);
                assert(r3 == (Reading { branch: Some(b), ..r2 }));
            },
            None => {
                assert(l3[0] == 'd');
                lemma_begins_otherwise(l3, "worktree "@);
                lemma_begins_otherwise(l3, "branch "@);
                assert(r3 == r2);
            },
        }
        assert(l4.len() == 0);
        lemma_begins_otherwise(l4, "worktree "@);
        lemma_begins_otherwise(l4, "branch "@);
        let r4 = read_lines(ls, n + 4);
        assert(r4 == r3);
        assert(ls.len() == n + 4);
        assert(completed(r4).list =~= shown);
    }
}

/// A slug that is clean already stays as it is: letters and digits, in runs with one dash
/// between each two, and no longer than a slug can be.
pub proof fn clean_slugs_stay(s: Seq<char>)
    requires
        0 < s.len() <= SLUG_CHARS,
        clean(s),
        s[0] != '-',
        s.last() != '-',
    ensures
        slug_of_lower(s) == s,
{
    lemma_dashed_same(s, s.len() as int);
    assert(s.take(s.len() as int) =~= s);
}

proof fn lemma_dashed_same(s: Seq<char>, n: int)
    requires
        0 <= n <= s.len(),
        clean(s),
    ensures
        dashed(s, n) == s.take(n),
    decreases n,
{
    if n > 0 {
        lemma_dashed_same(s, n - 1);
        let before = s.take(n - 1);
        assert(before.push(s[n - 1]) =~= s.take(n));
        assert(alphanumeric(s[n - 1]) || s[n - 1] == '-');
        if s[n - 1] == '-' && n > 1 {
            assert(before.last() == s[n - 2]);
            assert(!(s[n - 1] == '-' && s[n - 1 - 1] == '-'));
        }
    } else {
        assert(s.take(0) =~= seq![]);
    }
}

/// The branch and the directory that are planned are both free, and carry the slug: alone
/// where both are free then, else with the first number from two on with which they are.
pub proof fn plans_are_free(
    repo: Seq<char>,
    slug: Seq<char>,
    branches: Seq<Seq<char>>,
    entries: Seq<Seq<char>>,
    n: nat,
)
    requires
        first_free(repo, slug, branches, entries, n),
    ensures
        ({
            let name = if n == 1 {
                slug
            } else {
                slug + "-"@ + dec(n)
            };
            &&& attempt(slug, n) == name
            &&& branch_name(name) == "cowboy/"@ + name
            &&& dir_name(repo, name) == repo + "-cowboy-"@ + name
            &&& !branches.contains("cowboy/"@ + name)
            &&& !entries.contains(repo + "-cowboy-"@ + name)
            &&& n > 1 ==> branches.contains("cowboy/"@ + slug) || entries.contains(
                repo + "-cowboy-"@ + slug,
            )
        }),
{
    if n > 1 {
        assert(!is_free(repo, slug, branches, entries, 1));
    }
}

/// A changed file adds its two numbers to the sums, and a binary one adds nothing.
pub proof fn changes_add_up(ls: Seq<Seq<char>>, a: nat, b: nat, path: Seq<char>)
    requires
        a <= u64::MAX,
        b <= u64::MAX,
    ensures
        ({
            let line = dec(a) + seq!['\t'] + (dec(b) + seq!['\t'] + path);
            let n = ls.len() as int;
            &&& added(ls.push(line), n + 1) == added(ls, n) + a
            &&& removed(ls.push(line), n + 1) == removed(ls, n) + b
        }),
        ({
            let line = seq!['-', '\t', '-', '\t'] + path;
            let n = ls.len() as int;
            &&& added(ls.push(line), n + 1) == added(ls, n)
            &&& removed(ls.push(line), n + 1) == removed(ls, n)
        }),
{
    let n = ls.len() as int;
    let line = dec(a) + seq!['\t'] + (dec(b) + seq!['\t'] + path);
    lemma_sums_prefix(ls, ls.push(line), n);
    decimals_are_read_back(a);
    decimals_are_read_back(b);
    lemma_no_tab(dec(a));
    lemma_no_tab(dec(b));
    lemma_columns(dec(a), dec(b) + seq!['\t'] + path);
    lemma_columns(dec(b), path);
    lemma_natural(a);
    lemma_natural(b);
    let other = seq!['-', '\t', '-', '\t'] + path;
    let dash = seq!['-'];
    assert(!dash.contains('\t'));
    assert(other =~= dash + seq!['\t'] + (dash + seq!['\t'] + path));
    lemma_columns(dash, dash + seq!['\t'] + path);
    lemma_columns(dash, path);
    assert(!is_digit(dash[0]));
    assert(natural(dash) is None);
    lemma_sums_prefix(ls, ls.push(other), n);
}

proof fn lemma_natural(n: nat)
    requires
        n <= u64::MAX,
    ensures
        natural(dec(n)) == Some(n),
{
    decimals_are_read_back(n);
    assert(is_digit(dec(n)[0]));
}

proof fn lemma_no_tab(s: Seq<char>)
    requires
        all_digits(s),
    ensures
        !s.contains('\t'),
{
    if s.contains('\t') {
        let k = s.index_of('\t');
        assert(is_digit(s[k]));
    }
}

proof fn lemma_columns(a: Seq<char>, rest: Seq<char>)
    requires
        !a.contains('\t'),
    ensures
        first_column(a + seq!['\t'] + rest) == a,
        second_column(a + seq!['\t'] + rest) == Some(first_column(rest)),
{
    let s = a + seq!['\t'] + rest;
    let tab = seq!['\t'];
    let n = a.len() as int;
    lemma_find(s, tab, 0);
    assert(s.subrange(n, n + 1) =~= tab);
    assert(at(s, tab, n));
    let i = find(s, tab, 0)->0;
    if i < n {
        assert(s.subrange(i, i + 1)[0] == a[i]);
        assert(a.contains(a[i]));
    }
    assert(s.take(n) =~= a);
    assert(s.skip(n + 1) =~= rest);
}

proof fn lemma_sums_prefix(a: Seq<Seq<char>>, b: Seq<Seq<char>>, n: int)
    requires
        0 <= n <= a.len() <= b.len(),
        forall|i: int| 0 <= i < n ==> #[trigger] b[i] == a[i],
    ensures
        added(b, n) == added(a, n),
        removed(b, n) == removed(a, n),
    decreases n,
{
    if n > 0 {
        lemma_sums_prefix(a, b, n - 1);
        assert(b[n - 1] == a[n - 1]);
    }
}

/// The files of a status are its lines that are not blank, each once and in order.
pub proof fn filled_lines_are_kept(ls: Seq<Seq<char>>, n: int) -> (js: Seq<int>)
    requires
        0 <= n <= ls.len(),
    ensures
        ascending(js, n),
        forall|i: int| 0 <= i < n ==> (#[trigger] js.contains(i) <==> !blank(ls[i])),
        filled_lines(ls, n) == Seq::new(js.len(), |k: int| ls[js[k]]),
    decreases n,
{
    if n == 0 {
        let js: Seq<int> = seq![];
        assert(filled_lines(ls, n) =~= Seq::new(js.len(), |k: int| ls[js[k]]));
        js
    } else {
        let before = filled_lines_are_kept(ls, n - 1);
        lemma_one_more(before, n - 1);
        if blank(ls[n - 1]) {
            before
        } else {
            let js = before.push(n - 1);
            assert(filled_lines(ls, n) =~= Seq::new(js.len(), |k: int| ls[js[k]]));
            js
        }
    }
}

} // verus!
