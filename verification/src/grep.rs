//! Searching files for a pattern: which files are looked into, what is reported of
//! each, and the summary at the end.

use crate::choice::{ascending, lemma_one_more};
use crate::pattern::{build_regex, compile_glob, glob_texts, holding, is_match, pattern_fault, pattern_texts,
    search_body, glob_pattern, texts_matched};
use crate::text::{chars_of, is_ws, lines, split_lines, string_of, strs, trim_end, trimmed_end,
    trimming_the_end_takes_white_space};
use crate::view::{decode, is_binary, looks_binary};
use crate::words::{as_much_fits_as_can, byte_len, bytes_in, dec, decimal, decimal_size, fitting,
    fitting_chars, plural, plural_suffix, quote, quoted};
use vstd::prelude::*;
use vstd::utf8::{decode_utf8, valid_utf8};

verus! {

broadcast use vstd::string::group_string_axioms;

/// Cap on reported matches where the request names none.
pub const DEFAULT_GREP_RESULTS: usize = 200;

/// Ceiling on reported matches.
pub const MAX_GREP_RESULTS: usize = 2000;

/// Longest line, in bytes, that is reported in full.
pub const MAX_LINE_BYTES: usize = 400;

/// Cap on the size of a `.gitignore` that is read.
pub const MAX_GITIGNORE_BYTES: u64 = 262144;

/// Whether a `.gitignore` counts: it is a file, and not too large.
pub fn gitignore_counts(is_file: bool, bytes: u64) -> (r: bool)
    ensures
        r == (is_file && bytes <= MAX_GITIGNORE_BYTES),
{
    is_file && bytes <= MAX_GITIGNORE_BYTES
}

/// What is said where a `.gitignore` hid something.
pub open spec fn gitignore_note() -> Seq<char> {
    "(some paths were skipped because .gitignore lists them; pass include_ignored=true to search them)\n"@
}

/// What is said where a `.gitignore` hid something.
pub fn ignored_note() -> (r: &'static str)
    ensures
        r@ == gitignore_note(),
{
    "(some paths were skipped because .gitignore lists them; pass include_ignored=true to search them)\n"
}

/// The directories that are never searched: build output and dependency trees.
pub open spec fn skipped_names() -> Seq<Seq<char>> {
    seq![
        ".git"@,
        ".hg"@,
        ".svn"@,
        "target"@,
        "node_modules"@,
        ".venv"@,
        "venv"@,
        "__pycache__"@,
        ".mypy_cache"@,
        ".pytest_cache"@,
        ".ruff_cache"@,
        "dist"@,
        "build"@,
        ".next"@,
        ".turbo"@,
        ".cargo"@,
        ".rustup"@,
        ".cowboy"@,
    ]
}

/// Whether a directory of this name is never searched.
pub fn is_skipped_dir(name: &str) -> (r: bool)
    ensures
        r == skipped_names().contains(name@),
{
    let names: [&str; 18] = [
        ".git",
        ".hg",
        ".svn",
        "target",
        "node_modules",
        ".venv",
        "venv",
        "__pycache__",
        ".mypy_cache",
        ".pytest_cache",
        ".ruff_cache",
        "dist",
        "build",
        ".next",
        ".turbo",
        ".cargo",
        ".rustup",
        ".cowboy",
    ];
    let ghost gs = skipped_names();
    assert(forall|k: int| 0 <= k < 18 ==> (#[trigger] names@[k])@ == gs[k]);
    let mut i: usize = 0;
    while i < 18
        invariant
            i <= 18,
            gs == skipped_names(),
            gs.len() == 18,
            names@.len() == 18,
            forall|k: int| 0 <= k < 18 ==> (#[trigger] names@[k])@ == gs[k],
            forall|k: int| 0 <= k < i ==> #[trigger] gs[k] != name@,
        decreases 18 - i,
    {
        if crate::text::same(names[i], name) {
            assert(gs[i as int] == name@);
            return true;
        }
        i = i + 1;
    }
    false
}

/// What a walk does with an entry.
#[derive(Debug, Clone, Copy, PartialEq, Eq, Structural)]
pub enum Visit {
    /// Looked at, and descended into.
    Keep,
    /// Left out for its name.
    Skip,
    /// Left out because a `.gitignore` lists it.
    Ignored,
}

/// What a walk does with an entry: directories with a skipped name are left out, and
/// so is what is ignored. The place where the walk starts is always looked at.
pub fn visit(is_base: bool, name: &str, is_dir: bool, ignored: bool) -> (r: Visit)
    ensures
        r == if is_base {
            Visit::Keep
        } else if is_dir && skipped_names().contains(name@) {
            Visit::Skip
        } else if ignored {
            Visit::Ignored
        } else {
            Visit::Keep
        },
{
    if is_base {
        Visit::Keep
    } else if is_dir && is_skipped_dir(name) {
        Visit::Skip
    } else if ignored {
        Visit::Ignored
    } else {
        Visit::Keep
    }
}

/// The directories on the way to a path, of those that end within its first `n`
/// characters: the root first, as an empty path, and each below the one before.
pub open spec fn dirs_to(path: Seq<char>, n: int) -> Seq<Seq<char>>
    decreases n,
{
    if n <= 0 {
        seq![seq![]]
    } else if path[n - 1] == '/' {
        dirs_to(path, n - 1).push(path.take(n - 1))
    } else {
        dirs_to(path, n - 1)
    }
}

/// The directories on the way to a path, root first.
pub fn ancestors(path: &str) -> (r: Vec<String>)
    ensures
        strs(r@) == dirs_to(path@, path@.len() as int),
{
    let cs = chars_of(path);
    let mut out: Vec<String> = Vec::new();
    out.push(String::new());
    assert(strs(out@) =~= seq![Seq::<char>::empty()]);
    let mut i: usize = 0;
    while i < cs.len()
        invariant
            i <= cs@.len(),
            cs@ == path@,
            strs(out@) == dirs_to(path@, i as int),
        decreases cs.len() - i,
    {
        if cs[i] == '/' {
            let ghost before = strs(out@);
            let dir = string_of(&cs, 0, i);
            assert(dir@ =~= path@.take(i as int));
            out.push(dir);
            assert(strs(out@) =~= before.push(path@.take(i as int)));
        }
        i = i + 1;
    }
    out
}

/// A line as it is reported: without trailing white space, and cut where it is longer
/// than is reported in full.
pub open spec fn clipped(line: Seq<char>) -> Seq<char> {
    let t = trim_end(line);
    if byte_len(t) <= MAX_LINE_BYTES {
        t
    } else {
        t.take(fitting(t, MAX_LINE_BYTES as int)) + "… [line clipped]"@
    }
}

/// A line as it is reported.
pub fn clip_line(line: &str) -> (r: String)
    ensures
        r@ == clipped(line@),
{
    let t = trimmed_end(line);
    if bytes_in(&t) <= MAX_LINE_BYTES {
        return t;
    }
    let cs = chars_of(&t);
    let n = fitting_chars(&cs, MAX_LINE_BYTES);
    let mut out = string_of(&cs, 0, n);
    assert(out@ =~= trim_end(line@).take(n as int));
    out.push_str("… [line clipped]");
    out
}

// ---------------------------------------------------------------------------
// One file
// ---------------------------------------------------------------------------

/// What is searched for, and how much of it is reported.
pub struct Query {
    /// The lines that match.
    pub texts: Set<Seq<char>>,
    /// Lines shown on each side of a match.
    pub context: nat,
    /// Matches reported at most.
    pub limit: nat,
}

/// A search under way: the report, the matches in it, all matches, and the last line
/// of the present file that is in the report.
pub struct Scan {
    pub out: Seq<char>,
    pub shown: nat,
    pub total: nat,
    pub last: Option<int>,
}

/// One line in a report: `:` marks a match, and `-` a line of context.
pub open spec fn report_line(
    texts: Set<Seq<char>>,
    rel: Seq<char>,
    ls: Seq<Seq<char>>,
    j: int,
) -> Seq<char> {
    rel + ":"@ + dec((j + 1) as nat) + (if texts.contains(ls[j]) {
        ":"@
    } else {
        "-"@
    }) + clipped(ls[j]) + "\n"@
}

/// Lines `from..to` in a report.
pub open spec fn report_lines(
    texts: Set<Seq<char>>,
    rel: Seq<char>,
    ls: Seq<Seq<char>>,
    from: int,
    to: int,
) -> Seq<char>
    decreases to - from,
{
    if from >= to {
        seq![]
    } else {
        report_lines(texts, rel, ls, from, to - 1) + report_line(texts, rel, ls, to - 1)
    }
}

/// The last line of the window around line `i`.
pub open spec fn window_end(n: int, i: int, context: nat) -> int {
    if i + context < n {
        i + context
    } else {
        n - 1
    }
}

/// The report with the window around line `i` behind it: lines already shown are not
/// shown again, and a separator marks a gap.
pub open spec fn with_window(
    q: Query,
    rel: Seq<char>,
    ls: Seq<Seq<char>>,
    i: int,
    s: Scan,
) -> Seq<char> {
    let lo = if i < q.context {
        0
    } else {
        i - q.context
    };
    let hi = window_end(ls.len() as int, i, q.context);
    match s.last {
        Some(prev) => if lo > prev + 1 {
            s.out + "--\n"@ + report_lines(q.texts, rel, ls, lo, hi + 1)
        } else if lo <= prev {
            s.out + report_lines(q.texts, rel, ls, prev + 1, hi + 1)
        } else {
            s.out + report_lines(q.texts, rel, ls, lo, hi + 1)
        },
        None => s.out + report_lines(q.texts, rel, ls, lo, hi + 1),
    }
}

/// The search after the first `n` lines of a file. Every match is counted; it is
/// reported while there is room.
pub open spec fn scan(q: Query, rel: Seq<char>, ls: Seq<Seq<char>>, start: Scan, n: int) -> Scan
    decreases n,
{
    if n <= 0 {
        start
    } else {
        let s = scan(q, rel, ls, start, n - 1);
        if !q.texts.contains(ls[n - 1]) {
            s
        } else if s.shown >= q.limit {
            Scan { total: s.total + 1, ..s }
        } else if q.context == 0 {
            Scan {
                out: s.out + report_line(q.texts, rel, ls, n - 1),
                shown: s.shown + 1,
                total: s.total + 1,
                last: s.last,
            }
        } else {
            Scan {
                out: with_window(q, rel, ls, n - 1, s),
                shown: s.shown + 1,
                total: s.total + 1,
                last: Some(window_end(ls.len() as int, n - 1, q.context)),
            }
        }
    }
}

/// How many of the first `n` lines match.
pub open spec fn hits_in(texts: Set<Seq<char>>, ls: Seq<Seq<char>>, n: int) -> nat
    decreases n,
{
    if n <= 0 {
        0
    } else {
        hits_in(texts, ls, n - 1) + if texts.contains(ls[n - 1]) {
            1nat
        } else {
            0
        }
    }
}

/// Some line matches.
pub open spec fn any_hit(texts: Set<Seq<char>>, ls: Seq<Seq<char>>) -> bool {
    exists|i: int| 0 <= i < ls.len() && texts.contains(#[trigger] ls[i])
}

fn push_line(out: String, re: &regex::Regex, rel: &str, ls: &Vec<String>, j: usize) -> (r: String)
    requires
        j < ls.len(),
    ensures
        r@ == out@ + report_line(texts_matched(*re), rel@, strs(ls@), j as int),
{
    let mut line = rel.to_owned();
    line.push_str(":");
    line.push_str(&decimal_size(j + 1));
    line.push_str(if is_match(re, &ls[j]) { ":" } else { "-" });
    line.push_str(&clip_line(&ls[j]));
    line.push_str("\n");
    assert(strs(ls@)[j as int] == ls@[j as int]@);
    let mut out = out;
    out.push_str(&line);
    out
}

fn push_lines(
    out: String,
    re: &regex::Regex,
    rel: &str,
    ls: &Vec<String>,
    from: usize,
    to: usize,
) -> (r: String)
    requires
        to <= ls@.len(),
    ensures
        r@ == out@ + report_lines(
            texts_matched(*re),
            rel@,
            strs(ls@),
            from as int,
            to as int,
        ),
{
    let ghost before = out@;
    let mut out = out;
    let mut j: usize = from;
    assert(before + Seq::<char>::empty() =~= before);
    if from >= to {
        return out;
    }
    while j < to
        invariant
            from <= j <= to <= ls@.len(),
            out@ == before + report_lines(
                texts_matched(*re),
                rel@,
                strs(ls@),
                from as int,
                j as int,
            ),
        decreases to - j,
    {
        out = push_line(out, re, rel, ls, j);
        proof {
            let a = report_lines(texts_matched(*re), rel@, strs(ls@), from as int, j as int);
            let b = report_line(texts_matched(*re), rel@, strs(ls@), j as int);
            assert(before + a + b =~= before + (a + b));
        }
        j = j + 1;
    }
    out
}

/// The parts of a scan that a file changes.
struct Progress {
    out: String,
    shown: usize,
    total: usize,
}

fn push_window(
    re: &regex::Regex,
    rel: &str,
    ls: &Vec<String>,
    i: usize,
    context: usize,
    out: String,
    last: Option<usize>,
    Ghost(q): Ghost<Query>,
    Ghost(s): Ghost<Scan>,
) -> (r: (String, usize))
    requires
        q.texts == texts_matched(*re),
        q.context == context,
        i < ls@.len(),
        s.out == out@,
        last matches Some(p) ==> p < ls@.len(),
        s.last == match last {
            Some(p) => Some(p as int),
            None => None,
        },
    ensures
        r.0@ == with_window(q, rel@, strs(ls@), i as int, s),
        r.1 == window_end(ls@.len() as int, i as int, context as nat),
        r.1 < ls@.len(),
{
    assert(strs(ls@).len() == ls@.len());
    let lo: usize = if i < context { 0 } else { i - context };
    let hi: usize = if context < ls.len() - i { i + context } else { ls.len() - 1 };
    let mut out = out;
    let mut start: usize = lo;
    match last {
        Some(prev) => {
            if lo > prev + 1 {
                out.push_str("--\n");
            } else if lo <= prev {
                start = prev + 1;
            }
        },
        None => {},
    }
    let out = push_lines(out, re, rel, ls, start, hi + 1);
    (out, hi)
}

fn scan_lines(
    re: &regex::Regex,
    context: usize,
    limit: usize,
    rel: &str,
    ls: &Vec<String>,
    out: String,
    shown: usize,
) -> (r: Progress)
    requires
        shown <= limit,
    ensures
        ({
            let q = Query {
                texts: texts_matched(*re),
                context: context as nat,
                limit: limit as nat,
            };
            let s = scan(
                q,
                rel@,
                strs(ls@),
                Scan { out: out@, shown: shown as nat, total: 0, last: None },
                ls@.len() as int,
            );
            &&& r.out@ == s.out
            &&& r.shown == s.shown
            &&& r.total == s.total
            &&& r.shown <= limit
            &&& r.total <= ls@.len()
        }),
{
    let ghost q = Query {
        texts: texts_matched(*re),
        context: context as nat,
        limit: limit as nat,
    };
    let ghost start = Scan { out: out@, shown: shown as nat, total: 0, last: None };
    let ghost gs = strs(ls@);
    let mut out = out;
    let mut shown: usize = shown;
    let mut total: usize = 0;
    let mut last: Option<usize> = None;
    let mut i: usize = 0;
    while i < ls.len()
        invariant
            i <= ls@.len(),
            gs == strs(ls@),
            gs.len() == ls@.len(),
            q.texts == texts_matched(*re),
            q.context == context,
            q.limit == limit,
            shown <= limit,
            total <= i,
            last matches Some(p) ==> p < ls@.len(),
            scan(q, rel@, gs, start, i as int) == (Scan {
                out: out@,
                shown: shown as nat,
                total: total as nat,
                last: match last {
                    Some(p) => Some(p as int),
                    None => None,
                },
            }),
        decreases ls.len() - i,
    {
        assert(gs[i as int] == ls@[i as int]@);
        let ghost s = scan(q, rel@, gs, start, i as int);
        if is_match(re, &ls[i]) {
            total = total + 1;
            if shown < limit {
                if context == 0 {
                    out = push_line(out, re, rel, ls, i);
                } else {
                    let (next, hi) = push_window(re, rel, ls, i, context, out, last, Ghost(q), Ghost(s));
                    out = next;
                    last = Some(hi);
                }
                shown = shown + 1;
            }
        }
        i = i + 1;
    }
    Progress { out, shown, total }
}

/// Whether some line matches.
fn matches_any(re: &regex::Regex, ls: &Vec<String>) -> (r: bool)
    ensures
        r == any_hit(texts_matched(*re), strs(ls@)),
{
    let ghost gs = strs(ls@);
    let mut i: usize = 0;
    while i < ls.len()
        invariant
            i <= ls@.len(),
            gs == strs(ls@),
            forall|k: int| 0 <= k < i ==> !texts_matched(*re).contains(#[trigger] gs[k]),
        decreases ls.len() - i,
    {
        assert(gs[i as int] == ls@[i as int]@);
        if is_match(re, &ls[i]) {
            return true;
        }
        i = i + 1;
    }
    assert(gs.len() == ls@.len());
    false
}

// ---------------------------------------------------------------------------
// The whole search
// ---------------------------------------------------------------------------

/// A request to search.
#[derive(Debug)]
pub struct GrepReq {
    pub pattern: String,
    pub path: Option<String>,
    pub glob: Option<String>,
    pub literal: bool,
    pub case_insensitive: bool,
    pub max_results: Option<usize>,
    /// Lines of context on each side of a match.
    pub context: Option<usize>,
    /// Report only the paths of files that contain a match.
    pub files_only: bool,
    /// Search what a `.gitignore` excludes too.
    pub include_ignored: bool,
}

/// A search under way.
#[derive(Debug)]
pub struct Grep {
    pub req: GrepReq,
    pub re: regex::Regex,
    pub name_filter: Option<regex::Regex>,
    pub limit: usize,
    pub out: String,
    pub shown: usize,
    pub total: u128,
    pub files_matched: u64,
    pub skipped_binary: u64,
    /// Files handed to the search so far.
    pub files: u64,
}

/// What a search has found so far.
pub struct Tally {
    pub out: Seq<char>,
    pub shown: nat,
    pub total: nat,
    pub files_matched: nat,
    pub skipped_binary: nat,
}

/// How many matches are reported at most.
pub open spec fn result_cap(max_results: Option<usize>, default: usize, max: usize) -> usize {
    let n = match max_results {
        Some(n) => n,
        None => default,
    };
    if n < 1 {
        1
    } else if n > max {
        max
    } else {
        n
    }
}

/// How many results are reported at most.
pub fn cap(max_results: Option<usize>, default: usize, max: usize) -> (r: usize)
    ensures
        r == result_cap(max_results, default, max),
{
    let n: usize = match max_results {
        Some(n) => n,
        None => default,
    };
    if n < 1 {
        1
    } else if n > max {
        max
    } else {
        n
    }
}

/// The search after one more file.
pub open spec fn after_file(
    q: Query,
    files_only: bool,
    rel: Seq<char>,
    bytes: Seq<u8>,
    t: Tally,
) -> Tally {
    if looks_binary(bytes) || !valid_utf8(bytes) {
        Tally { skipped_binary: t.skipped_binary + 1, ..t }
    } else {
        let ls = lines(decode_utf8(bytes));
        if !any_hit(q.texts, ls) {
            t
        } else if files_only {
            Tally {
                out: if t.shown < q.limit {
                    t.out + rel + "\n"@
                } else {
                    t.out
                },
                shown: if t.shown < q.limit {
                    t.shown + 1
                } else {
                    t.shown
                },
                total: t.total + 1,
                files_matched: t.files_matched + 1,
                skipped_binary: t.skipped_binary,
            }
        } else {
            let s = scan(
                q,
                rel,
                ls,
                Scan { out: t.out, shown: t.shown, total: 0, last: None },
                ls.len() as int,
            );
            Tally {
                out: s.out,
                shown: s.shown,
                total: t.total + s.total,
                files_matched: t.files_matched + 1,
                skipped_binary: t.skipped_binary,
            }
        }
    }
}

/// The report of a search: what matched, and a summary that states the true totals
/// even where the list is capped.
pub open spec fn grep_report(
    pattern: Seq<char>,
    glob: Option<Seq<char>>,
    path: Option<Seq<char>>,
    files_only: bool,
    t: Tally,
    hid_ignored: bool,
) -> Seq<char> {
    let body = if t.total == 0 {
        let a = "no matches for "@ + quoted(pattern);
        let b = match glob {
            Some(g) => a + " in files matching "@ + quoted(g),
            None => a,
        };
        let c = match path {
            Some(p) => b + " under "@ + p,
            None => b,
        };
        let d = c + "\n"@;
        if t.skipped_binary > 0 {
            d + "("@ + dec(t.skipped_binary) + " binary file(s) skipped)\n"@
        } else {
            d
        }
    } else {
        let a = if files_only {
            t.out + "\n"@ + dec(t.files_matched) + " file"@ + plural_suffix(t.files_matched as int)
                + " with matches"@
        } else {
            t.out + "\n"@ + dec(t.total) + (if t.total == 1 {
                " match"@
            } else {
                " matches"@
            }) + " in "@ + dec(t.files_matched) + " file"@ + plural_suffix(t.files_matched as int)
        };
        let most = if files_only {
            t.files_matched
        } else {
            t.total
        };
        let b = if t.shown < most {
            a + "; showing the first "@ + dec(t.shown)
                + ". Narrow the pattern, pass `glob`/`path`, or raise `max_results` to see the rest"@
        } else {
            a
        };
        let c = if t.skipped_binary > 0 {
            b + " ("@ + dec(t.skipped_binary) + " binary file(s) skipped)"@
        } else {
            b
        };
        c + "\n"@
    };
    if hid_ignored {
        body + gitignore_note()
    } else {
        body
    }
}

/// A text that may be absent, by what it holds.
pub open spec fn opt(s: Option<String>) -> Option<Seq<char>> {
    match s {
        Some(t) => Some(t@),
        None => None,
    }
}

fn plural_of(n: u64) -> (r: &'static str)
    ensures
        r@ == plural_suffix(n as int),
{
    plural(if n == 1 { 1 } else { 2 })
}

impl Grep {
    /// What is searched for.
    pub open spec fn query(&self) -> Query {
        Query {
            texts: texts_matched(self.re),
            context: match self.req.context {
                Some(n) => n as nat,
                None => 0,
            },
            limit: self.limit as nat,
        }
    }

    /// What the search has found so far; what it is for stands in its other fields.
    pub open spec fn tally(&self) -> Tally {
        Tally {
            out: self.out@,
            shown: self.shown as nat,
            total: self.total as nat,
            files_matched: self.files_matched as nat,
            skipped_binary: self.skipped_binary as nat,
        }
    }

    /// The counts are those of the files handed in.
    pub open spec fn wf(&self) -> bool {
        &&& self.shown <= self.limit
        &&& self.total <= self.files * usize::MAX
        &&& self.files_matched <= self.files
        &&& self.skipped_binary <= self.files
    }

    /// The message on a request that cannot be searched for.
    pub open spec fn request_fault(req: GrepReq) -> Option<Seq<char>> {
        let body = search_body(req.pattern@, req.literal);
        if req.pattern@.len() == 0 {
            Some("`pattern` must not be empty"@)
        } else if pattern_texts(body, req.case_insensitive) is None {
            Some(
                "invalid regex "@ + quoted(req.pattern@) + ": "@ + pattern_fault(
                    body,
                    req.case_insensitive,
                ) + ". Set literal=true to search for it as plain text."@,
            )
        } else if req.glob is Some && glob_texts((req.glob->0)@) is None {
            Some("invalid `glob`: "@ + pattern_fault(glob_pattern((req.glob->0)@), false))
        } else {
            None
        }
    }

    /// Begins a search, or says why the request cannot be searched for.
    pub fn new(req: GrepReq) -> (r: Result<Grep, String>)
        ensures
            match Grep::request_fault(req) {
                Some(e) => r is Err && r->Err_0@ == e,
                None => r is Ok && r->Ok_0.fresh(req),
            },
            r is Ok && req.literal && !req.case_insensitive ==> r->Ok_0.query().texts == holding(
                req.pattern@,
            ),
    {
        if req.pattern.as_str().is_empty() {
            return Err("`pattern` must not be empty".to_owned());
        }
        let re = match build_regex(&req.pattern, req.literal, req.case_insensitive) {
            Ok(re) => re,
            Err(e) => {
                return Err(e);
            },
        };
        let name_filter = match &req.glob {
            Some(g) => match compile_glob(g) {
                Ok(f) => Some(f),
                Err(e) => {
                    return Err(e);
                },
            },
            None => None,
        };
        let limit = cap(req.max_results, DEFAULT_GREP_RESULTS, MAX_GREP_RESULTS);
        let out = String::new();
        assert(out@ =~= seq![]);
        Ok(
            Grep {
                req,
                re,
                name_filter,
                limit,
                out,
                shown: 0,
                total: 0,
                files_matched: 0,
                skipped_binary: 0,
                files: 0,
            },
        )
    }

    /// A search that has just begun, for what is asked.
    pub open spec fn fresh(&self, req: GrepReq) -> bool {
        &&& self.wf()
        &&& self.req == req
        &&& pattern_texts(search_body(req.pattern@, req.literal), req.case_insensitive) == Some(
            self.query().texts,
        )
        &&& self.limit == result_cap(req.max_results, DEFAULT_GREP_RESULTS, MAX_GREP_RESULTS)
        &&& match req.glob {
            Some(g) => self.name_filter is Some && glob_texts(g@) == Some(
                texts_matched(self.name_filter->0),
            ),
            None => self.name_filter is None,
        }
        &&& self.files == 0
        &&& self.tally() == (Tally {
            out: seq![],
            shown: 0,
            total: 0,
            files_matched: 0,
            skipped_binary: 0,
        })
    }

    /// A file of this name and path is looked into: the name or the path matches the glob,
    /// if there is one.
    pub open spec fn wanted(&self, name: Seq<char>, rel: Seq<char>) -> bool {
        match self.name_filter {
            Some(f) => texts_matched(f).contains(name) || texts_matched(f).contains(rel),
            None => true,
        }
    }

    /// Whether a file is searched: its name or its path matches the glob, if there is
    /// one.
    pub fn wants(&self, name: &str, rel: &str) -> (r: bool)
        ensures
            r == self.wanted(name@, rel@),
    {
        match &self.name_filter {
            Some(f) => is_match(f, name) || is_match(f, rel),
            None => true,
        }
    }

    /// Searches one file.
    pub fn add_file(&mut self, rel: &str, bytes: Vec<u8>)
        requires
            old(self).wf(),
            old(self).files < u64::MAX,
        ensures
            final(self).wf(),
            final(self).files == old(self).files + 1,
            final(self).req == old(self).req,
            final(self).re == old(self).re,
            final(self).name_filter == old(self).name_filter,
            final(self).limit == old(self).limit,
            final(self).tally() == after_file(
                old(self).query(),
                old(self).req.files_only,
                rel@,
                bytes@,
                old(self).tally(),
            ),
    {
        let ghost before = self.tally();
        let ghost q = self.query();
        assert(self.files * usize::MAX + usize::MAX == (self.files + 1) * usize::MAX)
            by (nonlinear_arith);
        assert((self.files + 1) * usize::MAX <= u64::MAX * u64::MAX) by (nonlinear_arith)
            requires
                self.files + 1 <= u64::MAX,
                usize::MAX <= u64::MAX,
        ;
        self.files = self.files + 1;
        if is_binary(&bytes) {
            self.skipped_binary = self.skipped_binary + 1;
            return ;
        }
        match decode(bytes) {
            None => {
                self.skipped_binary = self.skipped_binary + 1;
            },
            Some(text) => {
                proof {
                    vstd::utf8::encode_utf8_decode_utf8(text@);
                }
                let ls = split_lines(&text);
                assert(strs(ls@).len() == ls@.len());
                if !matches_any(&self.re, &ls) {
                    return ;
                }
                self.files_matched = self.files_matched + 1;
                if self.req.files_only {
                    if self.shown < self.limit {
                        self.out.push_str(rel);
                        self.out.push_str("\n");
                        self.shown = self.shown + 1;
                    }
                    self.total = self.total + 1;
                } else {
                    let context: usize = match self.req.context {
                        Some(n) => n,
                        None => 0,
                    };
                    let mut out = String::new();
                    std::mem::swap(&mut out, &mut self.out);
                    let p = scan_lines(&self.re, context, self.limit, rel, &ls, out, self.shown);
                    self.out = p.out;
                    self.shown = p.shown;
                    self.total = self.total + p.total as u128;
                }
            },
        }
    }

    /// The report of the search, given whether a `.gitignore` hid something.
    pub fn finish(&self, hid_ignored: bool) -> (r: String)
        ensures
            r@ == grep_report(
                self.req.pattern@,
                opt(self.req.glob),
                opt(self.req.path),
                self.req.files_only,
                self.tally(),
                hid_ignored,
            ),
    {
        let mut msg;
        if self.total == 0 {
            msg = "no matches for ".to_owned();
            msg.push_str(&quote(&self.req.pattern));
            match &self.req.glob {
                Some(g) => {
                    msg.push_str(" in files matching ");
                    msg.push_str(&quote(g));
                },
                None => {},
            }
            match &self.req.path {
                Some(p) => {
                    msg.push_str(" under ");
                    msg.push_str(p);
                },
                None => {},
            }
            msg.push_str("\n");
            if self.skipped_binary > 0 {
                msg.push_str("(");
                msg.push_str(&decimal(self.skipped_binary as u128));
                msg.push_str(" binary file(s) skipped)\n");
            }
        } else {
            msg = self.out.clone();
            msg.push_str("\n");
            let most: u128;
            if self.req.files_only {
                msg.push_str(&decimal(self.files_matched as u128));
                msg.push_str(" file");
                msg.push_str(plural_of(self.files_matched));
                msg.push_str(" with matches");
                most = self.files_matched as u128;
            } else {
                msg.push_str(&decimal(self.total));
                msg.push_str(if self.total == 1 { " match" } else { " matches" });
                msg.push_str(" in ");
                msg.push_str(&decimal(self.files_matched as u128));
                msg.push_str(" file");
                msg.push_str(plural_of(self.files_matched));
                most = self.total;
            }
            if (self.shown as u128) < most {
                msg.push_str("; showing the first ");
                msg.push_str(&decimal_size(self.shown));
                msg.push_str(
                    ". Narrow the pattern, pass `glob`/`path`, or raise `max_results` to see the rest",
                );
            }
            if self.skipped_binary > 0 {
                msg.push_str(" (");
                msg.push_str(&decimal(self.skipped_binary as u128));
                msg.push_str(" binary file(s) skipped)");
            }
            msg.push_str("\n");
        }
        if hid_ignored {
            msg.push_str(ignored_note());
        }
        msg
    }
}

// ---------------------------------------------------------------------------
// Laws
// ---------------------------------------------------------------------------

/// Every match is counted, whatever the cap on what is shown, and no more is shown
/// than the cap allows.
pub proof fn totals_are_true(
    q: Query,
    rel: Seq<char>,
    ls: Seq<Seq<char>>,
    start: Scan,
    n: int,
)
    requires
        0 <= n <= ls.len(),
        start.shown <= q.limit,
    ensures
        scan(q, rel, ls, start, n).total == start.total + hits_in(q.texts, ls, n),
        scan(q, rel, ls, start, n).shown == if start.shown + hits_in(q.texts, ls, n) < q.limit {
            start.shown + hits_in(q.texts, ls, n)
        } else {
            q.limit
        },
    decreases n,
{
    if n > 0 {
        totals_are_true(q, rel, ls, start, n - 1);
    }
}

/// Lines of a file as a report shows them, the least first: each with the path, its
/// number, `:` where it matches and `-` where it does not, and what is reported of it.
/// With `gaps`, `--` stands wherever lines are left out between two of them.
pub open spec fn shown_lines(
    texts: Set<Seq<char>>,
    rel: Seq<char>,
    ls: Seq<Seq<char>>,
    js: Seq<int>,
    gaps: bool,
) -> Seq<char>
    decreases js.len(),
{
    if js.len() == 0 {
        seq![]
    } else {
        let j = js.last();
        shown_lines(texts, rel, ls, js.drop_last(), gaps) + (if gaps && js.len() > 1 && j > js[js.len()
            - 2] + 1 {
            "--\n"@
        } else {
            seq![]
        }) + (rel + ":"@ + dec((j + 1) as nat) + (if texts.contains(ls[j]) {
            ":"@
        } else {
            "-"@
        }) + clipped(ls[j]) + "\n"@)
    }
}

/// A line lies within `context` of a line that matches, among the first `m`, and that
/// still has room in a report that shows `shown` matches already.
pub open spec fn near_a_hit(
    q: Query,
    ls: Seq<Seq<char>>,
    shown: nat,
    m: int,
    j: int,
) -> bool {
    exists|i: int|
        0 <= i < m && q.texts.contains(#[trigger] ls[i]) && shown + hits_in(q.texts, ls, i)
            < q.limit && i - q.context <= j <= i + q.context
}

/// The places `a..b`.
spec fn span(a: int, b: int) -> Seq<int> {
    if a < b {
        Seq::new((b - a) as nat, |k: int| a + k)
    } else {
        seq![]
    }
}

/// Lines that follow each other, behind others.
proof fn lemma_shown_span(
    texts: Set<Seq<char>>,
    rel: Seq<char>,
    ls: Seq<Seq<char>>,
    js: Seq<int>,
    gaps: bool,
    a: int,
    b: int,
)
    requires
        a < b,
    ensures
        shown_lines(texts, rel, ls, js + span(a, b), gaps) == shown_lines(texts, rel, ls, js, gaps)
            + (if gaps && js.len() > 0 && a > js.last() + 1 {
            "--\n"@
        } else {
            seq![]
        }) + report_lines(texts, rel, ls, a, b),
    decreases b - a,
{
    let all = js + span(a, b);
    assert(all.last() == b - 1);
    let mark = if gaps && js.len() > 0 && a > js.last() + 1 {
        "--\n"@
    } else {
        seq![]
    };
    let line = report_line(texts, rel, ls, b - 1);
    if b == a + 1 {
        assert(all.drop_last() =~= js);
        if js.len() > 0 {
            assert(all[all.len() - 2] == js.last());
        }
        assert(report_lines(texts, rel, ls, a, a) =~= seq![]);
        assert(report_lines(texts, rel, ls, a, b) =~= line);
    } else {
        lemma_shown_span(texts, rel, ls, js, gaps, a, b - 1);
        assert(all.drop_last() =~= js + span(a, b - 1));
        assert(all[all.len() - 2] == b - 2);
        assert(shown_lines(texts, rel, ls, all, gaps) =~= shown_lines(
            texts,
            rel,
            ls,
            all.drop_last(),
            gaps,
        ) + line);
        assert(shown_lines(texts, rel, ls, js, gaps) + mark + report_lines(
            texts,
            rel,
            ls,
            a,
            b - 1,
        ) + line =~= shown_lines(texts, rel, ls, js, gaps) + mark + report_lines(
            texts,
            rel,
            ls,
            a,
            b,
        ));
    }
}

proof fn lemma_span_behind(js: Seq<int>, a: int, b: int, n: int)
    requires
        ascending(js, n),
        js.len() > 0 ==> js.last() < a,
        0 <= a,
        b <= n,
    ensures
        ascending(js + span(a, b), n),
        forall|j: int| #[trigger]
            (js + span(a, b)).contains(j) <==> js.contains(j) || a <= j < b,
{
    let all = js + span(a, b);
    assert forall|x: int, y: int| 0 <= x < y < all.len() implies #[trigger] all[x]
        < #[trigger] all[y] by {
        if x < js.len() && y >= js.len() {
            assert(js[x] <= js.last());
        }
    }
    assert forall|j: int| #[trigger] all.contains(j) <==> js.contains(j) || a <= j < b by {
        if js.contains(j) {
            assert(all[js.index_of(j)] == j);
        }
        if a <= j < b {
            assert(all[js.len() + (j - a)] == j);
        }
        if all.contains(j) {
            let k = all.index_of(j);
            if k < js.len() {
                assert(js[k] == j);
            }
        }
    }
}

/// What the first `m` lines of a file add to the report: the lines near their matches.
#[verifier::spinoff_prover]
#[verifier::rlimit(80)]
proof fn lemma_scan_shows(
    q: Query,
    rel: Seq<char>,
    ls: Seq<Seq<char>>,
    start: Scan,
    m: int,
) -> (js: Seq<int>)
    requires
        0 <= m <= ls.len(),
        start.shown <= q.limit,
        start.last is None,
    ensures
        ascending(js, ls.len() as int),
        forall|j: int|
            0 <= j < ls.len() ==> (#[trigger] js.contains(j) <==> near_a_hit(
                q,
                ls,
                start.shown,
                m,
                j,
            )),
        scan(q, rel, ls, start, m).out == start.out + shown_lines(
            q.texts,
            rel,
            ls,
            js,
            q.context > 0,
        ),
        q.context > 0 ==> scan(q, rel, ls, start, m).last == (if js.len() == 0 {
            None
        } else {
            Some(js.last())
        }),
        js.len() > 0 ==> exists|i: int|
            0 <= i < m && q.texts.contains(#[trigger] ls[i]) && start.shown + hits_in(
                q.texts,
                ls,
                i,
            ) < q.limit && js.last() == window_end(ls.len() as int, i, q.context),
    decreases m,
{
    let n = ls.len() as int;
    if m == 0 {
        let js: Seq<int> = seq![];
        assert(start.out + shown_lines(q.texts, rel, ls, js, q.context > 0) =~= start.out);
        assert forall|j: int| 0 <= j < n implies (#[trigger] js.contains(j) <==> near_a_hit(
            q,
            ls,
            start.shown,
            0,
            j,
        )) by {}
        js
    } else {
        let before = lemma_scan_shows(q, rel, ls, start, m - 1);
        let s = scan(q, rel, ls, start, m - 1);
        let i = m - 1;
        totals_are_true(q, rel, ls, start, m - 1);
        if !q.texts.contains(ls[i]) || s.shown >= q.limit {
            assert forall|j: int| 0 <= j < n implies (#[trigger] before.contains(j) <==> near_a_hit(
                q,
                ls,
                start.shown,
                m,
                j,
            )) by {
                lemma_near_step(q, ls, start.shown, m, j);
            }
            before
        } else {
            let lo = if i < q.context {
                0
            } else {
                i - q.context
            };
            let hi = window_end(n, i, q.context);
            let from = if before.len() > 0 && before.last() >= lo {
                before.last() + 1
            } else {
                lo
            };
            let js = before + span(from, hi + 1);
            lemma_span_behind(before, from, hi + 1, n);
            if before.len() > 0 {
                let p = choose|p: int|
                    0 <= p < m - 1 && q.texts.contains(#[trigger] ls[p]) && start.shown + hits_in(
                        q.texts,
                        ls,
                        p,
                    ) < q.limit && before.last() == window_end(n, p, q.context);
                assert forall|j: int| lo <= j < from implies before.contains(j) by {
                    assert(q.texts.contains(ls[p]));
                    assert(near_a_hit(q, ls, start.shown, m - 1, j));
                }
                assert(before.last() <= hi);
            }
            assert forall|j: int| 0 <= j < n implies (#[trigger] js.contains(j) <==> near_a_hit(
                q,
                ls,
                start.shown,
                m,
                j,
            )) by {
                lemma_near_step(q, ls, start.shown, m, j);
                assert(before.contains(j) <==> near_a_hit(q, ls, start.shown, m - 1, j));
            }
            if from <= hi {
                lemma_shown_span(q.texts, rel, ls, before, q.context > 0, from, hi + 1);
                assert(js.last() == hi);
            } else {
                assert(js =~= before);
                assert(report_lines(q.texts, rel, ls, from, hi + 1) =~= seq![]);
            }
            let old_out = start.out + shown_lines(q.texts, rel, ls, before, q.context > 0);
            if q.context == 0 {
                if before.len() > 0 {
                    let p = choose|p: int|
                        0 <= p < m - 1 && q.texts.contains(#[trigger] ls[p]) && start.shown
                            + hits_in(q.texts, ls, p) < q.limit && before.last() == window_end(
                            n,
                            p,
                            q.context,
                        );
                    assert(before.last() == p);
                }
                assert(report_lines(q.texts, rel, ls, i, i) =~= seq![]);
                assert(report_lines(q.texts, rel, ls, i, i + 1) =~= report_line(
                    q.texts,
                    rel,
                    ls,
                    i,
                ));
                assert(from == i && hi == i);
            }
            assert(scan(q, rel, ls, start, m).out =~= start.out + shown_lines(
                q.texts,
                rel,
                ls,
                js,
                q.context > 0,
            ));
            assert(q.texts.contains(ls[i]));
            js
        }
    }
}

proof fn lemma_near_step(q: Query, ls: Seq<Seq<char>>, shown: nat, m: int, j: int)
    requires
        0 < m,
    ensures
        near_a_hit(q, ls, shown, m, j) <==> near_a_hit(q, ls, shown, m - 1, j) || (q.texts.contains(
            ls[m - 1],
        ) && shown + hits_in(q.texts, ls, m - 1) < q.limit && m - 1 - q.context <= j <= m - 1
            + q.context),
{
    if near_a_hit(q, ls, shown, m - 1, j) {
        let i = choose|i: int|
            0 <= i < m - 1 && q.texts.contains(#[trigger] ls[i]) && shown + hits_in(q.texts, ls, i)
                < q.limit && i - q.context <= j <= i + q.context;
        assert(q.texts.contains(ls[i]));
    }
}

/// What a search reports of a text file that has a match: the lines within the context of
/// a match, each of them once, in their order, and no others. Every match counts of those
/// that the cap leaves room for; with no context, that is the matching lines alone.
pub proof fn reports_show_what_is_near(q: Query, rel: Seq<char>, bytes: Seq<u8>, t: Tally) -> (js:
    Seq<int>)
    requires
        valid_utf8(bytes),
        !looks_binary(bytes),
        t.shown <= q.limit,
    ensures
        ({
            let ls = lines(decode_utf8(bytes));
            &&& ascending(js, ls.len() as int)
            &&& forall|j: int|
                0 <= j < ls.len() ==> (#[trigger] js.contains(j) <==> exists|i: int|
                    0 <= i < ls.len() && q.texts.contains(#[trigger] ls[i]) && t.shown + hits_in(
                        q.texts,
                        ls,
                        i,
                    ) < q.limit && i - q.context <= j <= i + q.context)
            &&& after_file(q, false, rel, bytes, t).out == t.out + shown_lines(
                q.texts,
                rel,
                ls,
                js,
                q.context > 0,
            )
        }),
{
    let ls = lines(decode_utf8(bytes));
    let n = ls.len() as int;
    let start = Scan { out: t.out, shown: t.shown, total: 0, last: None };
    let js = lemma_scan_shows(q, rel, ls, start, n);
    assert forall|j: int| 0 <= j < n implies (#[trigger] js.contains(j) <==> exists|i: int|
        0 <= i < n && q.texts.contains(#[trigger] ls[i]) && t.shown + hits_in(q.texts, ls, i)
            < q.limit && i - q.context <= j <= i + q.context) by {
        assert(js.contains(j) <==> near_a_hit(q, ls, t.shown, n, j));
    }
    if !any_hit(q.texts, ls) {
        assert(js.len() == 0) by {
            if js.len() > 0 {
                let j = js[0];
                assert(js.contains(j));
                assert(near_a_hit(q, ls, t.shown, n, j));
            }
        }
        assert(t.out + shown_lines(q.texts, rel, ls, js, q.context > 0) =~= t.out);
    }
    js
}

/// What a file adds to the counts: one file skipped where it is not text; else, where
/// lines of it match, one file, and as many matches as there are such lines, whether they
/// are shown or not. A file in which nothing matches leaves everything as it was.
pub proof fn files_are_counted(q: Query, files_only: bool, rel: Seq<char>, bytes: Seq<u8>, t: Tally)
    requires
        t.shown <= q.limit,
    ensures
        ({
            let after = after_file(q, files_only, rel, bytes, t);
            let text = valid_utf8(bytes) && !looks_binary(bytes);
            let ls = lines(decode_utf8(bytes));
            let hit = exists|i: int| 0 <= i < ls.len() && q.texts.contains(#[trigger] ls[i]);
            &&& !text ==> after == (Tally { skipped_binary: t.skipped_binary + 1, ..t })
            &&& text && !hit ==> after == t
            &&& text && hit ==> after.skipped_binary == t.skipped_binary && after.files_matched
                == t.files_matched + 1
            &&& text && hit && files_only ==> after.total == t.total + 1
            &&& text && hit && files_only && t.shown < q.limit ==> after.out == t.out + rel + "\n"@
                && after.shown == t.shown + 1
            &&& text && hit && files_only && t.shown >= q.limit ==> after.out == t.out
                && after.shown == t.shown
            &&& text && !files_only ==> after.total == t.total + hits_in(
                q.texts,
                ls,
                ls.len() as int,
            )
        }),
{
    let ls = lines(decode_utf8(bytes));
    let n = ls.len() as int;
    totals_are_true(q, rel, ls, Scan { out: t.out, shown: t.shown, total: 0, last: None }, n);
    lemma_hits(q.texts, ls, n);
}

/// Lines are counted where there are some that match.
proof fn lemma_hits(texts: Set<Seq<char>>, ls: Seq<Seq<char>>, n: int)
    requires
        0 <= n <= ls.len(),
    ensures
        hits_in(texts, ls, n) <= n,
        hits_in(texts, ls, n) == 0 <==> forall|i: int|
            0 <= i < n ==> !texts.contains(#[trigger] ls[i]),
    decreases n,
{
    if n > 0 {
        lemma_hits(texts, ls, n - 1);
        assert(ls[n - 1] == ls[n - 1]);
    }
}

/// The directories on the way to a path are the root and what stands in front of each of
/// its slashes, one below the other.
pub proof fn directories_end_at_slashes(path: Seq<char>, n: int) -> (js: Seq<int>)
    requires
        0 <= n <= path.len(),
    ensures
        ascending(js, n),
        forall|i: int| 0 <= i < n ==> (#[trigger] js.contains(i) <==> path[i] == '/'),
        dirs_to(path, n) == seq![Seq::<char>::empty()] + Seq::new(
            js.len(),
            |k: int| path.take(js[k]),
        ),
    decreases n,
{
    if n == 0 {
        let js: Seq<int> = seq![];
        assert(dirs_to(path, n) =~= seq![Seq::<char>::empty()] + Seq::new(
            js.len(),
            |k: int| path.take(js[k]),
        ));
        js
    } else {
        let before = directories_end_at_slashes(path, n - 1);
        lemma_one_more(before, n - 1);
        if path[n - 1] == '/' {
            let js = before.push(n - 1);
            assert(dirs_to(path, n) =~= seq![Seq::<char>::empty()] + Seq::new(
                js.len(),
                |k: int| path.take(js[k]),
            ));
            js
        } else {
            before
        }
    }
}

/// Build output, dependencies and the files of version control are never searched.
pub proof fn generated_trees_are_skipped()
    ensures
        skipped_names().contains(".git"@) && skipped_names().contains(".hg"@)
            && skipped_names().contains(".svn"@) && skipped_names().contains("target"@)
            && skipped_names().contains("node_modules"@) && skipped_names().contains(".venv"@)
            && skipped_names().contains("venv"@) && skipped_names().contains("__pycache__"@)
            && skipped_names().contains(".mypy_cache"@) && skipped_names().contains(
            ".pytest_cache"@,
        ) && skipped_names().contains(".ruff_cache"@) && skipped_names().contains("dist"@)
            && skipped_names().contains("build"@) && skipped_names().contains(".next"@)
            && skipped_names().contains(".turbo"@) && skipped_names().contains(".cargo"@)
            && skipped_names().contains(".rustup"@) && skipped_names().contains(".cowboy"@),
        skipped_names().len() == 18,
{
    let s = skipped_names();
    assert(s[0] == ".git"@ && s[1] == ".hg"@ && s[2] == ".svn"@ && s[3] == "target"@ && s[4]
        == "node_modules"@ && s[5] == ".venv"@ && s[6] == "venv"@ && s[7] == "__pycache__"@ && s[8]
        == ".mypy_cache"@ && s[9] == ".pytest_cache"@ && s[10] == ".ruff_cache"@ && s[11]
        == "dist"@ && s[12] == "build"@ && s[13] == ".next"@ && s[14] == ".turbo"@ && s[15]
        == ".cargo"@ && s[16] == ".rustup"@ && s[17] == ".cowboy"@);
}

/// A reported line is the line without the white space behind it, cut only where it is
/// longer than is reported in full: then it begins as the line does, with as much of it as
/// fits, and says that it is cut.
pub proof fn long_lines_are_cut(line: Seq<char>) -> (n: int)
    ensures
        0 <= n <= line.len(),
        forall|i: int|
            trim_end(line).len() <= i < line.len() ==> is_ws(#[trigger] line[i]),
        byte_len(trim_end(line)) <= MAX_LINE_BYTES ==> clipped(line) == line.take(n) && n
            == trim_end(line).len(),
        byte_len(trim_end(line)) > MAX_LINE_BYTES ==> {
            &&& clipped(line) == line.take(n) + "… [line clipped]"@
            &&& byte_len(line.take(n)) <= MAX_LINE_BYTES
            &&& n < line.len() && byte_len(line.take(n + 1)) > MAX_LINE_BYTES
        },
{
    trimming_the_end_takes_white_space(line);
    let t = trim_end(line);
    if byte_len(t) <= MAX_LINE_BYTES {
        t.len() as int
    } else {
        let n = fitting(t, MAX_LINE_BYTES as int);
        as_much_fits_as_can(t, MAX_LINE_BYTES as int);
        assert(t.take(n) =~= line.take(n));
        if n < t.len() {
            assert(t.take(n + 1) =~= line.take(n + 1));
        } else {
            assert(t.take(n) =~= t);
        }
        n
    }
}

/// At least one result is reported and at most the ceiling; in between, as many as asked
/// for.
pub proof fn caps_are_within_bounds(asked: Option<usize>, default: usize, max: usize)
    requires
        1 <= default <= max,
    ensures
        1 <= result_cap(asked, default, max) <= max,
        asked is None ==> result_cap(asked, default, max) == default,
        asked matches Some(n) ==> 1 <= n <= max ==> result_cap(asked, default, max) == n,
        asked matches Some(n) ==> n > max ==> result_cap(asked, default, max) == max,
{
}

} // verus!
