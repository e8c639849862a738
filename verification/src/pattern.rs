//! Patterns on paths and lines: regular expressions, shell globs and the rules of
//! a `.gitignore`.

use crate::search::{at, contains, ends_with, has, has_prefix, lemma_find, starts_with,
    strip_prefix, strip_suffix};
use crate::text::{blank, chars_of, is_ws, lines, split_lines, strs, trim_end, trimmed_end};
use crate::words::{quote, quoted};
use vstd::prelude::*;

verus! {

broadcast use vstd::string::group_string_axioms;

/// A compiled regular expression of the `regex` crate.
#[verifier::external_type_specification]
#[verifier::external_body]
pub struct ExRegex(regex::Regex);

/// The texts in which a compiled expression finds a match.
pub uninterp spec fn texts_matched(re: regex::Regex) -> Set<Seq<char>>;

/// The texts in which the expression `pattern` finds a match, with or without
/// regard to case; `None` where it is no expression.
pub uninterp spec fn pattern_texts(pattern: Seq<char>, ignore_case: bool) -> Option<
    Set<Seq<char>>,
>;

/// What the `regex` crate says about a pattern that is no expression.
pub uninterp spec fn pattern_fault(pattern: Seq<char>, ignore_case: bool) -> Seq<char>;

/// `regex::RegexBuilder::new(pattern).case_insensitive(ignore_case).build()`: whether
/// it succeeds, what the expression matches, and the text of the error are functions
/// of the two arguments. Which texts a pattern matches is left unsaid.
#[verifier::external_body]
fn compile(pattern: &str, ignore_case: bool) -> (r: Result<regex::Regex, String>)
    ensures
        match r {
            Ok(re) => pattern_texts(pattern@, ignore_case) == Some(texts_matched(re)),
            Err(e) => pattern_texts(pattern@, ignore_case) is None && e@ == pattern_fault(
                pattern@,
                ignore_case,
            ),
        },
{
    regex::RegexBuilder::new(pattern).case_insensitive(ignore_case).build().map_err(
        |e| e.to_string(),
    )
}

/// `regex::Regex::is_match`: whether there is a match anywhere in `text`.
#[verifier::external_body]
pub(crate) fn is_match(re: &regex::Regex, text: &str) -> (r: bool)
    ensures
        r == texts_matched(*re).contains(text@),
{
    re.is_match(text)
}

/// A character that has a meaning in expressions.
pub open spec fn is_meta(c: char) -> bool {
    ||| c == '\\' || c == '.' || c == '+' || c == '*' || c == '?'
    ||| c == '(' || c == ')' || c == '[' || c == ']' || c == '{' || c == '}'
    ||| c == '|' || c == '^' || c == '$' || c == '#' || c == '&' || c == '-' || c == '~'
}

/// `text` with a backslash before every character that has a meaning in expressions.
pub open spec fn escaped(text: Seq<char>) -> Seq<char>
    decreases text.len(),
{
    if text.len() == 0 {
        seq![]
    } else if is_meta(text.last()) {
        escaped(text.drop_last()).push('\\').push(text.last())
    } else {
        escaped(text.drop_last()).push(text.last())
    }
}

/// The texts that hold a text.
pub open spec fn holding(text: Seq<char>) -> Set<Seq<char>> {
    Set::new(|t: Seq<char>| contains(t, text))
}

/// `regex::escape`: the text with a backslash before every character that has a meaning
/// in expressions, which is a pattern for that text, literally. Where the pattern is an expression (it can be too long for one), it finds a match in the
/// texts that hold that text; what it finds without regard to case is left unsaid.
#[verifier::external_body]
fn escape(text: &str) -> (r: String)
    ensures
        r@ == escaped(text@),
        pattern_texts(r@, false) is Some ==> pattern_texts(r@, false) == Some(holding(text@)),
{
    regex::escape(text)
}

// ---------------------------------------------------------------------------
// The pattern of a search
// ---------------------------------------------------------------------------

/// The expression that a search is for.
pub open spec fn search_body(pattern: Seq<char>, literal: bool) -> Seq<char> {
    if literal {
        escaped(pattern)
    } else {
        pattern
    }
}

/// The expression that a search is for.
pub fn search_pattern(pattern: &str, literal: bool) -> (r: String)
    ensures
        r@ == search_body(pattern@, literal),
        literal && pattern_texts(r@, false) is Some ==> pattern_texts(r@, false) == Some(
            holding(pattern@),
        ),
{
    if literal {
        escape(pattern)
    } else {
        pattern.to_owned()
    }
}

/// Compiles `pattern`, with a message that can be acted on where it is no valid
/// expression.
pub fn build_regex(pattern: &str, literal: bool, case_insensitive: bool) -> (r: Result<
    regex::Regex,
    String,
>)
    ensures
        match r {
            Ok(re) => pattern_texts(search_body(pattern@, literal), case_insensitive) == Some(
                texts_matched(re),
            ),
            Err(e) => {
                &&& pattern_texts(search_body(pattern@, literal), case_insensitive) is None
                &&& e@ == "invalid regex "@ + quoted(pattern@) + ": "@ + pattern_fault(
                    search_body(pattern@, literal),
                    case_insensitive,
                ) + ". Set literal=true to search for it as plain text."@
            },
        },
        r is Ok && literal && !case_insensitive ==> texts_matched(r->Ok_0) == holding(pattern@),
{
    let body = search_pattern(pattern, literal);
    match compile(&body, case_insensitive) {
        Ok(re) => Ok(re),
        Err(fault) => {
            let mut msg = "invalid regex ".to_owned();
            msg.push_str(&quote(pattern));
            msg.push_str(": ");
            msg.push_str(&fault);
            msg.push_str(". Set literal=true to search for it as plain text.");
            Err(msg)
        },
    }
}

// ---------------------------------------------------------------------------
// Globs
// ---------------------------------------------------------------------------

/// The part of a glob from index `i` on, as an expression: `**/` spans directories,
/// including none, `**` anything, `*` and `?` stop at a slash, and any other
/// character stands for itself.
pub open spec fn glob_body(glob: Seq<char>, i: int) -> Seq<char>
    decreases glob.len() - i,
{
    if i < 0 || i >= glob.len() {
        seq![]
    } else if glob[i] == '*' && i + 1 < glob.len() && glob[i + 1] == '*' {
        if i + 2 < glob.len() && glob[i + 2] == '/' {
            "(?:.*/)?"@ + glob_body(glob, i + 3)
        } else {
            ".*"@ + glob_body(glob, i + 2)
        }
    } else if glob[i] == '*' {
        "[^/]*"@ + glob_body(glob, i + 1)
    } else if glob[i] == '?' {
        "[^/]"@ + glob_body(glob, i + 1)
    } else {
        escaped(seq![glob[i]]) + glob_body(glob, i + 1)
    }
}

/// Writes the expression of a glob behind `start`.
fn push_glob(start: String, glob: &str) -> (r: String)
    ensures
        r@ == start@ + glob_body(glob@, 0),
{
    let cs = chars_of(glob);
    let mut out = start;
    let ghost s0 = out@;
    let mut i: usize = 0;
    while i < cs.len()
        invariant
            i <= cs@.len(),
            cs@ == glob@,
            out@ + glob_body(cs@, i as int) == s0 + glob_body(cs@, 0),
        decreases cs.len() - i,
    {
        let ghost before = out@;
        let ghost from = i as int;
        let c = cs[i];
        if c == '*' && i + 1 < cs.len() && cs[i + 1] == '*' {
            if i + 2 < cs.len() && cs[i + 2] == '/' {
                out.push_str("(?:.*/)?");
                i = i + 3;
            } else {
                out.push_str(".*");
                i = i + 2;
            }
        } else if c == '*' {
            out.push_str("[^/]*");
            i = i + 1;
        } else if c == '?' {
            out.push_str("[^/]");
            i = i + 1;
        } else {
            let mut one = String::new();
            one.push(c);
            assert(one@ =~= seq![c]);
            out.push_str(&escape(&one));
            i = i + 1;
        }
        proof {
            let tail = glob_body(cs@, i as int);
            let piece = out@.skip(before.len() as int);
            assert(out@ =~= before + piece);
            assert(before + piece + tail =~= before + (piece + tail));
        }
    }
    assert(out@ + seq![] =~= out@);
    out
}

/// The whole-string expression of a shell-style glob.
pub open spec fn glob_pattern(glob: Seq<char>) -> Seq<char> {
    (seq!['^'] + glob_body(glob, 0)).push('$')
}

/// The texts that a glob matches; `None` where its expression is refused.
pub open spec fn glob_texts(glob: Seq<char>) -> Option<Set<Seq<char>>> {
    pattern_texts(glob_pattern(glob), false)
}

/// The whole-string expression of a shell-style glob.
pub fn glob_expression(glob: &str) -> (r: String)
    ensures
        r@ == glob_pattern(glob@),
{
    let mut start = String::new();
    start.push('^');
    assert(start@ =~= seq!['^']);
    let mut out = push_glob(start, glob);
    out.push('$');
    out
}

/// Translates a shell-style glob and compiles it.
pub fn compile_glob(glob: &str) -> (r: Result<regex::Regex, String>)
    ensures
        match r {
            Ok(re) => glob_texts(glob@) == Some(texts_matched(re)),
            Err(e) => glob_texts(glob@) is None && e@ == "invalid `glob`: "@ + pattern_fault(
                glob_pattern(glob@),
                false,
            ),
        },
{
    match compile(&glob_expression(glob), false) {
        Ok(re) => Ok(re),
        Err(fault) => {
            let mut msg = "invalid `glob`: ".to_owned();
            msg.push_str(&fault);
            Err(msg)
        },
    }
}

// ---------------------------------------------------------------------------
// .gitignore
// ---------------------------------------------------------------------------

/// One line of a `.gitignore`, compiled. Paths are relative to the directory that
/// the file sits in.
#[derive(Debug)]
pub struct IgnoreRule {
    /// What the rule matches of directories.
    re_dir: regex::Regex,
    /// What it matches of other paths, where that differs.
    re_file: Option<regex::Regex>,
    /// Whether the rule takes a path back in.
    negated: bool,
}

/// An [`IgnoreRule`] by the paths it matches.
pub struct Rule {
    pub dirs: Set<Seq<char>>,
    pub files: Set<Seq<char>>,
    pub negated: bool,
}

impl View for IgnoreRule {
    type V = Rule;

    closed spec fn view(&self) -> Rule {
        Rule {
            dirs: texts_matched(self.re_dir),
            files: match self.re_file {
                Some(re) => texts_matched(re),
                None => texts_matched(self.re_dir),
            },
            negated: self.negated,
        }
    }
}

/// The parts of one line of a `.gitignore`.
pub struct RuleParts {
    pub negated: bool,
    pub dir_only: bool,
    pub anchored: bool,
    pub glob: Seq<char>,
}

/// A line of a `.gitignore` in its parts: `!` in front negates, `/` behind asks for a
/// directory, `/` in front or inside anchors. A blank line, a comment and a line with
/// nothing left are no rule.
pub open spec fn rule_parts(line: Seq<char>) -> Option<RuleParts> {
    let line = trim_end(line);
    let negated = starts_with(line, "!"@);
    let body = if negated {
        line.skip(1)
    } else {
        line
    };
    let dir_only = ends_with(body, "/"@);
    let body = if dir_only {
        body.drop_last()
    } else {
        body
    };
    if line.len() == 0 || starts_with(line, "#"@) || body.len() == 0 {
        None
    } else {
        Some(
            RuleParts {
                negated,
                dir_only,
                anchored: starts_with(body, "/"@) || inner_slash(body),
                glob: if starts_with(body, "/"@) {
                    body.skip(1)
                } else {
                    body
                },
            },
        )
    }
}

/// A slash stands in `s` somewhere before its trailing slashes.
pub open spec fn inner_slash(s: Seq<char>) -> bool {
    exists|i: int, k: int| 0 <= i < k < s.len() && #[trigger] s[i] == '/' && #[trigger] s[k] != '/'
}

/// The expression that a rule's path begins with.
pub open spec fn rule_stem(p: RuleParts) -> Seq<char> {
    (if p.anchored {
        seq!['^']
    } else {
        seq!['^'] + "(?:.*/)?"@
    }) + glob_body(p.glob, 0)
}

/// What a line of a `.gitignore` matches: the named path and everything beneath it,
/// and of a directory-only rule no other path of that name.
pub open spec fn ignore_rule(line: Seq<char>) -> Option<Rule> {
    match rule_parts(line) {
        None => None,
        Some(p) => {
            let dirs = pattern_texts(rule_stem(p) + "(?:/.*)?$"@, false);
            let files = if p.dir_only {
                pattern_texts(rule_stem(p) + "/.*$"@, false)
            } else {
                dirs
            };
            if dirs is Some && files is Some {
                Some(Rule { dirs: dirs->0, files: files->0, negated: p.negated })
            } else {
                None
            }
        },
    }
}

fn has_inner_slash(s: &str) -> (r: bool)
    ensures
        r == inner_slash(s@),
{
    let cs = chars_of(s);
    let mut end: usize = cs.len();
    while end > 0 && cs[end - 1] == '/'
        invariant
            end <= cs@.len(),
            forall|k: int| end <= k < cs@.len() ==> #[trigger] cs@[k] == '/',
        decreases end,
    {
        end = end - 1;
    }
    let mut i: usize = 0;
    while i < end
        invariant
            i <= end <= cs@.len(),
            cs@ == s@,
            end > 0 ==> cs@[end - 1] != '/',
            forall|k: int| end <= k < cs@.len() ==> #[trigger] cs@[k] == '/',
            forall|k: int| 0 <= k < i ==> #[trigger] cs@[k] != '/',
        decreases end - i,
    {
        if cs[i] == '/' {
            assert(s@[i as int] == '/' && s@[end - 1] != '/');
            return true;
        }
        i = i + 1;
    }
    false
}

/// Compiles one line of a `.gitignore`, or gives `None` where it is no rule.
pub fn compile_ignore_line(line: &str) -> (r: Option<IgnoreRule>)
    ensures
        match r {
            Some(rule) => ignore_rule(line@) == Some(rule@),
            None => ignore_rule(line@) is None,
        },
{
    proof {
        reveal_strlit("!");
        reveal_strlit("/");
    }
    let line = trimmed_end(line);
    if line.as_str().is_empty() || has_prefix(&line, "#") {
        return None;
    }
    let (negated, body) = match strip_prefix(&line, "!") {
        Some(rest) => (true, rest),
        None => (false, line),
    };
    let (dir_only, body) = match strip_suffix(&body, "/") {
        Some(rest) => {
            assert(rest@ =~= body@.drop_last());
            (true, rest)
        },
        None => (false, body),
    };
    if body.as_str().is_empty() {
        return None;
    }
    let rooted = strip_prefix(&body, "/");
    let anchored = rooted.is_some() || has_inner_slash(&body);
    let glob = match rooted {
        Some(rest) => rest,
        None => body,
    };
    let mut start = String::new();
    start.push('^');
    assert(start@ =~= seq!['^']);
    if !anchored {
        start.push_str("(?:.*/)?");
    }
    let stem = push_glob(start, &glob);
    let mut dir_pattern = stem.clone();
    dir_pattern.push_str("(?:/.*)?$");
    let re_dir = match compile(&dir_pattern, false) {
        Ok(re) => re,
        Err(_) => {
            return None;
        },
    };
    let re_file = if dir_only {
        let mut file_pattern = stem;
        file_pattern.push_str("/.*$");
        match compile(&file_pattern, false) {
            Ok(re) => Some(re),
            Err(_) => {
                return None;
            },
        }
    } else {
        None
    };
    Some(IgnoreRule { re_dir, re_file, negated })
}

/// What compiled rules match.
pub open spec fn rules_view(rules: Seq<IgnoreRule>) -> Seq<Rule> {
    Seq::new(rules.len(), |i: int| rules[i]@)
}

/// The rules of the first `n` lines, in order.
pub open spec fn rules_of(ls: Seq<Seq<char>>, n: int) -> Seq<Rule>
    decreases n,
{
    if n <= 0 {
        seq![]
    } else {
        match ignore_rule(ls[n - 1]) {
            Some(rule) => rules_of(ls, n - 1).push(rule),
            None => rules_of(ls, n - 1),
        }
    }
}

/// The rules of a `.gitignore`, in order.
pub fn compile_ignore(text: &str) -> (r: Vec<IgnoreRule>)
    ensures
        rules_view(r@) == rules_of(lines(text@), lines(text@).len() as int),
{
    let ls = split_lines(text);
    let ghost gs = strs(ls@);
    let mut out: Vec<IgnoreRule> = Vec::new();
    let mut i: usize = 0;
    assert(rules_view(out@) =~= seq![]);
    while i < ls.len()
        invariant
            i <= ls@.len(),
            gs == strs(ls@),
            rules_view(out@) == rules_of(gs, i as int),
        decreases ls.len() - i,
    {
        assert(gs[i as int] == ls@[i as int]@);
        match compile_ignore_line(&ls[i]) {
            Some(rule) => {
                let ghost before = rules_view(out@);
                out.push(rule);
                assert(rules_view(out@) =~= before.push(rule@));
            },
            None => {},
        }
        i = i + 1;
    }
    assert(gs.len() == ls@.len());
    out
}

// ---------------------------------------------------------------------------
// Which paths are ignored
// ---------------------------------------------------------------------------

/// A rule matches a path.
pub open spec fn rule_matches(rule: Rule, path: Seq<char>, is_dir: bool) -> bool {
    if is_dir {
        rule.dirs.contains(path)
    } else {
        rule.files.contains(path)
    }
}

/// Whether `path` is ignored once `rules` have been applied in order to `so_far`:
/// the last rule that matches decides.
pub open spec fn after_rules(
    rules: Seq<Rule>,
    path: Seq<char>,
    is_dir: bool,
    so_far: bool,
) -> bool
    decreases rules.len(),
{
    if rules.len() == 0 {
        so_far
    } else if rule_matches(rules.last(), path, is_dir) {
        !rules.last().negated
    } else {
        after_rules(rules.drop_last(), path, is_dir, so_far)
    }
}

/// `path` without its first `n` directories: what follows its `n`-th slash.
pub open spec fn below(path: Seq<char>, n: nat) -> Seq<char>
    decreases n,
{
    if n == 0 {
        path
    } else {
        match crate::search::find(path, "/"@, 0) {
            Some(i) => below(path.skip(i + 1), (n - 1) as nat),
            None => path,
        }
    }
}

/// Whether `path` is ignored by the rules of the first `n` directories on the way to
/// it, root first; each is asked about the path below that directory.
pub open spec fn after_levels(
    levels: Seq<Seq<Rule>>,
    path: Seq<char>,
    is_dir: bool,
    n: int,
) -> bool
    decreases n,
{
    if n <= 0 {
        false
    } else {
        after_rules(
            levels[n - 1],
            below(path, (n - 1) as nat),
            is_dir,
            after_levels(levels, path, is_dir, n - 1),
        )
    }
}

/// What the rules of several directories match.
pub open spec fn levels_view(levels: Seq<&Vec<IgnoreRule>>) -> Seq<Seq<Rule>> {
    Seq::new(levels.len(), |i: int| rules_view(levels[i]@))
}

fn apply_rules(rules: &Vec<IgnoreRule>, path: &str, is_dir: bool, so_far: bool) -> (r: bool)
    ensures
        r == after_rules(rules_view(rules@), path@, is_dir, so_far),
{
    let ghost rs = rules_view(rules@);
    let mut ignored = so_far;
    let mut i: usize = 0;
    assert(rs.take(0) =~= seq![]);
    while i < rules.len()
        invariant
            i <= rules@.len(),
            rs == rules_view(rules@),
            ignored == after_rules(rs.take(i as int), path@, is_dir, so_far),
        decreases rules.len() - i,
    {
        let hit = if is_dir {
            is_match(&rules[i].re_dir, path)
        } else {
            match &rules[i].re_file {
                Some(re) => is_match(re, path),
                None => is_match(&rules[i].re_dir, path),
            }
        };
        proof {
            let next = rs.take(i + 1);
            assert(next.drop_last() =~= rs.take(i as int));
            assert(next.last() == rules@[i as int]@);
        }
        if hit {
            ignored = !rules[i].negated;
        }
        i = i + 1;
    }
    assert(rs.take(rs.len() as int) =~= rs);
    ignored
}

/// Whether `path`, relative to the workspace, is ignored. `levels` holds the rules of
/// each directory on the way to it: those of the root, of its first directory, and
/// so on. The last match wins.
pub fn is_ignored(levels: &Vec<&Vec<IgnoreRule>>, path: &str, is_dir: bool) -> (r: bool)
    ensures
        r == after_levels(levels_view(levels@), path@, is_dir, levels@.len() as int),
{
    let ghost lv = levels_view(levels@);
    let mut ignored = false;
    let mut sub = path.to_owned();
    let mut i: usize = 0;
    proof {
        reveal_strlit("/");
    }
    while i < levels.len()
        invariant
            i <= levels@.len(),
            lv == levels_view(levels@),
            "/"@.len() == 1,
            sub@ == below(path@, i as nat),
            ignored == after_levels(lv, path@, is_dir, i as int),
        decreases levels.len() - i,
    {
        ignored = apply_rules(levels[i], &sub, is_dir, ignored);
        proof {
            lemma_below_step(path@, i as nat);
        }
        match crate::search::split_once(&sub, "/") {
            Some((_, rest)) => {
                sub = rest;
            },
            None => {},
        }
        i = i + 1;
    }
    ignored
}

/// Going one directory further down is cutting at the next slash.
proof fn lemma_below_step(path: Seq<char>, n: nat)
    ensures
        below(path, n + 1) == match crate::search::find(below(path, n), "/"@, 0) {
            Some(i) => below(path, n).skip(i + 1),
            None => below(path, n),
        },
    decreases n,
{
    reveal_with_fuel(below, 2);
    if n > 0 {
        match crate::search::find(path, "/"@, 0) {
            Some(i) => {
                lemma_below_step(path.skip(i + 1), (n - 1) as nat);
            },
            None => {
                lemma_below_none(path, n);
                lemma_below_none(path, n + 1);
            },
        }
    }
}

proof fn lemma_below_none(path: Seq<char>, n: nat)
    requires
        crate::search::find(path, "/"@, 0) is None,
    ensures
        below(path, n) == path,
{
    reveal_with_fuel(below, 1);
}

/// The last match wins: a rule behind all others decides for every path it matches,
/// and changes nothing for any other.
pub proof fn last_match_wins(
    rules: Seq<Rule>,
    last: Rule,
    path: Seq<char>,
    is_dir: bool,
    so_far: bool,
)
    ensures
        after_rules(rules.push(last), path, is_dir, so_far) == if rule_matches(
            last,
            path,
            is_dir,
        ) {
            !last.negated
        } else {
            after_rules(rules, path, is_dir, so_far)
        },
{
    assert(rules.push(last).drop_last() =~= rules);
}

/// Nothing in a text stands for anything else in a glob but `*` and `?`.
pub open spec fn plain_glob(s: Seq<char>) -> bool {
    forall|i: int| 0 <= i < s.len() ==> #[trigger] s[i] != '*' && s[i] != '?'
}

proof fn lemma_escaped_front(s: Seq<char>)
    requires
        s.len() > 0,
    ensures
        escaped(s) == escaped(seq![s[0]]) + escaped(s.drop_first()),
    decreases s.len(),
{
    if s.len() == 1 {
        assert(s =~= seq![s[0]]);
        assert(s.drop_first() =~= seq![]);
        assert(escaped(s) + Seq::<char>::empty() =~= escaped(s));
    } else {
        let d = s.drop_last();
        lemma_escaped_front(d);
        assert(d.drop_first() =~= s.drop_first().drop_last());
        assert(s.drop_first().last() == s.last());
        assert(escaped(s) =~= escaped(seq![s[0]]) + escaped(s.drop_first()));
    }
}

proof fn lemma_glob_shift(glob: Seq<char>, i: int)
    requires
        0 <= i <= glob.len(),
    ensures
        glob_body(glob, i) == glob_body(glob.skip(i), 0),
    decreases glob.len() - i,
{
    let rest = glob.skip(i);
    if i < glob.len() {
        assert(rest[0] == glob[i]);
        if i + 1 < glob.len() {
            assert(rest[1] == glob[i + 1]);
        }
        if i + 2 < glob.len() {
            assert(rest[2] == glob[i + 2]);
        }
        if glob[i] == '*' && i + 1 < glob.len() && glob[i + 1] == '*' {
            if i + 2 < glob.len() && glob[i + 2] == '/' {
                lemma_glob_shift(glob, i + 3);
                lemma_glob_shift(rest, 3);
                assert(rest.skip(3) =~= glob.skip(i + 3));
            } else {
                lemma_glob_shift(glob, i + 2);
                lemma_glob_shift(rest, 2);
                assert(rest.skip(2) =~= glob.skip(i + 2));
            }
        } else {
            lemma_glob_shift(glob, i + 1);
            lemma_glob_shift(rest, 1);
            assert(rest.skip(1) =~= glob.skip(i + 1));
        }
    }
}

/// What a plain text in front of a glob stands for: itself.
pub proof fn plain_text_stands_for_itself(a: Seq<char>, b: Seq<char>)
    requires
        plain_glob(a),
    ensures
        glob_body(a + b, 0) == escaped(a) + glob_body(b, 0),
    decreases a.len(),
{
    if a.len() == 0 {
        assert(a + b =~= b);
        assert(escaped(a) + glob_body(b, 0) =~= glob_body(b, 0));
    } else {
        let all = a + b;
        assert(all[0] == a[0]);
        assert(a[0] != '*' && a[0] != '?');
        lemma_glob_shift(all, 1);
        assert(all.skip(1) =~= a.drop_first() + b);
        assert forall|i: int| 0 <= i < a.drop_first().len() implies #[trigger] a.drop_first()[i]
            != '*' && a.drop_first()[i] != '?' by {
            assert(a.drop_first()[i] == a[i + 1]);
        }
        plain_text_stands_for_itself(a.drop_first(), b);
        lemma_escaped_front(a);
        assert(escaped(seq![a[0]]) + (escaped(a.drop_first()) + glob_body(b, 0)) =~= escaped(a)
            + glob_body(b, 0));
    }
}

/// What the marks of a glob stand for: `*` for anything within one name, `?` for one
/// character of a name, `**/` for any directories or none, and `**` for anything at all.
pub proof fn marks_stand_for_names(b: Seq<char>)
    ensures
        glob_body(seq!['?'] + b, 0) == "[^/]"@ + glob_body(b, 0),
        b.len() == 0 || b[0] != '*' ==> glob_body(seq!['*'] + b, 0) == "[^/]*"@ + glob_body(b, 0),
        glob_body(seq!['*', '*', '/'] + b, 0) == "(?:.*/)?"@ + glob_body(b, 0),
        b.len() == 0 || b[0] != '/' ==> glob_body(seq!['*', '*'] + b, 0) == ".*"@ + glob_body(b, 0),
{
    let q = seq!['?'] + b;
    lemma_glob_shift(q, 1);
    assert(q.skip(1) =~= b);
    let one = seq!['*'] + b;
    lemma_glob_shift(one, 1);
    assert(one.skip(1) =~= b);
    if b.len() > 0 {
        assert(one[1] == b[0]);
    }
    let dirs = seq!['*', '*', '/'] + b;
    lemma_glob_shift(dirs, 3);
    assert(dirs.skip(3) =~= b);
    let all = seq!['*', '*'] + b;
    lemma_glob_shift(all, 2);
    assert(all.skip(2) =~= b);
    if b.len() > 0 {
        assert(all[2] == b[0]);
    }
}

/// A line of a `.gitignore` is read by its marks: `!` in front takes back, a slash behind
/// means directories alone, a slash in front or inside fixes it to its directory, and
/// white space behind it does not count. What is left is the glob.
pub proof fn rules_are_read(
    negated: bool,
    fixed: bool,
    glob: Seq<char>,
    dir_only: bool,
    behind: Seq<char>,
)
    requires
        glob.len() > 0,
        glob[0] != '/' && glob[0] != '!' && glob[0] != '#',
        glob.last() != '/' && !is_ws(glob.last()),
        blank(behind),
    ensures
        rule_parts(
            (if negated { seq!['!'] } else { seq![] }) + (if fixed { seq!['/'] } else { seq![] })
                + glob + (if dir_only { seq!['/'] } else { seq![] }) + behind,
        ) == Some(
            RuleParts { negated, dir_only, anchored: fixed || glob.contains('/'), glob },
        ),
{
    reveal_strlit("!");
    reveal_strlit("/");
    reveal_strlit("#");
    let front = if negated { seq!['!'] } else { Seq::<char>::empty() };
    let lead = if fixed { seq!['/'] } else { Seq::<char>::empty() };
    let tail = if dir_only { seq!['/'] } else { Seq::<char>::empty() };
    let given = front + lead + glob + tail + behind;
    let line = front + lead + glob + tail;
    assert(line.last() == (if dir_only { '/' } else { glob.last() }));
    assert(given =~= line + behind);
    lemma_trim_behind(line, behind);
    assert(trim_end(given) == line);
    assert(starts_with(line, "!"@) == negated) by {
        lemma_starts_char(line, '!');
        assert("!"@ =~= seq!['!']);
    }
    let body = lead + glob + tail;
    if negated {
        assert(line.skip(1) =~= body);
    } else {
        assert(line =~= body);
    }
    assert(ends_with(body, "/"@) == dir_only) by {
        assert("/"@ =~= seq!['/']);
        let last = body.subrange(body.len() - 1, body.len() as int);
        assert(last[0] == body.last());
        if dir_only {
            assert(last =~= seq!['/']);
        } else {
            assert(last[0] == glob.last());
        }
    }
    let core = lead + glob;
    if dir_only {
        assert(body.drop_last() =~= core);
    } else {
        assert(body =~= core);
    }
    assert(!starts_with(line, "#"@)) by {
        lemma_starts_char(line, '#');
        assert("#"@ =~= seq!['#']);
    }
    assert(starts_with(core, "/"@) == fixed) by {
        lemma_starts_char(core, '/');
        assert("/"@ =~= seq!['/']);
    }
    if fixed {
        assert(core.skip(1) =~= glob);
    } else {
        assert(core =~= glob);
        if glob.contains('/') {
            let i = glob.index_of('/');
            assert(core[i] == '/' && core[glob.len() - 1] != '/');
        }
        if inner_slash(core) {
            let (i, k) = choose|i: int, k: int|
                0 <= i < k < core.len() && #[trigger] core[i] == '/' && #[trigger] core[k] != '/';
            assert(glob[i] == '/');
        }
    }
}

proof fn lemma_starts_char(s: Seq<char>, c: char)
    requires
        s.len() > 0,
    ensures
        starts_with(s, seq![c]) == (s[0] == c),
{
    let head = s.subrange(0, 1);
    assert(head[0] == s[0]);
    if s[0] == c {
        assert(head =~= seq![c]);
    }
}

proof fn lemma_trim_behind(line: Seq<char>, behind: Seq<char>)
    requires
        line.len() > 0,
        !is_ws(line.last()),
        blank(behind),
    ensures
        trim_end(line + behind) == line,
    decreases behind.len(),
{
    let all = line + behind;
    if behind.len() == 0 {
        assert(all =~= line);
    } else {
        assert(is_ws(behind[behind.len() - 1]));
        assert(all.drop_last() =~= line + behind.drop_last());
        lemma_trim_behind(line, behind.drop_last());
    }
}

/// A directory's own rules decide over those of the directories above it, and see the
/// path from that directory on: below the first name of `a/b` it is `b`.
pub proof fn nearer_rules_win(
    levels: Seq<Seq<Rule>>,
    path: Seq<char>,
    is_dir: bool,
    n: int,
)
    requires
        0 < n <= levels.len(),
    ensures
        (forall|k: int|
            0 <= k < levels[n - 1].len() ==> !rule_matches(
                #[trigger] levels[n - 1][k],
                below(path, (n - 1) as nat),
                is_dir,
            )) ==> after_levels(levels, path, is_dir, n) == after_levels(
            levels,
            path,
            is_dir,
            n - 1,
        ),
        levels[n - 1].len() > 0 && rule_matches(
            levels[n - 1].last(),
            below(path, (n - 1) as nat),
            is_dir,
        ) ==> after_levels(levels, path, is_dir, n) == !levels[n - 1].last().negated,
{
    lemma_no_rule(
        levels[n - 1],
        below(path, (n - 1) as nat),
        is_dir,
        after_levels(levels, path, is_dir, n - 1),
    );
}

proof fn lemma_no_rule(rules: Seq<Rule>, path: Seq<char>, is_dir: bool, so_far: bool)
    ensures
        (forall|k: int|
            0 <= k < rules.len() ==> !rule_matches(#[trigger] rules[k], path, is_dir))
            ==> after_rules(rules, path, is_dir, so_far) == so_far,
    decreases rules.len(),
{
    if rules.len() > 0 {
        lemma_no_rule(rules.drop_last(), path, is_dir, so_far);
        assert(rules.last() == rules[rules.len() - 1]);
        assert forall|k: int| 0 <= k < rules.drop_last().len() implies rules.drop_last()[k]
            == #[trigger] rules[k] by {}
        if forall|k: int| 0 <= k < rules.len() ==> !rule_matches(#[trigger] rules[k], path, is_dir) {
            assert forall|k: int| 0 <= k < rules.drop_last().len() implies !rule_matches(
                #[trigger] rules.drop_last()[k],
                path,
                is_dir,
            ) by {
                assert(!rule_matches(rules[k], path, is_dir));
            }
        }
    }
}

/// What is left of a path below its first name is what follows the first slash.
pub proof fn names_are_taken_off(name: Seq<char>, rest: Seq<char>, n: nat)
    requires
        !name.contains('/'),
    ensures
        below(name + seq!['/'] + rest, 0) == name + seq!['/'] + rest,
        below(name + seq!['/'] + rest, n + 1) == below(rest, n),
{
    let path = name + seq!['/'] + rest;
    let slash = "/"@;
    reveal_strlit("/");
    assert(slash =~= seq!['/']);
    lemma_find(path, slash, 0);
    let at_name = name.len() as int;
    assert(path.subrange(at_name, at_name + 1) =~= slash);
    assert(at(path, slash, at_name));
    let i = crate::search::find(path, slash, 0)->0;
    if i < at_name {
        assert(path.subrange(i, i + 1)[0] == name[i]);
        assert(name.contains(name[i]));
    }
    assert(path.skip(at_name + 1) =~= rest);
}

/// A text without the backslashes that stand in front of its characters.
pub open spec fn unescaped(s: Seq<char>) -> Seq<char>
    decreases s.len(),
{
    if s.len() == 0 {
        seq![]
    } else if s.len() > 1 && s[0] == '\\' {
        seq![s[1]] + unescaped(s.skip(2))
    } else {
        seq![s[0]] + unescaped(s.skip(1))
    }
}

/// Escaping puts a backslash in front of every character that means something in an
/// expression, and of no other: taking them away again gives the text back.
pub proof fn escaping_is_undone(text: Seq<char>)
    ensures
        unescaped(escaped(text)) == text,
    decreases text.len(),
{
    if text.len() == 0 {
    } else {
        lemma_escaped_front(text);
        let c = text[0];
        let rest = text.drop_first();
        escaping_is_undone(rest);
        let one = seq![c];
        assert(one.drop_last() =~= seq![]);
        assert(escaped(seq![]) =~= seq![]);
        let all = escaped(text);
        if is_meta(c) {
            assert(escaped(one) =~= seq!['\\', c]);
            assert(all.skip(2) =~= escaped(rest));
            assert(all[0] == '\\' && all[1] == c);
        } else {
            assert(escaped(one) =~= seq![c]);
            assert(all.skip(1) =~= escaped(rest));
            assert(all[0] == c);
        }
        assert(seq![c] + rest =~= text);
    }
}

} // verus!
