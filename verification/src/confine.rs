//! Keeping paths inside the workspace.

use crate::search::{at, starts_with, strip_prefix};
use crate::text::{chars_of, strs};
use crate::words::{join, joined, lemma_run_len, other_than, quote, quoted, run_len, runs,
    segments, split_segments, splitting_undoes_joining};
use vstd::prelude::*;

verus! {

broadcast use vstd::string::group_string_axioms;

/// What of `path` is meant relative to the workspace `root`, or the message on a
/// path that is not.
pub open spec fn relative(root: Seq<char>, path: Seq<char>) -> Result<Seq<char>, Seq<char>> {
    let rel = if starts_with(path, root.push('/')) {
        path.skip(root.len() as int + 1)
    } else {
        path
    };
    if path == root || rel.len() == 0 {
        Err("path is required"@)
    } else if rel[0] == '/' {
        Err("absolute paths outside the workspace are not allowed: "@ + quoted(path))
    } else {
        Ok(rel)
    }
}

/// Walking the first `n` components of a path from the workspace root: where it
/// ends, or `None` where it went above the root on the way.
pub open spec fn walk(comps: Seq<Seq<char>>, n: int) -> Option<Seq<Seq<char>>>
    decreases n,
{
    if n <= 0 {
        Some(seq![])
    } else {
        match walk(comps, n - 1) {
            None => None,
            Some(at) => if comps[n - 1] == "."@ {
                Some(at)
            } else if comps[n - 1] == ".."@ {
                if at.len() == 0 {
                    None
                } else {
                    Some(at.drop_last())
                }
            } else {
                Some(at.push(comps[n - 1]))
            },
        }
    }
}

/// Where `path` leads below the workspace `root`, as the names on the way, or the
/// message on a path that leads elsewhere.
pub open spec fn resolved(root: Seq<char>, path: Seq<char>) -> Result<Seq<Seq<char>>, Seq<char>> {
    match relative(root, path) {
        Err(e) => Err(e),
        Ok(rel) => {
            let comps = segments(rel, '/');
            match walk(comps, comps.len() as int) {
                Some(at) => Ok(at),
                None => Err("path "@ + quoted(path) + " escapes the workspace"@),
            }
        },
    }
}

/// Resolves `path`, relative to the workspace or prefixed with it, to the names that
/// lead to it from the workspace `root`. Absolute paths elsewhere, and any `..` that
/// leaves the workspace, are refused.
pub fn resolve(root: &str, path: &str) -> (r: Result<Vec<String>, String>)
    ensures
        match resolved(root@, path@) {
            Ok(names) => r is Ok && strs(r->Ok_0@) == names,
            Err(e) => r is Err && r->Err_0@ == e,
        },
{
    let mut prefix = root.to_owned();
    prefix.push('/');
    let rel = match strip_prefix(path, &prefix) {
        Some(rest) => rest,
        None => path.to_owned(),
    };
    if crate::text::same(path, root) || rel.as_str().is_empty() {
        return Err("path is required".to_owned());
    }
    let cs = chars_of(&rel);
    if cs[0] == '/' {
        let mut msg = "absolute paths outside the workspace are not allowed: ".to_owned();
        msg.push_str(&quote(path));
        return Err(msg);
    }
    let comps = split_segments(&rel, '/');
    let ghost gs = strs(comps@);
    let mut out: Vec<String> = Vec::new();
    let mut i: usize = 0;
    assert(strs(out@) =~= seq![]);
    while i < comps.len()
        invariant
            i <= comps@.len(),
            gs == strs(comps@),
            gs == segments(rel@, '/'),
            relative(root@, path@) == Ok::<Seq<char>, Seq<char>>(rel@),
            walk(gs, i as int) == Some(strs(out@)),
        decreases comps.len() - i,
    {
        assert(gs[i as int] == comps@[i as int]@);
        if crate::text::same(&comps[i], ".") {
        } else if crate::text::same(&comps[i], "..") {
            proof {
                reveal_strlit(".");
                reveal_strlit("..");
                assert("."@.len() != ".."@.len());
            }
            let ghost before = strs(out@);
            match out.pop() {
                Some(_) => {
                    assert(strs(out@) =~= before.drop_last());
                },
                None => {
                    proof {
                        assert(walk(gs, i + 1) is None);
                        lemma_walk_none(gs, i + 1, gs.len() as int);
                    }
                    let mut msg = "path ".to_owned();
                    msg.push_str(&quote(path));
                    msg.push_str(" escapes the workspace");
                    return Err(msg);
                },
            }
        } else {
            let ghost before = strs(out@);
            out.push(comps[i].clone());
            assert(strs(out@) =~= before.push(gs[i as int]));
        }
        i = i + 1;
    }
    assert(gs.len() == comps@.len());
    Ok(out)
}

proof fn lemma_walk_none(comps: Seq<Seq<char>>, n: int, m: int)
    requires
        0 <= n <= m,
        walk(comps, n) is None,
    ensures
        walk(comps, m) is None,
    decreases m,
{
    if n < m {
        lemma_walk_none(comps, n, m - 1);
    }
}

/// A name of a file or directory: not empty, no slash in it, and neither `.` nor `..`.
pub open spec fn proper_name(s: Seq<char>) -> bool {
    &&& s.len() > 0
    &&& s != "."@
    &&& s != ".."@
    &&& forall|i: int| 0 <= i < s.len() ==> #[trigger] s[i] != '/'
}

proof fn lemma_run_kept(s: Seq<char>, keep: spec_fn(char) -> bool, i: int)
    requires
        0 <= i < run_len(s, keep),
    ensures
        i < s.len(),
        keep(s[i]),
    decreases s.len(),
{
    lemma_run_len(s, keep);
    if i > 0 {
        lemma_run_kept(s.drop_first(), keep, i - 1);
    }
}

/// A run is not empty and holds only characters that are kept.
pub proof fn lemma_runs_kept(s: Seq<char>, keep: spec_fn(char) -> bool, r: int)
    requires
        0 <= r < runs(s, keep).len(),
    ensures
        runs(s, keep)[r].len() > 0,
        forall|i: int| 0 <= i < runs(s, keep)[r].len() ==> keep(#[trigger] runs(s, keep)[r][i]),
    decreases s.len(),
{
    if s.len() > 0 {
        if !keep(s[0]) {
            lemma_runs_kept(s.drop_first(), keep, r);
        } else {
            let n = run_len(s, keep);
            lemma_run_len(s, keep);
            if r == 0 {
                assert forall|i: int| 0 <= i < n implies keep(#[trigger] s.take(n)[i]) by {
                    lemma_run_kept(s, keep, i);
                }
            } else {
                lemma_runs_kept(s.skip(n), keep, r - 1);
                assert(runs(s, keep)[r] == runs(s.skip(n), keep)[r - 1]);
            }
        }
    }
}

proof fn lemma_walk_proper(comps: Seq<Seq<char>>, n: int)
    requires
        0 <= n <= comps.len(),
        forall|i: int|
            0 <= i < comps.len() ==> (#[trigger] comps[i]).len() > 0 && forall|k: int|
                0 <= k < comps[i].len() ==> #[trigger] comps[i][k] != '/',
    ensures
        walk(comps, n) matches Some(at) ==> forall|i: int|
            0 <= i < at.len() ==> proper_name(#[trigger] at[i]),
    decreases n,
{
    if n > 0 {
        lemma_walk_proper(comps, n - 1);
    }
}

/// A path that is accepted stays inside the workspace: it is the workspace followed
/// by proper names alone, none of which leads up or anywhere else.
pub proof fn resolved_stays_inside(root: Seq<char>, path: Seq<char>)
    ensures
        resolved(root, path) matches Ok(names) ==> forall|i: int|
            0 <= i < names.len() ==> proper_name(#[trigger] names[i]),
{
    match relative(root, path) {
        Ok(rel) => {
            let comps = segments(rel, '/');
            assert forall|i: int| 0 <= i < comps.len() implies (#[trigger] comps[i]).len() > 0
                && forall|k: int| 0 <= k < comps[i].len() ==> #[trigger] comps[i][k] != '/' by {
                lemma_runs_kept(rel, other_than('/'), i);
                assert forall|k: int| 0 <= k < comps[i].len() implies #[trigger] comps[i][k]
                    != '/' by {
                    assert(other_than('/')(comps[i][k]));
                }
            }
            lemma_walk_proper(comps, comps.len() as int);
        },
        Err(_) => {},
    }
}

/// Names joined by slashes: the path they spell.
pub fn path_of(names: &Vec<String>) -> (r: String)
    ensures
        r@ == join(strs(names@), "/"@),
{
    joined(names, "/")
}

/// How far below the workspace the first `n` names of a path lead: each goes one down,
/// `..` one up, and `.` stays.
pub open spec fn levels_down(comps: Seq<Seq<char>>, n: int) -> int
    decreases n,
{
    if n <= 0 {
        0
    } else {
        levels_down(comps, n - 1) + (if comps[n - 1] == "."@ {
            0int
        } else if comps[n - 1] == ".."@ {
            -1
        } else {
            1
        })
    }
}

/// A path is refused as leading out exactly where, read from the left, it somewhere leads
/// above the workspace; else it ends as far below as it leads.
pub proof fn leading_out_is_refused(comps: Seq<Seq<char>>, n: int)
    requires
        0 <= n <= comps.len(),
    ensures
        walk(comps, n) is None <==> exists|m: int|
            0 <= m <= n && #[trigger] levels_down(comps, m) < 0,
        walk(comps, n) matches Some(at) ==> at.len() == levels_down(comps, n),
    decreases n,
{
    if n > 0 {
        leading_out_is_refused(comps, n - 1);
        if walk(comps, n) is None {
            if walk(comps, n - 1) is None {
                let m = choose|m: int| 0 <= m <= n - 1 && #[trigger] levels_down(comps, m) < 0;
                assert(levels_down(comps, m) < 0);
            } else {
                assert(levels_down(comps, n) < 0);
            }
        } else {
            assert(levels_down(comps, n) >= 0);
        }
    }
}

/// A path that goes down into a name and up again leads to where it was.
pub proof fn going_up_undoes_going_down(comps: Seq<Seq<char>>, name: Seq<char>)
    requires
        name != "."@,
        name != ".."@,
    ensures
        ({
            let n = comps.len() as int;
            walk(comps.push(name).push(".."@), n + 2) == walk(comps, n)
        }),
{
    let n = comps.len() as int;
    let a = comps.push(name);
    let b = a.push(".."@);
    reveal_strlit(".");
    reveal_strlit("..");
    assert("."@.len() != ".."@.len());
    lemma_walk_prefix(comps, b, n);
    assert(b[n] == name);
    assert(b[n + 1] == ".."@);
    assert(walk(b, n + 1) == match walk(comps, n) {
        None => None,
        Some(at) => Some(at.push(name)),
    });
    match walk(comps, n) {
        Some(at) => {
            assert(at.push(name).drop_last() =~= at);
        },
        None => {},
    }
}

proof fn lemma_walk_prefix(a: Seq<Seq<char>>, b: Seq<Seq<char>>, n: int)
    requires
        0 <= n <= a.len() <= b.len(),
        forall|i: int| 0 <= i < n ==> #[trigger] b[i] == a[i],
    ensures
        walk(b, n) == walk(a, n),
    decreases n,
{
    if n > 0 {
        lemma_walk_prefix(a, b, n - 1);
        assert(b[n - 1] == a[n - 1]);
    }
}

proof fn lemma_walk_names(names: Seq<Seq<char>>, n: int)
    requires
        0 <= n <= names.len(),
        forall|i: int| 0 <= i < names.len() ==> proper_name(#[trigger] names[i]),
    ensures
        walk(names, n) == Some(names.take(n)),
    decreases n,
{
    if n > 0 {
        lemma_walk_names(names, n - 1);
        assert(proper_name(names[n - 1]));
        assert(names.take(n - 1).push(names[n - 1]) =~= names.take(n));
    } else {
        assert(names.take(0) =~= seq![]);
    }
}

/// Proper names joined by slashes are a path that resolves to those names, whether it is
/// given as it stands or with the workspace in front of it: so resolving what was
/// resolved changes nothing.
pub proof fn names_resolve_to_themselves(root: Seq<char>, names: Seq<Seq<char>>)
    requires
        root.len() > 0,
        root[0] == '/',
        names.len() > 0,
        forall|i: int| 0 <= i < names.len() ==> proper_name(#[trigger] names[i]),
    ensures
        ({
            let path = join(names, "/"@);
            &&& resolved(root, path) == Ok::<Seq<Seq<char>>, Seq<char>>(names)
            &&& resolved(root, root + "/"@ + path) == Ok::<Seq<Seq<char>>, Seq<char>>(names)
        }),
{
    reveal_strlit("/");
    assert("/"@ =~= seq!['/']);
    let path = join(names, "/"@);
    assert forall|i: int| 0 <= i < names.len() implies (#[trigger] names[i]).len() > 0
        && !names[i].contains('/') by {
        assert(proper_name(names[i]));
    }
    splitting_undoes_joining(names, '/');
    lemma_join_begins(names, "/"@);
    assert(proper_name(names[0]));
    assert(path[0] == names[0][0]);
    assert(path[0] != '/');
    lemma_walk_names(names, names.len() as int);
    assert(names.take(names.len() as int) =~= names);
    assert(!starts_with(path, root.push('/'))) by {
        if starts_with(path, root.push('/')) {
            let head = path.subrange(0, 1int + root.len());
            assert(head[0] == root[0]);
        }
    }
    assert(path != root);
    let full = root + "/"@ + path;
    assert(full.subrange(0, 1int + root.len()) =~= root.push('/'));
    assert(full.skip(1int + root.len()) =~= path);
    assert(full.len() > root.len());
}

/// Texts that are joined begin as the first of them does.
proof fn lemma_join_begins(names: Seq<Seq<char>>, sep: Seq<char>)
    requires
        names.len() > 0,
        names[0].len() > 0,
    ensures
        join(names, sep).len() > 0,
        join(names, sep)[0] == names[0][0],
    decreases names.len(),
{
    if names.len() > 1 {
        lemma_join_begins(names.drop_last(), sep);
    }
}

/// A path that begins at the root of the file system, and not in the workspace, is
/// refused.
pub proof fn outside_paths_are_refused(root: Seq<char>, path: Seq<char>)
    requires
        path.len() > 0,
        path[0] == '/',
        !(path.len() > root.len() && path.take(root.len() as int) == root && path[root.len() as int]
            == '/'),
    ensures
        resolved(root, path) is Err,
{
    if starts_with(path, root.push('/')) {
        let head = path.subrange(0, 1int + root.len());
        assert(head == root.push('/'));
        assert(path[root.len() as int] == head[root.len() as int]);
        assert(path.take(root.len() as int) =~= root) by {
            assert forall|i: int| 0 <= i < root.len() implies path[i] == root[i] by {
                assert(head[i] == root.push('/')[i]);
            }
        }
    }
}

} // verus!
