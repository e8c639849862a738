//! Searching and listing a workspace, given what is in it.

use crate::choice::{ascending, lemma_one_more};
use crate::confine::{path_of, resolve, resolved};
use crate::grep::{
    after_file, ancestors, dirs_to, grep_report, opt, skipped_names, visit, Grep, GrepReq, Tally,
    Visit,
};
use crate::listing::{check_place, list_fault, list_report, Listed, Listing, missing_place,
    with_entries, with_entry};
use crate::paths::{file_name, last_name};
use crate::pattern::{after_levels, compile_ignore, holding, IgnoreRule, is_ignored, levels_view,
    Rule, rules_of, rules_view, texts_matched};
use crate::text::{chars_of, lines, same, strs};
use crate::words::join;
use vstd::prelude::*;

verus! {

broadcast use vstd::string::group_string_axioms;

// ---------------------------------------------------------------------------
// What is ignored
// ---------------------------------------------------------------------------

/// The rules of every `.gitignore` of a workspace, each with the directory that it is in.
#[derive(Debug)]
pub struct IgnoreRules {
    files: Vec<(String, Vec<IgnoreRule>)>,
    none: Vec<IgnoreRule>,
}

/// The rules of files, each with its directory.
pub open spec fn rules_in(files: Seq<(String, String)>) -> Seq<(Seq<char>, Seq<Rule>)> {
    Seq::new(
        files.len(),
        |i: int| (files[i].0@, rules_of(lines(files[i].1@), lines(files[i].1@).len() as int)),
    )
}

/// The rules of the first file of a directory, of those from the `n`th on.
pub open spec fn rules_at(v: Seq<(Seq<char>, Seq<Rule>)>, dir: Seq<char>, n: int) -> Seq<Rule>
    decreases v.len() - n,
{
    if n < 0 || n >= v.len() {
        seq![]
    } else if v[n].0 == dir {
        v[n].1
    } else {
        rules_at(v, dir, n + 1)
    }
}

/// A path is ignored: the rules of every directory on the way to it are applied, root
/// first, and the last match wins.
pub open spec fn path_ignored(v: Seq<(Seq<char>, Seq<Rule>)>, path: Seq<char>, is_dir: bool) -> bool {
    let dirs = dirs_to(path, path.len() as int);
    after_levels(
        Seq::new(dirs.len(), |i: int| rules_at(v, dirs[i], 0)),
        path,
        is_dir,
        dirs.len() as int,
    )
}

impl IgnoreRules {
    /// The rules, each with its directory.
    pub closed spec fn rules(&self) -> Seq<(Seq<char>, Seq<Rule>)> {
        Seq::new(self.files@.len(), |i: int| (self.files@[i].0@, rules_view(self.files@[i].1@)))
    }

    #[verifier::type_invariant]
    closed spec fn inv(&self) -> bool {
        self.none@.len() == 0
    }

    /// The rules of files, each given with its directory and its text.
    pub fn new(files: &Vec<(String, String)>) -> (r: IgnoreRules)
        ensures
            r.rules() == rules_in(files@),
    {
        let mut out: Vec<(String, Vec<IgnoreRule>)> = Vec::new();
        let mut i: usize = 0;
        while i < files.len()
            invariant
                i <= files@.len(),
                out@.len() == i,
                forall|k: int|
                    0 <= k < i ==> (#[trigger] out@[k]).0@ == files@[k].0@ && rules_view(out@[k].1@)
                        == rules_of(lines(files@[k].1@), lines(files@[k].1@).len() as int),
            decreases files.len() - i,
        {
            out.push((files[i].0.clone(), compile_ignore(&files[i].1)));
            i = i + 1;
        }
        let r = IgnoreRules { files: out, none: Vec::new() };
        assert(r.rules() =~= rules_in(files@));
        r
    }

    fn rules_for(&self, dir: &str) -> (r: &Vec<IgnoreRule>)
        ensures
            rules_view(r@) == rules_at(self.rules(), dir@, 0),
    {
        proof {
            use_type_invariant(self);
        }
        let ghost v = self.rules();
        let mut i: usize = 0;
        while i < self.files.len()
            invariant
                i <= self.files@.len(),
                v == self.rules(),
                rules_at(v, dir@, i as int) == rules_at(v, dir@, 0),
            decreases self.files.len() - i,
        {
            if same(&self.files[i].0, dir) {
                assert(v[i as int].0 == dir@);
                return &self.files[i].1;
            }
            assert(v[i as int].0 != dir@);
            i = i + 1;
        }
        assert(rules_view(self.none@) =~= seq![]);
        &self.none
    }

    /// Whether a path, relative to the workspace, is ignored.
    pub fn is_ignored(&self, path: &str, is_dir: bool) -> (r: bool)
        ensures
            r == path_ignored(self.rules(), path@, is_dir),
    {
        let dirs = ancestors(path);
        let ghost ds = dirs_to(path@, path@.len() as int);
        let mut levels: Vec<&Vec<IgnoreRule>> = Vec::new();
        let mut i: usize = 0;
        assert(strs(dirs@).len() == dirs@.len());
        while i < dirs.len()
            invariant
                i <= dirs@.len(),
                strs(dirs@) == ds,
                levels@.len() == i,
                forall|k: int|
                    0 <= k < i ==> rules_view((#[trigger] levels@[k])@) == rules_at(
                        self.rules(),
                        ds[k],
                        0,
                    ),
            decreases dirs.len() - i,
        {
            assert(ds[i as int] == dirs@[i as int]@);
            let rules = self.rules_for(&dirs[i]);
            levels.push(rules);
            i = i + 1;
        }
        assert(levels_view(levels@) =~= Seq::new(
            ds.len(),
            |k: int| rules_at(self.rules(), ds[k], 0),
        ));
        is_ignored(&levels, path, is_dir)
    }
}

// ---------------------------------------------------------------------------
// What is reached
// ---------------------------------------------------------------------------

/// Something in a workspace, its path relative to the root.
#[derive(Debug)]
pub struct Entry {
    pub path: String,
    pub is_dir: bool,
    pub is_file: bool,
    /// What the file holds, where it can be read.
    pub bytes: Option<Vec<u8>>,
}

/// The name that a path ends in.
pub open spec fn name_in(path: Seq<char>) -> Seq<char> {
    match last_name(path) {
        Some(n) => n,
        None => seq![],
    }
}

/// What a walk from `base` does with a path. Without rules, nothing is ignored.
pub open spec fn verdict(
    base: Seq<char>,
    rules: Option<Seq<(Seq<char>, Seq<Rule>)>>,
    path: Seq<char>,
    is_dir: bool,
) -> Visit {
    if path == base {
        Visit::Keep
    } else if is_dir && skipped_names().contains(name_in(path)) {
        Visit::Skip
    } else if rules is Some && path_ignored(rules->0, path, is_dir) {
        Visit::Ignored
    } else {
        Visit::Keep
    }
}

/// A walk from `base` comes to a path: every directory between them is kept.
pub open spec fn reached(
    base: Seq<char>,
    rules: Option<Seq<(Seq<char>, Seq<Rule>)>>,
    path: Seq<char>,
) -> bool {
    forall|i: int|
        0 <= i < dirs_to(path, path.len() as int).len() && (#[trigger] dirs_to(
            path,
            path.len() as int,
        )[i]).len() > base.len() ==> verdict(
            base,
            rules,
            dirs_to(path, path.len() as int)[i],
            true,
        ) is Keep
}

/// The rules, as what they match.
pub open spec fn rules_opt(rules: Option<IgnoreRules>) -> Option<Seq<(Seq<char>, Seq<Rule>)>> {
    match rules {
        Some(r) => Some(r.rules()),
        None => None,
    }
}

fn judge(base: &str, rules: &Option<IgnoreRules>, path: &str, is_dir: bool) -> (r: Visit)
    ensures
        r == verdict(base@, rules_opt(*rules), path@, is_dir),
{
    let name = match file_name(path) {
        Some(n) => n,
        None => String::new(),
    };
    assert(name@ =~= name_in(path@));
    let ignored = match rules {
        Some(r) => r.is_ignored(path, is_dir),
        None => false,
    };
    visit(same(path, base), &name, is_dir, ignored)
}

fn comes_to(base: &str, rules: &Option<IgnoreRules>, path: &str) -> (r: bool)
    ensures
        r == reached(base@, rules_opt(*rules), path@),
{
    let dirs = ancestors(path);
    let ghost ds = dirs_to(path@, path@.len() as int);
    let ghost rs = rules_opt(*rules);
    let least = chars_of(base).len();
    let mut i: usize = 0;
    assert(strs(dirs@).len() == dirs@.len());
    while i < dirs.len()
        invariant
            i <= dirs@.len(),
            strs(dirs@) == ds,
            ds == dirs_to(path@, path@.len() as int),
            rs == rules_opt(*rules),
            least == base@.len(),
            forall|k: int|
                0 <= k < i && (#[trigger] ds[k]).len() > base@.len() ==> verdict(
                    base@,
                    rs,
                    ds[k],
                    true,
                ) is Keep,
        decreases dirs.len() - i,
    {
        assert(ds[i as int] == dirs@[i as int]@);
        if chars_of(&dirs[i]).len() > least {
            match judge(base, rules, &dirs[i], true) {
                Visit::Keep => {},
                _ => {
                    assert(ds[i as int].len() > base@.len());
                    return false;
                },
            }
        }
        i = i + 1;
    }
    true
}

// ---------------------------------------------------------------------------
// Searching
// ---------------------------------------------------------------------------

/// Where a request looks, as a path relative to the root, or why it may not look there.
pub open spec fn place_of(root: Seq<char>, path: Option<String>) -> Result<Seq<char>, Seq<char>> {
    match path {
        None => Ok(seq![]),
        Some(p) => match resolved(root, p@) {
            Ok(names) => Ok(join(names, "/"@)),
            Err(why) => Err(why),
        },
    }
}

fn place(root: &str, path: &Option<String>) -> (r: Result<String, String>)
    ensures
        match r {
            Ok(p) => place_of(root@, *path) == Ok::<Seq<char>, Seq<char>>(p@),
            Err(why) => place_of(root@, *path) == Err::<Seq<char>, Seq<char>>(why@),
        },
{
    match path {
        None => {
            let s = String::new();
            assert(s@ =~= seq![]);
            Ok(s)
        },
        Some(p) => match resolve(root, p) {
            Ok(names) => Ok(path_of(&names)),
            Err(why) => Err(why),
        },
    }
}

/// Begins a search, and says where it looks. What is wrong with the pattern is said before
/// what is wrong with the place.
pub fn start_grep(root: &str, req: GrepReq) -> (r: Result<(Grep, String), String>)
    ensures
        match Grep::request_fault(req) {
            Some(e) => r matches Err(why) && why@ == e,
            None => match place_of(root@, req.path) {
                Err(e) => r matches Err(why) && why@ == e,
                Ok(base) => {
                    &&& r is Ok
                    &&& r->Ok_0.1@ == base
                    &&& r->Ok_0.0.fresh(req)
                },
            },
        },
        r is Ok && req.literal && !req.case_insensitive ==> r->Ok_0.0.query().texts == holding(
            req.pattern@,
        ),
{
    let g = match Grep::new(req) {
        Ok(g) => g,
        Err(why) => return Err(why),
    };
    match place(root, &g.req.path) {
        Ok(base) => Ok((g, base)),
        Err(why) => Err(why),
    }
}

/// A file is searched.
pub open spec fn is_searched(
    base: Seq<char>,
    rules: Option<Seq<(Seq<char>, Seq<Rule>)>>,
    g: Grep,
    e: Entry,
) -> bool {
    &&& e.is_file
    &&& e.bytes is Some
    &&& verdict(base, rules, e.path@, e.is_dir) is Keep
    &&& reached(base, rules, e.path@)
    &&& g.wanted(name_in(e.path@), e.path@)
}

/// Where a search stands after the first `n` entries.
pub open spec fn searched(
    base: Seq<char>,
    rules: Option<Seq<(Seq<char>, Seq<Rule>)>>,
    g: Grep,
    tree: Seq<Entry>,
    n: int,
) -> Tally
    decreases n,
{
    if n <= 0 {
        g.tally()
    } else {
        let t = searched(base, rules, g, tree, n - 1);
        let e = tree[n - 1];
        if is_searched(base, rules, g, e) {
            after_file(g.query(), g.req.files_only, e.path@, (e.bytes->0)@, t)
        } else {
            t
        }
    }
}

/// Something is hidden by a `.gitignore`, of the first `n` entries that a walk comes to.
pub open spec fn hides(
    base: Seq<char>,
    rules: Option<Seq<(Seq<char>, Seq<Rule>)>>,
    tree: Seq<Entry>,
    n: int,
) -> bool {
    exists|i: int|
        0 <= i < n && reached(base, rules, (#[trigger] tree[i]).path@) && verdict(
            base,
            rules,
            tree[i].path@,
            tree[i].is_dir,
        ) is Ignored
}

/// Searches a workspace: the files that a walk from `base` comes to and that are wanted, in
/// the order of the walk, and whether anything was hidden. `tree` is what there is below
/// `base`, and `base` itself where it is a file.
pub fn grep(g: Grep, base: &str, present: bool, rules: &Option<IgnoreRules>, tree: Vec<Entry>) -> (r:
    Result<String, String>)
    requires
        g.wf(),
        g.files == 0,
    ensures
        if !present {
            r matches Err(why) && why@ == list_fault(opt(g.req.path), false, false)->0
        } else {
            r matches Ok(text) && text@ == grep_report(
                g.req.pattern@,
                opt(g.req.glob),
                opt(g.req.path),
                g.req.files_only,
                searched(base@, rules_opt(*rules), g, tree@, tree@.len() as int),
                hides(base@, rules_opt(*rules), tree@, tree@.len() as int),
            )
        },
{
    if !present {
        return Err(missing_place(&g.req.path));
    }
    let ghost start = g;
    let ghost rs = rules_opt(*rules);
    let ghost all = tree@;
    let mut search = g;
    let mut rest = tree;
    let n = rest.len();
    let mut hid = false;
    let mut i: usize = 0;
    while i < n
        invariant
            i <= n,
            n == all.len(),
            rs == rules_opt(*rules),
            rest@ =~= all.skip(i as int),
            search.wf(),
            search.files <= i,
            search.req == start.req,
            search.re == start.re,
            search.name_filter == start.name_filter,
            search.limit == start.limit,
            search.tally() == searched(base@, rs, start, all, i as int),
            hid == hides(base@, rs, all, i as int),
        decreases n - i,
    {
        let e = rest.remove(0);
        assert(e == all[i as int]);
        assert(rest@ =~= all.skip(i + 1));
        let path = e.path;
        if comes_to(base, rules, &path) {
            match judge(base, rules, &path, e.is_dir) {
                Visit::Ignored => {
                    hid = true;
                },
                Visit::Skip => {},
                Visit::Keep => {
                    let name = match file_name(&path) {
                        Some(x) => x,
                        None => String::new(),
                    };
                    assert(name@ =~= name_in(path@));
                    if e.is_file && search.wants(&name, &path) {
                        match e.bytes {
                            Some(bytes) => {
                                search.add_file(&path, bytes);
                            },
                            None => {},
                        }
                    }
                },
            }
        }
        i = i + 1;
    }
    Ok(search.finish(hid))
}

// ---------------------------------------------------------------------------
// Listing
// ---------------------------------------------------------------------------

/// How far a path is below the root.
pub open spec fn depth(path: Seq<char>) -> int {
    if path.len() == 0 {
        0
    } else {
        dirs_to(path, path.len() as int).len() as int
    }
}

fn depth_of(path: &str) -> (r: usize)
    ensures
        r == depth(path@),
{
    if path.is_empty() {
        0
    } else {
        let dirs = ancestors(path);
        assert(strs(dirs@).len() == dirs@.len());
        dirs.len()
    }
}

/// An entry is close enough to be listed: anywhere below, or right below.
pub open spec fn within(l: Listing, base: Seq<char>, path: Seq<char>) -> bool {
    l.req.recursive || depth(path) <= depth(base) + 1
}

/// Where a listing stands after the first `n` entries.
pub open spec fn listed_of(
    base: Seq<char>,
    rules: Option<Seq<(Seq<char>, Seq<Rule>)>>,
    l: Listing,
    tree: Seq<Entry>,
    n: int,
) -> Listed
    decreases n,
{
    if n <= 0 {
        l.listed()
    } else {
        let t = listed_of(base, rules, l, tree, n - 1);
        let e = tree[n - 1];
        if within(l, base, e.path@) && verdict(base, rules, e.path@, e.is_dir) is Keep && reached(
            base,
            rules,
            e.path@,
        ) && l.counts(name_in(e.path@), e.path@, e.is_dir) {
            with_entry(t, e.path@, e.is_dir, l.limit as nat)
        } else {
            t
        }
    }
}

/// Something is hidden by a `.gitignore`, of the first `n` entries that are close enough.
pub open spec fn listing_hides(
    base: Seq<char>,
    rules: Option<Seq<(Seq<char>, Seq<Rule>)>>,
    l: Listing,
    tree: Seq<Entry>,
    n: int,
) -> bool {
    exists|i: int|
        0 <= i < n && within(l, base, (#[trigger] tree[i]).path@) && reached(
            base,
            rules,
            tree[i].path@,
        ) && verdict(base, rules, tree[i].path@, tree[i].is_dir) is Ignored
}

/// Begins a listing, and says where it looks.
pub fn start_list(root: &str, l: Listing) -> (r: Result<(Listing, String), String>)
    ensures
        match place_of(root@, l.req.path) {
            Err(e) => r matches Err(why) && why@ == e,
            Ok(base) => r is Ok && r->Ok_0.0 == l && r->Ok_0.1@ == base,
        },
{
    match place(root, &l.req.path) {
        Ok(base) => Ok((l, base)),
        Err(why) => Err(why),
    }
}

/// Lists a directory of a workspace: the entries that a walk from it comes to, in the
/// order of the walk, and whether anything was hidden. `tree` is what there is below it.
pub fn list(
    l: Listing,
    base: &str,
    present: bool,
    is_dir: bool,
    rules: &Option<IgnoreRules>,
    tree: &Vec<Entry>,
) -> (r: Result<String, String>)
    requires
        l.wf(),
        l.total == 0,
    ensures
        match list_fault(opt(l.req.path), present, is_dir) {
            Some(e) => r matches Err(why) && why@ == e,
            None => r matches Ok(text) && text@ == list_report(
                opt(l.req.path),
                opt(l.req.glob),
                listed_of(base@, rules_opt(*rules), l, tree@, tree@.len() as int),
                listing_hides(base@, rules_opt(*rules), l, tree@, tree@.len() as int),
            ),
        },
{
    match check_place(&l.req.path, present, is_dir) {
        Some(why) => return Err(why),
        None => {},
    }
    let ghost start = l;
    let ghost rs = rules_opt(*rules);
    let mut listing = l;
    let home = depth_of(base);
    let mut hid = false;
    let mut i: usize = 0;
    while i < tree.len()
        invariant
            i <= tree.len(),
            rs == rules_opt(*rules),
            home == depth(base@),
            listing.wf(),
            listing.total <= i,
            listing.req == start.req,
            listing.name_filter == start.name_filter,
            listing.limit == start.limit,
            listing.listed() == listed_of(base@, rs, start, tree@, i as int),
            hid == listing_hides(base@, rs, start, tree@, i as int),
        decreases tree.len() - i,
    {
        let e = &tree[i];
        let near = listing.req.recursive || {
            let d = depth_of(&e.path);
            d <= home || d - 1 <= home
        };
        if near && comes_to(base, rules, &e.path) {
            match judge(base, rules, &e.path, e.is_dir) {
                Visit::Ignored => {
                    hid = true;
                },
                Visit::Skip => {},
                Visit::Keep => {
                    let name = match file_name(&e.path) {
                        Some(x) => x,
                        None => String::new(),
                    };
                    assert(name@ =~= name_in(e.path@));
                    listing.add_entry(&name, &e.path, e.is_dir);
                },
            }
        }
        i = i + 1;
    }
    Ok(listing.finish(hid))
}

// ---------------------------------------------------------------------------
// Laws
// ---------------------------------------------------------------------------

/// What is below a directory that is skipped or ignored is never searched, unless the
/// search starts there or below.
pub proof fn pruned_trees_are_not_searched(
    base: Seq<char>,
    rules: Option<Seq<(Seq<char>, Seq<Rule>)>>,
    g: Grep,
    e: Entry,
    i: int,
)
    requires
        0 <= i < dirs_to(e.path@, e.path@.len() as int).len(),
        dirs_to(e.path@, e.path@.len() as int)[i].len() > base.len(),
        !(verdict(base, rules, dirs_to(e.path@, e.path@.len() as int)[i], true) is Keep),
    ensures
        !is_searched(base, rules, g, e),
{
}

/// What becomes of an entry on a walk: the place where the walk starts is kept; a
/// directory with a name that is skipped is skipped; what the rules ignore is ignored,
/// where rules are asked for; everything else is kept.
pub proof fn walks_keep_the_rest(
    base: Seq<char>,
    rules: Option<Seq<(Seq<char>, Seq<Rule>)>>,
    path: Seq<char>,
    is_dir: bool,
)
    ensures
        path == base ==> verdict(base, rules, path, is_dir) is Keep,
        path != base ==> {
            let skip = is_dir && skipped_names().contains(name_in(path));
            let ignored = rules is Some && path_ignored(rules->0, path, is_dir);
            &&& verdict(base, rules, path, is_dir) is Skip <==> skip
            &&& verdict(base, rules, path, is_dir) is Ignored <==> !skip && ignored
        },
{
}

/// The search after the files at these places, one after the other.
pub open spec fn after_files(g: Grep, tree: Seq<Entry>, js: Seq<int>) -> Tally
    decreases js.len(),
{
    if js.len() == 0 {
        g.tally()
    } else {
        let e = tree[js.last()];
        after_file(
            g.query(),
            g.req.files_only,
            e.path@,
            (e.bytes->0)@,
            after_files(g, tree, js.drop_last()),
        )
    }
}

/// The files that a search looks into are those that can be read, that the walk comes to
/// and keeps, and whose name or path the glob matches where there is one: each of them,
/// once, in the order of the walk.
pub proof fn searches_look_into_every_wanted_file(
    base: Seq<char>,
    rules: Option<Seq<(Seq<char>, Seq<Rule>)>>,
    g: Grep,
    tree: Seq<Entry>,
    n: int,
) -> (js: Seq<int>)
    requires
        0 <= n <= tree.len(),
    ensures
        ascending(js, n),
        forall|i: int|
            0 <= i < n ==> (#[trigger] js.contains(i) <==> {
                let e = tree[i];
                &&& e.is_file && e.bytes is Some
                &&& verdict(base, rules, e.path@, e.is_dir) is Keep
                &&& reached(base, rules, e.path@)
                &&& g.name_filter matches Some(f) ==> texts_matched(f).contains(name_in(e.path@))
                    || texts_matched(f).contains(e.path@)
            }),
        searched(base, rules, g, tree, n) == after_files(g, tree, js),
    decreases n,
{
    if n == 0 {
        seq![]
    } else {
        let before = searches_look_into_every_wanted_file(base, rules, g, tree, n - 1);
        lemma_one_more(before, n - 1);
        if is_searched(base, rules, g, tree[n - 1]) {
            let js = before.push(n - 1);
            assert(js.drop_last() =~= before);
            js
        } else {
            before
        }
    }
}

/// The entries that a listing counts are those that are near enough, that the walk comes
/// to and keeps, and, with a glob, the files that it matches: each of them, once, in the
/// order of the walk.
pub proof fn listings_count_every_wanted_entry(
    base: Seq<char>,
    rules: Option<Seq<(Seq<char>, Seq<Rule>)>>,
    l: Listing,
    tree: Seq<Entry>,
    n: int,
) -> (js: Seq<int>)
    requires
        0 <= n <= tree.len(),
    ensures
        ascending(js, n),
        forall|i: int|
            0 <= i < n ==> (#[trigger] js.contains(i) <==> {
                let e = tree[i];
                &&& l.req.recursive || depth(e.path@) <= depth(base) + 1
                &&& verdict(base, rules, e.path@, e.is_dir) is Keep
                &&& reached(base, rules, e.path@)
                &&& l.name_filter matches Some(f) ==> !e.is_dir && (texts_matched(f).contains(
                    name_in(e.path@),
                ) || texts_matched(f).contains(e.path@))
            }),
        listed_of(base, rules, l, tree, n) == with_entries(
            l.listed(),
            Seq::new(
                js.len(),
                |k: int|
                    crate::listing::Entry {
                        rel: tree[js[k]].path@,
                        is_dir: tree[js[k]].is_dir,
                    },
            ),
            l.limit as nat,
            js.len() as int,
        ),
    decreases n,
{
    if n == 0 {
        seq![]
    } else {
        let before = listings_count_every_wanted_entry(base, rules, l, tree, n - 1);
        lemma_one_more(before, n - 1);
        let e = tree[n - 1];
        if within(l, base, e.path@) && verdict(base, rules, e.path@, e.is_dir) is Keep && reached(
            base,
            rules,
            e.path@,
        ) && l.counts(name_in(e.path@), e.path@, e.is_dir) {
            let js = before.push(n - 1);
            let es = Seq::new(
                js.len(),
                |k: int|
                    crate::listing::Entry {
                        rel: tree[js[k]].path@,
                        is_dir: tree[js[k]].is_dir,
                    },
            );
            let fewer = Seq::new(
                before.len(),
                |k: int|
                    crate::listing::Entry {
                        rel: tree[before[k]].path@,
                        is_dir: tree[before[k]].is_dir,
                    },
            );
            lemma_entries_prefix(l.listed(), fewer, es, l.limit as nat, before.len() as int);
            js
        } else {
            before
        }
    }
}

proof fn lemma_entries_prefix(
    t: Listed,
    a: Seq<crate::listing::Entry>,
    b: Seq<crate::listing::Entry>,
    limit: nat,
    n: int,
)
    requires
        0 <= n <= a.len() <= b.len(),
        forall|i: int| 0 <= i < n ==> #[trigger] b[i] == a[i],
    ensures
        with_entries(t, b, limit, n) == with_entries(t, a, limit, n),
    decreases n,
{
    if n > 0 {
        lemma_entries_prefix(t, a, b, limit, n - 1);
        assert(b[n - 1] == a[n - 1]);
    }
}

} // verus!
