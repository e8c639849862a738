//! Listing directories, and what is said of a file that was written.

use crate::grep::{cap, gitignore_note, ignored_note, opt, result_cap};
use crate::pattern::{compile_glob, glob_pattern, glob_texts, is_match, pattern_fault,
    texts_matched};
use crate::words::{byte_len, bytes_in, concat, dec, decimal, decimal_size, quote, quoted};
use vstd::prelude::*;

verus! {

broadcast use vstd::string::group_string_axioms;

/// Cap on the entries reported where the request names none.
pub const DEFAULT_LIST_RESULTS: usize = 500;

/// Ceiling on the entries reported.
pub const MAX_LIST_RESULTS: usize = 5000;

/// A request to list.
#[derive(Debug)]
pub struct ListReq {
    pub path: Option<String>,
    pub glob: Option<String>,
    pub recursive: bool,
    pub max_results: Option<usize>,
    /// List what a `.gitignore` excludes too.
    pub include_ignored: bool,
}

/// A listing under way.
#[derive(Debug)]
pub struct Listing {
    pub req: ListReq,
    pub name_filter: Option<regex::Regex>,
    pub limit: usize,
    pub out: String,
    pub shown: usize,
    pub total: u64,
}

/// Where a listing stands: its lines, how many they are, and how many there would be.
pub struct Listed {
    pub out: Seq<char>,
    pub shown: nat,
    pub total: nat,
}

/// The listing after an entry that is counted.
pub open spec fn with_entry(t: Listed, rel: Seq<char>, is_dir: bool, limit: nat) -> Listed {
    Listed {
        out: if t.shown >= limit {
            t.out
        } else if is_dir {
            t.out + rel + "/\n"@
        } else {
            t.out + rel + "\n"@
        },
        shown: if t.shown >= limit {
            t.shown
        } else {
            t.shown + 1
        },
        total: t.total + 1,
    }
}

/// The report of a listing: its lines and the true total, or that there is nothing.
pub open spec fn list_report(
    path: Option<Seq<char>>,
    glob: Option<Seq<char>>,
    t: Listed,
    hid_ignored: bool,
) -> Seq<char> {
    let place = match path {
        Some(p) => p,
        None => "the workspace"@,
    };
    let body = if t.total == 0 {
        match glob {
            Some(g) => "no entries in "@ + place + " matching "@ + quoted(g) + "\n"@,
            None => place + " is empty\n"@,
        }
    } else {
        let a = t.out + "\n"@ + dec(t.total) + (if t.total == 1 {
            " entry"@
        } else {
            " entries"@
        });
        let b = if t.shown < t.total {
            a + "; showing the first "@ + dec(t.shown)
                + ". Pass `glob`/`path` or raise `max_results` to see the rest"@
        } else {
            a
        };
        b + "\n"@
    };
    if hid_ignored {
        body + gitignore_note()
    } else {
        body
    }
}

/// The message on a place that cannot be listed, if it cannot.
pub open spec fn list_fault(path: Option<Seq<char>>, exists: bool, is_dir: bool) -> Option<
    Seq<char>,
> {
    if !exists {
        Some(
            match path {
                Some(p) => p,
                None => "the workspace"@,
            } + " does not exist"@,
        )
    } else if !is_dir {
        Some(
            match path {
                Some(p) => p,
                None => "."@,
            } + " is not a directory (use the read tool for a file)"@,
        )
    } else {
        None
    }
}

/// What is said of a place that does not exist.
pub fn missing_place(path: &Option<String>) -> (r: String)
    ensures
        r@ == list_fault(opt(*path), false, false)->0,
{
    let mut out = match path {
        Some(p) => p.clone(),
        None => "the workspace".to_owned(),
    };
    out.push_str(" does not exist");
    out
}

/// Whether a place can be listed; where it cannot, why.
pub fn check_place(path: &Option<String>, exists: bool, is_dir: bool) -> (r: Option<String>)
    ensures
        opt(r) == list_fault(opt(*path), exists, is_dir),
{
    if !exists {
        return Some(missing_place(path));
    }
    if !is_dir {
        let mut out = match path {
            Some(p) => p.clone(),
            None => ".".to_owned(),
        };
        out.push_str(" is not a directory (use the read tool for a file)");
        return Some(out);
    }
    None
}

impl Listing {
    /// What is listed so far; what the listing is of stands in its other fields.
    pub open spec fn listed(&self) -> Listed {
        Listed { out: self.out@, shown: self.shown as nat, total: self.total as nat }
    }

    /// No more is shown than allowed.
    pub open spec fn wf(&self) -> bool {
        self.shown <= self.limit
    }

    /// Begins a listing, or says that its glob is not valid.
    pub fn new(req: ListReq) -> (r: Result<Listing, String>)
        ensures
            if req.glob is Some && glob_texts((req.glob->0)@) is None {
                r is Err && r->Err_0@ == "invalid `glob`: "@ + pattern_fault(
                    glob_pattern((req.glob->0)@),
                    false,
                )
            } else {
                &&& r is Ok
                &&& r->Ok_0.wf()
                &&& r->Ok_0.req == req
                &&& r->Ok_0.limit == result_cap(
                    req.max_results,
                    DEFAULT_LIST_RESULTS,
                    MAX_LIST_RESULTS,
                )
                &&& match req.glob {
                    Some(g) => r->Ok_0.name_filter is Some && glob_texts(g@) == Some(
                        texts_matched(r->Ok_0.name_filter->0),
                    ),
                    None => r->Ok_0.name_filter is None,
                }
                &&& r->Ok_0.listed() == (Listed { out: seq![], shown: 0, total: 0 })
            },
    {
        let name_filter = match &req.glob {
            Some(g) => match compile_glob(g) {
                Ok(f) => Some(f),
                Err(e) => {
                    return Err(e);
                },
            },
            None => None,
        };
        let limit = cap(req.max_results, DEFAULT_LIST_RESULTS, MAX_LIST_RESULTS);
        let out = String::new();
        assert(out@ =~= seq![]);
        Ok(Listing { req, name_filter, limit, out, shown: 0, total: 0 })
    }

    /// How deep the listing goes.
    pub fn max_depth(&self) -> (r: usize)
        ensures
            r == if self.req.recursive {
                usize::MAX
            } else {
                1
            },
    {
        if self.req.recursive {
            usize::MAX
        } else {
            1
        }
    }

    /// An entry counts: with a glob, files alone, whose name or path it matches.
    pub open spec fn counts(&self, name: Seq<char>, rel: Seq<char>, is_dir: bool) -> bool {
        match self.name_filter {
            Some(f) => !is_dir && (texts_matched(f).contains(name) || texts_matched(f).contains(
                rel,
            )),
            None => true,
        }
    }

    /// Takes one entry of the walk.
    pub fn add_entry(&mut self, name: &str, rel: &str, is_dir: bool)
        requires
            old(self).wf(),
            old(self).total < u64::MAX,
        ensures
            final(self).wf(),
            final(self).req == old(self).req,
            final(self).name_filter == old(self).name_filter,
            final(self).limit == old(self).limit,
            final(self).listed() == if old(self).counts(name@, rel@, is_dir) {
                with_entry(old(self).listed(), rel@, is_dir, old(self).limit as nat)
            } else {
                old(self).listed()
            },
    {
        let counted = match &self.name_filter {
            Some(f) => !is_dir && (is_match(f, name) || is_match(f, rel)),
            None => true,
        };
        if !counted {
            return ;
        }
        self.total = self.total + 1;
        if self.shown < self.limit {
            self.out.push_str(rel);
            self.out.push_str(if is_dir { "/\n" } else { "\n" });
            self.shown = self.shown + 1;
        }
    }

    /// The report of the listing, given whether a `.gitignore` hid something.
    pub fn finish(&self, hid_ignored: bool) -> (r: String)
        ensures
            r@ == list_report(opt(self.req.path), opt(self.req.glob), self.listed(), hid_ignored),
    {
        let mut msg;
        if self.total == 0 {
            let place = match &self.req.path {
                Some(p) => p.clone(),
                None => "the workspace".to_owned(),
            };
            match &self.req.glob {
                Some(g) => {
                    msg = "no entries in ".to_owned();
                    msg.push_str(&place);
                    msg.push_str(" matching ");
                    msg.push_str(&quote(g));
                    msg.push_str("\n");
                },
                None => {
                    msg = place;
                    msg.push_str(" is empty\n");
                },
            }
        } else {
            msg = self.out.clone();
            msg.push_str("\n");
            msg.push_str(&decimal(self.total as u128));
            msg.push_str(if self.total == 1 { " entry" } else { " entries" });
            if (self.shown as u64) < self.total {
                msg.push_str("; showing the first ");
                msg.push_str(&decimal_size(self.shown));
                msg.push_str(". Pass `glob`/`path` or raise `max_results` to see the rest");
            }
            msg.push_str("\n");
        }
        if hid_ignored {
            msg.push_str(ignored_note());
        }
        msg
    }
}

/// What is said of a file that was written.
pub open spec fn written(path: Seq<char>, existed: bool, content: Seq<char>) -> Seq<char> {
    (if existed {
        "overwrote "@
    } else {
        "created "@
    }) + path + " ("@ + dec(byte_len(content)) + " bytes)\n"@
}

/// What is said of a file that was written.
pub fn write_report(path: &str, existed: bool, content: &str) -> (r: String)
    ensures
        r@ == written(path@, existed, content@),
{
    let mut out = (if existed { "overwrote " } else { "created " }).to_owned();
    out.push_str(path);
    out.push_str(" (");
    out.push_str(&decimal_size(bytes_in(content)));
    out.push_str(" bytes)\n");
    out
}

/// An entry as it is handed in: its path, and whether it is a directory.
pub struct Entry {
    pub rel: Seq<char>,
    pub is_dir: bool,
}

/// The listing after the first `n` entries.
pub open spec fn with_entries(t: Listed, es: Seq<Entry>, limit: nat, n: int) -> Listed
    decreases n,
{
    if n <= 0 {
        t
    } else {
        with_entry(with_entries(t, es, limit, n - 1), es[n - 1].rel, es[n - 1].is_dir, limit)
    }
}

/// A listing shows the first entries, in their order and a line each, as many as its
/// limit allows: a directory ends in a slash. All entries are counted, shown or not.
pub proof fn listings_show_the_first(es: Seq<Entry>, limit: nat, n: int)
    requires
        0 <= n <= es.len(),
    ensures
        ({
            let t = with_entries(Listed { out: seq![], shown: 0, total: 0 }, es, limit, n);
            let k = if n < limit { n } else { limit as int };
            &&& t.total == n
            &&& t.shown == k
            &&& t.out == concat(
                Seq::new(
                    k as nat,
                    |i: int|
                        es[i].rel + (if es[i].is_dir {
                            "/\n"@
                        } else {
                            "\n"@
                        }),
                ),
            )
        }),
    decreases n,
{
    if n > 0 {
        listings_show_the_first(es, limit, n - 1);
        let before = with_entries(Listed { out: seq![], shown: 0, total: 0 }, es, limit, n - 1);
        if n - 1 < limit {
            let more = Seq::new(
                n as nat,
                |i: int|
                    es[i].rel + (if es[i].is_dir {
                        "/\n"@
                    } else {
                        "\n"@
                    }),
            );
            assert(more.drop_last() =~= Seq::new(
                (n - 1) as nat,
                |i: int|
                    es[i].rel + (if es[i].is_dir {
                        "/\n"@
                    } else {
                        "\n"@
                    }),
            ));
            assert(concat(more) == before.out + more.last());
            assert(with_entry(before, es[n - 1].rel, es[n - 1].is_dir, limit).out =~= before.out
                + more.last());
        }
    } else {
        assert(concat(seq![]) =~= seq![]);
        assert(Seq::new(
            0,
            |i: int|
                es[i].rel + (if es[i].is_dir {
                    "/\n"@
                } else {
                    "\n"@
                }),
        ) =~= seq![]);
    }
}

/// With a glob, only files are listed, and those whose name or path it matches; without
/// one, everything is.
pub proof fn globs_choose_files(l: Listing, name: Seq<char>, rel: Seq<char>, is_dir: bool)
    ensures
        l.name_filter is None ==> l.counts(name, rel, is_dir),
        l.name_filter is Some ==> (l.counts(name, rel, is_dir) <==> !is_dir && (texts_matched(
            l.name_filter->0,
        ).contains(name) || texts_matched(l.name_filter->0).contains(rel))),
{
}

/// A place is listed exactly where it is there and is a directory.
pub proof fn only_directories_are_listed(path: Option<Seq<char>>, exists: bool, is_dir: bool)
    ensures
        list_fault(path, exists, is_dir) is None <==> exists && is_dir,
{
}

} // verus!
