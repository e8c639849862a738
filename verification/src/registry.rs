//! Things by name, kept in the order of their names.

use crate::order::{lemma_text_order, lemma_text_total, text_less, text_lt};
use crate::text::strs;
use vstd::prelude::*;

verus! {

broadcast use vstd::string::group_string_axioms;

/// Things by name: no name twice, and in order.
#[derive(Debug)]
pub struct Registry<V> {
    entries: Vec<(String, V)>,
}

/// The names of entries.
pub open spec fn names_of<V>(entries: Seq<(String, V)>) -> Seq<Seq<char>> {
    Seq::new(entries.len(), |i: int| entries[i].0@)
}

/// The names are in order, and none occurs twice.
pub open spec fn ascending(names: Seq<Seq<char>>) -> bool {
    forall|i: int, j: int|
        0 <= i < j < names.len() ==> text_lt(#[trigger] names[i], #[trigger] names[j])
}

/// Where a name is.
pub open spec fn place(names: Seq<Seq<char>>, name: Seq<char>) -> int {
    choose|i: int| 0 <= i < names.len() && names[i] == name
}

/// Among names in order, each is where it is and nowhere else.
pub proof fn lemma_place(names: Seq<Seq<char>>, i: int)
    requires
        ascending(names),
        0 <= i < names.len(),
    ensures
        place(names, names[i]) == i,
{
    let k = place(names, names[i]);
    assert(0 <= k < names.len() && names[k] == names[i]);
    lemma_text_total(names[i], names[i]);
    if k < i {
        assert(text_lt(names[k], names[i]));
    } else if k > i {
        assert(text_lt(names[i], names[k]));
    }
}

impl<V> Registry<V> {
    /// What stands under each name.
    pub open spec fn table(&self) -> Map<Seq<char>, V> {
        Map::new(|n: Seq<char>| self.has(n), |n: Seq<char>| self.list()[place(self.names(), n)].1)
    }

    /// The entries, in the order of their names.
    pub closed spec fn list(&self) -> Seq<(String, V)> {
        self.entries@
    }

    /// The names, in order.
    pub open spec fn names(&self) -> Seq<Seq<char>> {
        names_of(self.list())
    }

    /// The names are in order, and none occurs twice.
    #[verifier::type_invariant]
    closed spec fn in_order(&self) -> bool {
        ascending(names_of(self.entries@))
    }

    /// There is an entry of this name.
    pub open spec fn has(&self, name: Seq<char>) -> bool {
        self.names().contains(name)
    }

    /// Where a name is, or would be.
    pub open spec fn slot(names: Seq<Seq<char>>, name: Seq<char>, i: int) -> bool {
        &&& 0 <= i <= names.len()
        &&& forall|k: int| 0 <= k < i ==> text_lt(#[trigger] names[k], name)
        &&& forall|k: int| i <= k < names.len() ==> !text_lt(#[trigger] names[k], name)
    }

    /// The entries with one more, or one replaced.
    pub open spec fn with_entry(
        list: Seq<(String, V)>,
        name: String,
        value: V,
        i: int,
    ) -> Seq<(String, V)> {
        if i < list.len() && list[i].0@ == name@ {
            list.update(i, (name, value))
        } else {
            list.insert(i, (name, value))
        }
    }

    /// Nothing by any name.
    pub fn new() -> (r: Registry<V>)
        ensures
            r.list() == Seq::<(String, V)>::empty(),
    {
        Registry { entries: Vec::new() }
    }

    /// How many entries there are.
    pub fn len(&self) -> (r: usize)
        ensures
            r == self.list().len(),
    {
        self.entries.len()
    }

    fn find_slot(&self, name: &str) -> (r: usize)
        ensures
            Self::slot(self.names(), name@, r as int),
            self.has(name@) <==> r < self.list().len() && self.list()[r as int].0@ == name@,
    {
        proof {
            use_type_invariant(self);
        }
        let ghost ns = self.names();
        let mut i: usize = 0;
        while i < self.entries.len() && text_less(&self.entries[i].0, name)
            invariant
                i <= self.entries@.len(),
                ns == self.names(),
                ns == names_of(self.entries@),
                forall|k: int| 0 <= k < i ==> text_lt(#[trigger] ns[k], name@),
            ensures
                i < self.entries@.len() ==> !text_lt(ns[i as int], name@),
            decreases self.entries.len() - i,
        {
            assert(ns[i as int] == self.entries@[i as int].0@);
            i = i + 1;
        }
        proof {
            assert forall|k: int| i <= k < ns.len() implies !text_lt(#[trigger] ns[k], name@) by {
                if k > i {
                    assert(text_lt(ns[i as int], ns[k]));
                    lemma_text_total(ns[i as int], ns[k]);
                    lemma_text_order(ns[k], ns[i as int], name@);
                }
            }
            if self.has(name@) {
                let k = choose|k: int| 0 <= k < ns.len() && ns[k] == name@;
                lemma_text_total(ns[k], name@);
                if k < i {
                    assert(text_lt(ns[k], name@));
                } else if k > i {
                    assert(text_lt(ns[i as int], ns[k]));
                }
            }
            if i < self.entries@.len() {
                assert(ns[i as int] == self.entries@[i as int].0@);
            }
        }
        i
    }

    /// Whether there is an entry of this name.
    pub fn contains(&self, name: &str) -> (r: bool)
        ensures
            r == self.has(name@),
    {
        let i = self.find_slot(name);
        i < self.entries.len() && crate::text::same(&self.entries[i].0, name)
    }

    /// The entry of this name.
    pub fn get(&self, name: &str) -> (r: Option<&V>)
        ensures
            r is Some <==> self.has(name@),
            r is Some ==> exists|i: int|
                0 <= i < self.list().len() && (#[trigger] self.list()[i]).0@ == name@
                    && self.list()[i].1 == *r->0,
            r is Some ==> *r->0 == self.table()[name@],
    {
        proof {
            use_type_invariant(self);
        }
        let i = self.find_slot(name);
        if i < self.entries.len() && crate::text::same(&self.entries[i].0, name) {
            assert(self.list()[i as int].0@ == name@);
            proof {
                lemma_place(self.names(), i as int);
            }
            Some(&self.entries[i].1)
        } else {
            None
        }
    }

    /// Where the entry of this name is.
    pub fn position(&self, name: &str) -> (r: Option<usize>)
        ensures
            r is Some <==> self.has(name@),
            r is Some ==> r->0 < self.list().len() && self.list()[r->0 as int].0@ == name@,
    {
        let i = self.find_slot(name);
        if i < self.entries.len() && crate::text::same(&self.entries[i].0, name) {
            Some(i)
        } else {
            None
        }
    }

    /// The registry without the entry at a place, and that entry.
    pub fn take_at(self, i: usize) -> (r: (Registry<V>, (String, V)))
        requires
            i < self.list().len(),
        ensures
            r.0.list() == self.list().remove(i as int),
            r.1 == self.list()[i as int],
            r.0.table() == self.table().remove(self.names()[i as int]),
            r.1.1 == self.table()[self.names()[i as int]],
    {
        proof {
            use_type_invariant(&self);
        }
        let ghost old_list = self.entries@;
        let ghost ns = names_of(old_list);
        let mut entries = self.entries;
        let e = entries.remove(i);
        proof {
            let ms = names_of(entries@);
            assert forall|a: int, b: int| 0 <= a < b < ms.len() implies text_lt(
                #[trigger] ms[a],
                #[trigger] ms[b],
            ) by {
                let x = if a < i {
                    a
                } else {
                    a + 1
                };
                let y = if b < i {
                    b
                } else {
                    b + 1
                };
                assert(ms[a] == ns[x] && ms[b] == ns[y]);
            }
        }
        let rest = Registry { entries };
        proof {
            let ms = rest.names();
            assert(ms =~= ns.remove(i as int));
            lemma_place(ns, i as int);
            assert forall|n: Seq<char>| ms.contains(n) <==> ns.contains(n) && n != ns[i as int] by {
                if ms.contains(n) {
                    let k = choose|k: int| 0 <= k < ms.len() && ms[k] == n;
                    let x = if k < i {
                        k
                    } else {
                        k + 1
                    };
                    assert(ns[x] == n);
                    lemma_place(ns, x);
                }
                if ns.contains(n) && n != ns[i as int] {
                    let x = choose|x: int| 0 <= x < ns.len() && ns[x] == n;
                    let k = if x < i {
                        x
                    } else {
                        x - 1
                    };
                    assert(ms[k] == n);
                }
            }
            assert forall|n: Seq<char>| ms.contains(n) implies rest.table()[n] == self.table()[n] by {
                let k = choose|k: int| 0 <= k < ms.len() && ms[k] == n;
                let x = if k < i {
                    k
                } else {
                    k + 1
                };
                lemma_place(ms, k);
                assert(ns[x] == n);
                lemma_place(ns, x);
            }
            assert(rest.table() =~= self.table().remove(ns[i as int]));
        }
        (rest, e)
    }

    /// The name at a place in the order.
    pub fn name_at(&self, i: usize) -> (r: &String)
        requires
            i < self.list().len(),
        ensures
            *r == self.list()[i as int].0,
    {
        &self.entries[i].0
    }

    /// The entry at a place in the order.
    pub fn value_at(&self, i: usize) -> (r: &V)
        requires
            i < self.list().len(),
        ensures
            *r == self.list()[i as int].1,
    {
        &self.entries[i].1
    }

    /// The names, in order.
    pub fn keys(&self) -> (r: Vec<String>)
        ensures
            strs(r@) == self.names(),
            ascending(self.names()),
    {
        proof {
            use_type_invariant(self);
        }
        let mut out: Vec<String> = Vec::new();
        let mut i: usize = 0;
        while i < self.entries.len()
            invariant
                i <= self.entries@.len(),
                out@.len() == i,
                forall|k: int| 0 <= k < i ==> (#[trigger] out@[k])@ == self.entries@[k].0@,
            decreases self.entries.len() - i,
        {
            out.push(self.entries[i].0.clone());
            i = i + 1;
        }
        assert(strs(out@) =~= self.names());
        out
    }

    /// The registry with an entry of this name: a new one, or in place of the one
    /// there was.
    pub fn insert(self, name: String, value: V) -> (r: Registry<V>)
        ensures
            exists|i: int|
                Self::slot(self.names(), name@, i) && r.list() == #[trigger] Self::with_entry(
                    self.list(),
                    name,
                    value,
                    i,
                ),
            r.table() == self.table().insert(name@, value),
    {
        proof {
            use_type_invariant(&self);
        }
        let i = self.find_slot(&name);
        let ghost old_list = self.entries@;
        let ghost ns = names_of(old_list);
        let mut entries = self.entries;
        let replaces = i < entries.len() && crate::text::same(&entries[i].0, &name);
        let ghost target = Self::with_entry(old_list, name, value, i as int);
        if replaces {
            entries.set(i, (name, value));
        } else {
            entries.insert(i, (name, value));
        }
        proof {
            assert(entries@ =~= target);
            let ms = names_of(entries@);
            assert forall|a: int, b: int| 0 <= a < b < ms.len() implies text_lt(
                #[trigger] ms[a],
                #[trigger] ms[b],
            ) by {
                if replaces {
                    assert(ms[a] == ns[a] && ms[b] == ns[b]);
                } else {
                    let x = if a < i {
                        a
                    } else {
                        a - 1
                    };
                    let y = if b < i {
                        b
                    } else {
                        b - 1
                    };
                    if a != i {
                        assert(ms[a] == ns[x]);
                    }
                    if b != i {
                        assert(ms[b] == ns[y]);
                    }
                    if a == i {
                        lemma_text_total(ns[y], name@);
                        if y > i {
                            assert(text_lt(ns[i as int], ns[y]));
                            lemma_text_total(ns[i as int], name@);
                            if ns[y] == name@ {
                                lemma_text_total(ns[i as int], ns[y]);
                            }
                        } else {
                            assert(ns[i as int] == old_list[i as int].0@);
                        }
                    }
                }
            }
        }
        let r = Registry { entries };
        proof {
            let ms = r.names();
            assert forall|n: Seq<char>| r.has(n) <==> self.has(n) || n == name@ by {
                lemma_insert_names(old_list, name, value, i as int, n);
            }
            assert(ms[i as int] == name@);
            lemma_place(ms, i as int);
            assert forall|n: Seq<char>| self.has(n) && n != name@ implies r.table()[n]
                == self.table()[n] by {
                let x = choose|x: int| 0 <= x < ns.len() && ns[x] == n;
                lemma_place(ns, x);
                let k = if replaces || x < i {
                    x
                } else {
                    x + 1
                };
                assert(ms[k] == n);
                lemma_place(ms, k);
            }
            assert(r.table() =~= self.table().insert(name@, value));
        }
        r
    }
}

/// A name is in a registry after an insertion exactly where it was before or is the
/// name inserted.
pub proof fn lemma_insert_names<V>(
    list: Seq<(String, V)>,
    name: String,
    value: V,
    i: int,
    other: Seq<char>,
)
    requires
        Registry::<V>::slot(names_of(list), name@, i),
    ensures
        names_of(Registry::<V>::with_entry(list, name, value, i)).contains(other) <==> names_of(
            list,
        ).contains(other) || other == name@,
{
    let a = names_of(list);
    let t = Registry::<V>::with_entry(list, name, value, i);
    let b = names_of(t);
    if i < list.len() && list[i].0@ == name@ {
        assert(b =~= a);
        assert(a[i] == name@);
    } else {
        assert(b[i] == name@);
        if a.contains(other) {
            let k = choose|k: int| 0 <= k < a.len() && a[k] == other;
            if k < i {
                assert(b[k] == other);
            } else {
                assert(b[k + 1] == other);
            }
        }
        if b.contains(other) && other != name@ {
            let k = choose|k: int| 0 <= k < b.len() && b[k] == other;
            if k < i {
                assert(a[k] == other);
            } else {
                assert(a[k - 1] == other);
            }
        }
    }
}

/// An insertion leaves every other entry as it was.
pub proof fn insertion_keeps_the_others<V>(
    list: Seq<(String, V)>,
    name: String,
    value: V,
    i: int,
    k: int,
)
    requires
        Registry::<V>::slot(names_of(list), name@, i),
        0 <= k < list.len(),
        list[k].0@ != name@,
    ensures
        Registry::<V>::with_entry(list, name, value, i).contains(list[k]),
{
    let t = Registry::<V>::with_entry(list, name, value, i);
    if i < list.len() && list[i].0@ == name@ {
        assert(t[k] == list[k]);
    } else if k < i {
        assert(t[k] == list[k]);
    } else {
        assert(t[k + 1] == list[k]);
    }
}

} // verus!
