//! The shoulder registry: a read-only map from shoulder names to their
//! routing and minting configuration, built once at configuration load.
//!
//! The registry is a vector of name/configuration pairs with unique names;
//! lookup compares names character by character.

use vstd::prelude::*;

use crate::shoulder::Shoulder;
use crate::text::str_eq;

verus! {

/// Index of the first entry named `name`, at or after `from`.
pub open spec fn registry_index_of(
    entries: Seq<(Seq<char>, Shoulder)>,
    name: Seq<char>,
    from: int,
) -> Option<int>
    decreases entries.len() - from when 0 <= from <= entries.len()
{
    if from >= entries.len() {
        None
    } else if entries[from].0 == name {
        Some(from)
    } else {
        registry_index_of(entries, name, from + 1)
    }
}

/// What `registry_index_of` returns.
pub proof fn lemma_registry_index_of(
    entries: Seq<(Seq<char>, Shoulder)>,
    name: Seq<char>,
    from: int,
)
    requires
        0 <= from <= entries.len(),
    ensures
        match registry_index_of(entries, name, from) {
            Some(j) => from <= j < entries.len() && entries[j].0 == name && (forall|k: int|
                from <= k < j ==> entries[k].0 != name),
            None => forall|k: int| from <= k < entries.len() ==> entries[k].0 != name,
        },
    decreases entries.len() - from,
{
    if from < entries.len() && entries[from].0 != name {
        lemma_registry_index_of(entries, name, from + 1);
    }
}

/// A read-only map from shoulder names to shoulder configurations.
#[derive(Debug, Clone)]
pub struct ShoulderRegistry {
    entries: Vec<(String, Shoulder)>,
}

impl ShoulderRegistry {
    /// The registry's entries as name/configuration pairs, in insertion
    /// order.
    pub closed spec fn spec_entries(&self) -> Seq<(Seq<char>, Shoulder)> {
        Seq::new(self.entries@.len(), |i: int| (self.entries@[i].0@, self.entries@[i].1))
    }

    /// Names are unique: no two entries share a name.
    pub open spec fn wf(&self) -> bool {
        forall|i: int, j: int|
            0 <= i < j < self.spec_entries().len() ==> self.spec_entries()[i].0
                != self.spec_entries()[j].0
    }

    /// The configuration registered under `name`, if any.
    pub open spec fn spec_get(&self, name: Seq<char>) -> Option<Shoulder> {
        match registry_index_of(self.spec_entries(), name, 0) {
            Some(i) => Some(self.spec_entries()[i].1),
            None => None,
        }
    }

    /// A name is registered.
    pub open spec fn spec_contains(&self, name: Seq<char>) -> bool {
        self.spec_get(name) is Some
    }

    /// An empty registry.
    pub fn new() -> (r: ShoulderRegistry)
        ensures
            r.spec_entries() == Seq::<(Seq<char>, Shoulder)>::empty(),
            r.wf(),
    {
        let r = ShoulderRegistry { entries: Vec::new() };
        proof {
            assert(r.spec_entries() =~= Seq::<(Seq<char>, Shoulder)>::empty());
        }
        r
    }

    /// The number of registered shoulders.
    pub fn len(&self) -> (n: usize)
        ensures
            n == self.spec_entries().len(),
    {
        self.entries.len()
    }

    /// The entry at a position, in insertion order.
    pub fn entry_at(&self, i: usize) -> (r: &(String, Shoulder))
        requires
            i < self.spec_entries().len(),
        ensures
            r.0@ == self.spec_entries()[i as int].0,
            r.1 == self.spec_entries()[i as int].1,
    {
        &self.entries[i]
    }

    /// Index of the entry named `name`, executable form.
    fn find_index(&self, name: &str) -> (r: Option<usize>)
        ensures
            match r {
                Some(j) => Some(j as int) == registry_index_of(self.spec_entries(), name@, 0),
                None => registry_index_of(self.spec_entries(), name@, 0) is None,
            },
    {
        let n = self.entries.len();
        let mut i: usize = 0;
        while i < n
            invariant
                i <= n == self.spec_entries().len(),
                registry_index_of(self.spec_entries(), name@, 0) == registry_index_of(
                    self.spec_entries(),
                    name@,
                    i as int,
                ),
            decreases n - i,
        {
            if str_eq(self.entries[i].0.as_str(), name) {
                return Some(i);
            }
            i = i + 1;
        }
        None
    }

    /// Look up the configuration registered under a shoulder name.
    pub fn get(&self, name: &str) -> (r: Option<&Shoulder>)
        ensures
            match r {
                Some(s) => self.spec_get(name@) == Some(*s),
                None => self.spec_get(name@) is None,
            },
    {
        match self.find_index(name) {
            Some(i) => {
                proof {
                    lemma_registry_index_of(self.spec_entries(), name@, 0);
                }
                Some(&self.entries[i].1)
            },
            None => None,
        }
    }

    /// Register a configuration under a name, replacing any existing entry
    /// of that name.
    pub fn insert(&mut self, name: String, config: Shoulder)
        requires
            old(self).wf(),
        ensures
            final(self).wf(),
            final(self).spec_get(name@) == Some(config),
            forall|other: Seq<char>|
                other != name@ ==> final(self).spec_get(other) == old(self).spec_get(other),
            final(self).spec_entries().len() == if old(self).spec_contains(name@) {
                old(self).spec_entries().len() as int
            } else {
                old(self).spec_entries().len() + 1 as int
            },
    {
        proof {
            lemma_registry_index_of(self.spec_entries(), name@, 0);
        }
        match self.find_index(name.as_str()) {
            Some(i) => {
                let ghost before = self.spec_entries();
                self.entries[i] = (name, config);
                proof {
                    assert(self.spec_entries() =~= before.update(
                        i as int,
                        (before[i as int].0, config),
                    ));
                    lemma_registry_update(before, i as int, config, name@);
                    assert(forall|k: int|
                        0 <= k < before.len() ==> self.spec_entries()[k].0 == before[k].0);
                    assert(self.wf());
                    assert forall|other: Seq<char>| other != name@ implies self.spec_get(other)
                        == old(self).spec_get(other) by {
                        lemma_registry_update(before, i as int, config, other);
                        lemma_registry_index_of(before, other, 0);
                        lemma_registry_index_of(self.spec_entries(), other, 0);
                    }
                }
            },
            None => {
                let ghost before = self.spec_entries();
                self.entries.push((name, config));
                proof {
                    assert(self.spec_entries() =~= before.push((name@, config)));
                    lemma_registry_push(before, name@, config, name@);
                    assert(forall|k: int| 0 <= k < before.len() ==> before[k].0 != name@);
                    assert forall|other: Seq<char>| other != name@ implies self.spec_get(other)
                        == old(self).spec_get(other) by {
                        lemma_registry_push(before, name@, config, other);
                        lemma_registry_index_of(before, other, 0);
                        lemma_registry_index_of(self.spec_entries(), other, 0);
                    }
                    assert forall|p: int, q: int|
                        0 <= p < q < self.spec_entries().len() implies self.spec_entries()[p].0
                        != self.spec_entries()[q].0 by {
                        if q < before.len() {
                        } else {
                            assert(self.spec_entries()[q].0 == name@);
                            assert(self.spec_entries()[p].0 == before[p].0);
                        }
                    }
                }
            },
        }
    }
}

/// Replacing the configuration at the unique index of a name keeps every
/// other lookup unchanged.
proof fn lemma_registry_update(
    entries: Seq<(Seq<char>, Shoulder)>,
    i: int,
    config: Shoulder,
    other: Seq<char>,
)
    requires
        0 <= i < entries.len(),
        registry_index_of(entries, entries[i].0, 0) == Some(i),
    ensures
        ({
            let updated = entries.update(i, (entries[i].0, config));
            &&& registry_index_of(updated, entries[i].0, 0) == Some(i)
            &&& other != entries[i].0 ==> registry_index_of(updated, other, 0)
                == registry_index_of(entries, other, 0)
        }),
{
    let name = entries[i].0;
    let updated = entries.update(i, (name, config));
    lemma_registry_index_of(entries, name, 0);
    lemma_registry_index_of(updated, name, 0);
    assert(updated[i].0 == name);
    assert(forall|k: int| 0 <= k < entries.len() ==> updated[k].0 == entries[k].0);
    match registry_index_of(updated, name, 0) {
        Some(j) => {
            if j < i {
                assert(updated[j].0 == name);
                assert(entries[j].0 == name);
                assert(false);
            } else if j > i {
                assert(updated[i].0 != name);
                assert(false);
            }
        },
        None => {
            assert(updated[i].0 != name);
            assert(false);
        },
    }
    if other != name {
        lemma_registry_index_same(entries, updated, other, 0);
    }
}

/// Two entry sequences of equal length whose names agree pointwise index a
/// name identically, and agree on the looked-up entry wherever the names
/// also carry the same configuration.
proof fn lemma_registry_index_same(
    a: Seq<(Seq<char>, Shoulder)>,
    b: Seq<(Seq<char>, Shoulder)>,
    name: Seq<char>,
    from: int,
)
    requires
        a.len() == b.len(),
        0 <= from <= a.len(),
        forall|k: int| 0 <= k < a.len() ==> a[k].0 == b[k].0,
    ensures
        registry_index_of(a, name, from) == registry_index_of(b, name, from),
    decreases a.len() - from,
{
    if from < a.len() && a[from].0 != name {
        lemma_registry_index_same(a, b, name, from + 1);
    }
}

/// Appending an entry with a fresh name leaves other lookups unchanged and
/// makes the new name found at the end.
proof fn lemma_registry_push(
    entries: Seq<(Seq<char>, Shoulder)>,
    name: Seq<char>,
    config: Shoulder,
    other: Seq<char>,
)
    requires
        registry_index_of(entries, name, 0) is None,
    ensures
        ({
            let pushed = entries.push((name, config));
            &&& registry_index_of(pushed, name, 0) == Some(entries.len() as int)
            &&& other != name ==> registry_index_of(pushed, other, 0) == registry_index_of(
                entries,
                other,
                0,
            )
        }),
{
    let pushed = entries.push((name, config));
    lemma_registry_index_of(entries, name, 0);
    lemma_registry_index_of(pushed, name, 0);
    match registry_index_of(pushed, name, 0) {
        Some(j) => {
            if j != entries.len() {
                assert(entries[j].0 == name);
                assert(false);
            }
        },
        None => {
            assert(pushed[entries.len() as int].0 == name);
            assert(false);
        },
    }
    if other != name {
        lemma_registry_push_other(entries, name, config, other, 0);
    }
}

/// Lookup of a different name ignores a pushed entry.
proof fn lemma_registry_push_other(
    entries: Seq<(Seq<char>, Shoulder)>,
    name: Seq<char>,
    config: Shoulder,
    other: Seq<char>,
    from: int,
)
    requires
        0 <= from <= entries.len(),
        other != name,
    ensures
        registry_index_of(entries.push((name, config)), other, from) == registry_index_of(
            entries,
            other,
            from,
        ),
    decreases entries.len() - from,
{
    let pushed = entries.push((name, config));
    if from < entries.len() {
        assert(pushed[from].0 == entries[from].0);
        if entries[from].0 != other {
            lemma_registry_push_other(entries, name, config, other, from + 1);
        }
    } else {
        assert(pushed[from].0 == name);
        assert(registry_index_of(pushed, other, from + 1) is None);
        assert(registry_index_of(entries, other, from) is None);
    }
}

} // verus!
