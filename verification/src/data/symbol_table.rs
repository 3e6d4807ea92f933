//! A small map from symbols to values, kept as a vector of distinct keys
//! (lookups compare symbols by value, so the map's meaning does not depend
//! on any hash function).
use super::types::SymbolId;
use vstd::prelude::*;

verus! {

/// The map that `entries` denotes: later entries override earlier ones
/// (with distinct keys, no entry is ever overridden).
pub open spec fn entries_map<V>(entries: Seq<(SymbolId, V)>) -> Map<Seq<char>, V>
    decreases entries.len(),
{
    if entries.len() == 0 {
        Map::empty()
    } else {
        entries_map(entries.drop_last()).insert(entries.last().0@, entries.last().1)
    }
}

/// No two entries share a key.
pub open spec fn distinct_keys<V>(entries: Seq<(SymbolId, V)>) -> bool {
    forall|i: int, j: int|
        0 <= i < entries.len() && 0 <= j < entries.len() && i != j ==> entries[i].0@ != entries[j].0@
}

proof fn lemma_map_domain<V>(entries: Seq<(SymbolId, V)>, k: Seq<char>)
    ensures
        entries_map(entries).dom().contains(k) <==> exists|i: int|
            0 <= i < entries.len() && #[trigger] entries[i].0@ == k,
    decreases entries.len(),
{
    if entries.len() > 0 {
        let prev = entries.drop_last();
        lemma_map_domain(prev, k);
        if entries_map(prev).dom().contains(k) {
            let i = choose|i: int| 0 <= i < prev.len() && #[trigger] prev[i].0@ == k;
            assert(entries[i].0@ == k);
        }
        if exists|i: int| 0 <= i < entries.len() && #[trigger] entries[i].0@ == k {
            let i = choose|i: int| 0 <= i < entries.len() && #[trigger] entries[i].0@ == k;
            if i < prev.len() {
                assert(prev[i].0@ == k);
            }
        }
    }
}

proof fn lemma_map_value<V>(entries: Seq<(SymbolId, V)>, i: int)
    requires
        distinct_keys(entries),
        0 <= i < entries.len(),
    ensures
        entries_map(entries).dom().contains(entries[i].0@),
        entries_map(entries)[entries[i].0@] == entries[i].1,
    decreases entries.len(),
{
    let prev = entries.drop_last();
    if i < entries.len() - 1 {
        assert(distinct_keys(prev));
        lemma_map_value(prev, i);
        assert(prev[i] == entries[i]);
    }
}

proof fn lemma_map_update<V>(entries: Seq<(SymbolId, V)>, i: int, v: V)
    requires
        distinct_keys(entries),
        0 <= i < entries.len(),
    ensures
        entries_map(entries.update(i, (entries[i].0, v))) == entries_map(entries).insert(
            entries[i].0@,
            v,
        ),
    decreases entries.len(),
{
    let k = entries[i].0@;
    let upd = entries.update(i, (entries[i].0, v));
    let prev = entries.drop_last();
    if i == entries.len() - 1 {
        assert(upd.drop_last() =~= prev);
        assert(!entries_map(prev).dom().contains(k)) by {
            lemma_map_domain(prev, k);
        }
        assert(entries_map(upd) =~= entries_map(entries).insert(k, v));
    } else {
        assert(distinct_keys(prev));
        lemma_map_update(prev, i, v);
        assert(upd.drop_last() =~= prev.update(i, (prev[i].0, v)));
        assert(entries.last().0@ != k);
        assert(entries_map(upd) =~= entries_map(entries).insert(k, v));
    }
}

/// `entries` after storing `v` for `k`: the value of `k`'s entry replaced
/// in place if there is one, else a new entry appended.
pub open spec fn entries_insert<V>(entries: Seq<(SymbolId, V)>, k: SymbolId, v: V) -> Seq<(SymbolId, V)> {
    if exists|i: int| 0 <= i < entries.len() && entries[i].0@ == k@ {
        let i = choose|i: int| 0 <= i < entries.len() && entries[i].0@ == k@;
        entries.update(i, (entries[i].0, v))
    } else {
        entries.push((k, v))
    }
}

/// A map from symbols to `V`.
#[derive(Debug)]
pub struct SymbolTable<V: Copy> {
    entries: Vec<(SymbolId, V)>,
}

impl<V: Copy> View for SymbolTable<V> {
    type V = Map<Seq<char>, V>;

    closed spec fn view(&self) -> Map<Seq<char>, V> {
        entries_map(self.entries@)
    }
}

impl<V: Copy> SymbolTable<V> {
    #[verifier::type_invariant]
    spec fn inv(&self) -> bool {
        distinct_keys(self.entries@)
    }

    /// The entries in insertion order.
    pub closed spec fn spec_entries(&self) -> Seq<(SymbolId, V)> {
        self.entries@
    }

    pub fn new() -> (r: Self)
        ensures
            r@ == Map::<Seq<char>, V>::empty(),
            r.spec_entries().len() == 0,
    {
        SymbolTable { entries: Vec::new() }
    }

    /// Index of the entry for `k`, if any.
    fn find(&self, k: &SymbolId) -> (r: Option<usize>)
        ensures
            r matches Some(i) ==> i < self.entries@.len() && self.entries@[i as int].0@ == k@,
            r is None ==> forall|i: int| 0 <= i < self.entries@.len() ==> self.entries@[i].0@ != k@,
    {
        let n = self.entries.len();
        let mut i: usize = 0;
        while i < n
            invariant
                n == self.entries@.len(),
                i <= n,
                forall|j: int| 0 <= j < i ==> self.entries@[j].0@ != k@,
            decreases n - i,
        {
            if self.entries[i].0.same_as(k) {
                return Some(i);
            }
            i = i + 1;
        }
        None
    }

    /// The value stored for `k`.
    pub fn get(&self, k: &SymbolId) -> (r: Option<V>)
        ensures
            r == (if self@.dom().contains(k@) {
                Some(self@[k@])
            } else {
                None
            }),
    {
        proof {
            use_type_invariant(self);
        }
        match self.find(k) {
            Some(i) => {
                proof {
                    lemma_map_value(self.entries@, i as int);
                }
                Some(self.entries[i].1)
            },
            None => {
                proof {
                    lemma_map_domain(self.entries@, k@);
                }
                None
            },
        }
    }

    /// Stores `v` for `k`, replacing any previous value.
    pub fn insert(&mut self, k: &SymbolId, v: V)
        ensures
            final(self)@ == old(self)@.insert(k@, v),
            final(self).spec_entries() == entries_insert(old(self).spec_entries(), *k, v),
    {
        proof {
            use_type_invariant(&*self);
        }
        match self.find(k) {
            Some(i) => {
                let ghost before = self.entries@;
                let key = self.entries[i].0.clone();
                let mut entries = Vec::new();
                std::mem::swap(&mut entries, &mut self.entries);
                entries.set(i, (key, v));
                proof {
                    let j = choose|j: int| 0 <= j < before.len() && before[j].0@ == k@;
                    assert(j == i);
                    lemma_map_update(before, i as int, v);
                    assert(entries@ =~= before.update(i as int, (before[i as int].0, v)));
                    assert(distinct_keys(entries@));
                }
                self.entries = entries;
            },
            None => {
                let ghost before = self.entries@;
                let mut entries = Vec::new();
                std::mem::swap(&mut entries, &mut self.entries);
                entries.push((k.clone(), v));
                proof {
                    assert(entries@.drop_last() =~= before);
                    lemma_map_domain(before, k@);
                    assert(distinct_keys(entries@));
                }
                self.entries = entries;
            },
        }
    }

    pub fn len(&self) -> (r: usize)
        ensures
            r == self.spec_entries().len(),
    {
        self.entries.len()
    }

    /// The `i`-th entry, in insertion order.
    pub fn entry(&self, i: usize) -> (r: (&SymbolId, V))
        requires
            i < self.spec_entries().len(),
        ensures
            *r.0 == self.spec_entries()[i as int].0,
            r.1 == self.spec_entries()[i as int].1,
    {
        (&self.entries[i].0, self.entries[i].1)
    }
}

} // verus!
