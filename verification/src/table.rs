//! A small map from keys made of texts, kept in insertion order.

use vstd::prelude::*;

verus! {

/// A key of a [`Table`]: compared by what it denotes.
pub trait TableKey {
    /// What a key denotes.
    type Id;

    /// What this key denotes.
    spec fn id(&self) -> Self::Id;

    /// Whether two keys denote the same.
    fn same(&self, other: &Self) -> (r: bool)
        ensures
            r == (self.id() == other.id()),
    ;
}

/// A map from keys to values.
#[derive(Debug)]
pub struct Table<K, V> {
    pub entries: Vec<(K, V)>,
}

/// The position of the entry with this key.
pub open spec fn holds<K: TableKey, V>(entries: Seq<(K, V)>, i: int, id: K::Id) -> bool {
    0 <= i < entries.len() && entries[i].0.id() == id
}

impl<K: TableKey, V> Table<K, V> {
    /// No key occurs twice.
    pub open spec fn wf(&self) -> bool {
        forall|i: int, j: int|
            0 <= i < j < self.entries@.len() ==> self.entries@[i].0.id() != self.entries@[j].0.id()
    }

    /// What each key maps to.
    pub open spec fn view(&self) -> Map<K::Id, V> {
        Map::new(
            |id: K::Id| exists|i: int| #[trigger] holds(self.entries@, i, id),
            |id: K::Id| self.entries@[choose|i: int| #[trigger] holds(self.entries@, i, id)].1,
        )
    }

    /// The values, oldest key first.
    pub open spec fn values(&self) -> Seq<V> {
        self.entries@.map_values(|e: (K, V)| e.1)
    }

    proof fn lemma_entry(&self, i: int)
        requires
            self.wf(),
            0 <= i < self.entries@.len(),
        ensures
            self@.dom().contains(self.entries@[i].0.id()),
            self@[self.entries@[i].0.id()] == self.entries@[i].1,
    {
        let id = self.entries@[i].0.id();
        assert(holds(self.entries@, i, id));
        let j = choose|j: int| #[trigger] holds(self.entries@, j, id);
        assert(holds(self.entries@, j, id));
        if i < j {
            assert(self.entries@[i].0.id() != self.entries@[j].0.id());
        } else if j < i {
            assert(self.entries@[j].0.id() != self.entries@[i].0.id());
        }
    }

    /// The empty table.
    pub fn new() -> (r: Table<K, V>)
        ensures
            r.wf(),
            r@ == Map::<K::Id, V>::empty(),
            r.entries@.len() == 0,
    {
        let r = Table { entries: Vec::new() };
        assert(r@ =~= Map::<K::Id, V>::empty());
        r
    }

    fn position(&self, key: &K) -> (r: Option<usize>)
        requires
            self.wf(),
        ensures
            match r {
                Some(i) => holds(self.entries@, i as int, key.id()),
                None => !self@.dom().contains(key.id()),
            },
    {
        let mut i: usize = 0;
        while i < self.entries.len()
            invariant
                i <= self.entries@.len(),
                forall|j: int| 0 <= j < i ==> self.entries@[j].0.id() != key.id(),
            decreases self.entries@.len() - i,
        {
            if self.entries[i].0.same(key) {
                return Some(i);
            }
            i = i + 1;
        }
        None
    }

    /// What a key maps to.
    pub fn get(&self, key: &K) -> (r: Option<&V>)
        requires
            self.wf(),
        ensures
            match r {
                Some(v) => self@.dom().contains(key.id()) && self@[key.id()] == *v,
                None => !self@.dom().contains(key.id()),
            },
    {
        match self.position(key) {
            Some(i) => {
                proof {
                    self.lemma_entry(i as int);
                }
                Some(&self.entries[i].1)
            },
            None => None,
        }
    }

    /// Maps a key to a value, in place of what it mapped to.
    pub fn insert(&mut self, key: K, value: V)
        requires
            old(self).wf(),
        ensures
            final(self).wf(),
            final(self)@ == old(self)@.insert(key.id(), value),
    {
        let at = self.position(&key);
        let ghost id = key.id();
        let ghost before = *self;
        match at {
            Some(i) => {
                self.entries[i] = (key, value);
                proof {
                    assert forall|k: K::Id| #[trigger] self@.dom().contains(k) == before@.insert(id, value).dom().contains(k) by {
                        if self@.dom().contains(k) {
                            let j = choose|j: int| #[trigger] holds(self.entries@, j, k);
                            assert(holds(before.entries@, j, k));
                        }
                        if before@.dom().contains(k) {
                            let j = choose|j: int| #[trigger] holds(before.entries@, j, k);
                            assert(holds(self.entries@, j, k));
                        }
                        if k == id {
                            assert(holds(self.entries@, i as int, k));
                        }
                    }
                    assert forall|k: K::Id| #[trigger] self@.dom().contains(k) implies self@[k] == before@.insert(id, value)[k] by {
                        let j = choose|j: int| #[trigger] holds(self.entries@, j, k);
                        self.lemma_entry(j);
                        before.lemma_entry(j);
                        if k == id {
                            self.lemma_entry(i as int);
                        }
                    }
                }
            },
            None => {
                self.entries.push((key, value));
                proof {
                    let n = before.entries@.len() as int;
                    assert forall|i: int, j: int| 0 <= i < j < self.entries@.len() implies self.entries@[i].0.id()
                        != self.entries@[j].0.id() by {
                        if j == n {
                            assert(holds(before.entries@, i, before.entries@[i].0.id()));
                        }
                    }
                    assert forall|k: K::Id| #[trigger] self@.dom().contains(k) == before@.insert(id, value).dom().contains(k) by {
                        if self@.dom().contains(k) {
                            let j = choose|j: int| #[trigger] holds(self.entries@, j, k);
                            if j < n {
                                assert(holds(before.entries@, j, k));
                            }
                        }
                        if before@.dom().contains(k) {
                            let j = choose|j: int| #[trigger] holds(before.entries@, j, k);
                            assert(holds(self.entries@, j, k));
                        }
                        if k == id {
                            assert(holds(self.entries@, n, k));
                        }
                    }
                    assert forall|k: K::Id| #[trigger] self@.dom().contains(k) implies self@[k] == before@.insert(id, value)[k] by {
                        let j = choose|j: int| #[trigger] holds(self.entries@, j, k);
                        self.lemma_entry(j);
                        if j < n {
                            before.lemma_entry(j);
                        }
                        if k == id {
                            self.lemma_entry(n);
                        }
                    }
                }
            },
        }
        assert(self@ =~= before@.insert(id, value));
    }

    /// Forgets a key, and returns what it mapped to.
    pub fn remove(&mut self, key: &K) -> (r: Option<V>)
        requires
            old(self).wf(),
        ensures
            final(self).wf(),
            final(self)@ == old(self)@.remove(key.id()),
            match r {
                Some(v) => old(self)@.dom().contains(key.id()) && old(self)@[key.id()] == v,
                None => !old(self)@.dom().contains(key.id()),
            },
    {
        let ghost before = *self;
        let ghost id = key.id();
        match self.position(key) {
            Some(i) => {
                let (_, v) = self.entries.remove(i);
                proof {
                    before.lemma_entry(i as int);
                    assert forall|a: int, b: int| 0 <= a < b < self.entries@.len() implies self.entries@[a].0.id()
                        != self.entries@[b].0.id() by {
                        let x = if a < i { a } else { a + 1 };
                        let y = if b < i { b } else { b + 1 };
                        assert(before.entries@[x].0.id() != before.entries@[y].0.id());
                    }
                    assert forall|k: K::Id| #[trigger] self@.dom().contains(k) == before@.remove(id).dom().contains(k) by {
                        if self@.dom().contains(k) {
                            let j = choose|j: int| #[trigger] holds(self.entries@, j, k);
                            let x = if j < i { j } else { j + 1 };
                            assert(holds(before.entries@, x, k));
                            if x < i {
                                assert(before.entries@[x].0.id() != before.entries@[i as int].0.id());
                            } else {
                                assert(before.entries@[i as int].0.id() != before.entries@[x].0.id());
                            }
                        }
                        if before@.dom().contains(k) && k != id {
                            let j = choose|j: int| #[trigger] holds(before.entries@, j, k);
                            let x = if j < i { j } else { j - 1 };
                            assert(holds(self.entries@, x, k));
                        }
                    }
                    assert forall|k: K::Id| #[trigger] self@.dom().contains(k) implies self@[k] == before@.remove(id)[k] by {
                        let j = choose|j: int| #[trigger] holds(self.entries@, j, k);
                        self.lemma_entry(j);
                        let x = if j < i { j } else { j + 1 };
                        before.lemma_entry(x);
                    }
                    assert(self@ =~= before@.remove(id));
                }
                Some(v)
            },
            None => {
                assert(self@ =~= before@.remove(id));
                None
            },
        }
    }
}

} // verus!
