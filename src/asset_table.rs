//! A table keyed by asset identifier, with at most one entry per asset;
//! prices and vault balances are both kept in one.

use vstd::prelude::*;
use crate::asset::AssetId;

verus! {

pub struct AssetTable<V: Copy> {
    entries: Vec<(AssetId, V)>,
}

impl<V: Copy> View for AssetTable<V> {
    type V = Map<AssetId, V>;

    closed spec fn view(&self) -> Map<AssetId, V> {
        Map::new(
            |k: AssetId| exists|i: int| 0 <= i < self.entries@.len() && self.entries@[i].0 == k,
            |k: AssetId|
                self.entries@[choose|i: int|
                    0 <= i < self.entries@.len() && self.entries@[i].0 == k].1,
        )
    }
}

impl<V: Copy> AssetTable<V> {
    /// No asset has two entries.
    pub closed spec fn wf(&self) -> bool {
        forall|i: int, j: int|
            0 <= i < self.entries@.len() && 0 <= j < self.entries@.len() && i != j
                ==> self.entries@[i].0 != self.entries@[j].0
    }

    pub fn new() -> (r: AssetTable<V>)
        ensures
            r.wf(),
            r@ == Map::<AssetId, V>::empty(),
    {
        let r = AssetTable { entries: Vec::new() };
        assert(r@ =~= Map::<AssetId, V>::empty());
        r
    }

    fn find(&self, key: AssetId) -> (r: Option<usize>)
        ensures
            match r {
                Some(i) => i < self.entries@.len() && self.entries@[i as int].0 == key,
                None => forall|i: int|
                    0 <= i < self.entries@.len() ==> self.entries@[i].0 != key,
            },
    {
        let mut i: usize = 0;
        while i < self.entries.len()
            invariant
                i <= self.entries@.len(),
                forall|j: int| 0 <= j < i ==> self.entries@[j].0 != key,
            decreases self.entries@.len() - i,
        {
            if self.entries[i].0 == key {
                return Some(i);
            }
            i = i + 1;
        }
        None
    }

    proof fn lemma_entry(&self, i: int)
        requires
            self.wf(),
            0 <= i < self.entries@.len(),
        ensures
            self@.contains_key(self.entries@[i].0),
            self@[self.entries@[i].0] == self.entries@[i].1,
    {
        let k = self.entries@[i].0;
        assert(self@.contains_key(k));
        let j = choose|j: int| 0 <= j < self.entries@.len() && self.entries@[j].0 == k;
        assert(j == i);
    }

    /// The entry for `key`, if there is one.
    pub fn get(&self, key: AssetId) -> (r: Option<V>)
        requires
            self.wf(),
        ensures
            r == (if self@.contains_key(key) {
                Some(self@[key])
            } else {
                None
            }),
    {
        match self.find(key) {
            Some(i) => {
                proof {
                    self.lemma_entry(i as int);
                }
                Some(self.entries[i].1)
            },
            None => {
                assert(!self@.contains_key(key));
                None
            },
        }
    }

    /// Whether `key` has an entry.
    pub fn contains(&self, key: AssetId) -> (r: bool)
        requires
            self.wf(),
        ensures
            r == self@.contains_key(key),
    {
        match self.find(key) {
            Some(i) => {
                proof {
                    self.lemma_entry(i as int);
                }
                true
            },
            None => false,
        }
    }

    /// Sets the entry for `key` to `value`, replacing any earlier one.
    pub fn insert(&mut self, key: AssetId, value: V)
        requires
            old(self).wf(),
        ensures
            final(self).wf(),
            final(self)@ == old(self)@.insert(key, value),
    {
        let ghost before = *self;
        match self.find(key) {
            Some(i) => {
                self.entries.set(i, (key, value));
                proof {
                    assert(self.wf());
                    assert forall|k: AssetId| #[trigger]
                        self@.contains_key(k) == before@.insert(key, value).contains_key(k) by {
                        if before@.contains_key(k) {
                            let j = choose|j: int|
                                0 <= j < before.entries@.len() && before.entries@[j].0 == k;
                            assert(self.entries@[j].0 == k);
                        }
                        if k == key {
                            assert(self.entries@[i as int].0 == k);
                        }
                    }
                    assert forall|k: AssetId| #[trigger] self@.contains_key(k) implies self@[k]
                        == before@.insert(key, value)[k] by {
                        let j = choose|j: int|
                            0 <= j < self.entries@.len() && self.entries@[j].0 == k;
                        self.lemma_entry(j);
                        if j != i {
                            before.lemma_entry(j);
                        }
                    }
                    assert(self@ =~= before@.insert(key, value));
                }
            },
            None => {
                self.entries.push((key, value));
                proof {
                    let n = before.entries@.len() as int;
                    assert(self.wf());
                    assert forall|k: AssetId| #[trigger]
                        self@.contains_key(k) == before@.insert(key, value).contains_key(k) by {
                        if before@.contains_key(k) {
                            let j = choose|j: int|
                                0 <= j < before.entries@.len() && before.entries@[j].0 == k;
                            assert(self.entries@[j].0 == k);
                        }
                        if k == key {
                            assert(self.entries@[n].0 == k);
                        }
                        if self@.contains_key(k) && k != key {
                            let j = choose|j: int|
                                0 <= j < self.entries@.len() && self.entries@[j].0 == k;
                            assert(before.entries@[j].0 == k);
                        }
                    }
                    assert forall|k: AssetId| #[trigger] self@.contains_key(k) implies self@[k]
                        == before@.insert(key, value)[k] by {
                        let j = choose|j: int|
                            0 <= j < self.entries@.len() && self.entries@[j].0 == k;
                        self.lemma_entry(j);
                        if j != n {
                            before.lemma_entry(j);
                        }
                    }
                    assert(self@ =~= before@.insert(key, value));
                }
            },
        }
    }
}

} // verus!
