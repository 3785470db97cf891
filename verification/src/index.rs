//! An insertion-ordered index from a numeric key to a list of ids, the shape
//! every registry uses for its secondary indices (certificates per student,
//! students per course, tickets per user, requests per certificate).

use vstd::prelude::*;

use crate::seqs::{
    has_id, index_of_id, lemma_id_maps_preserved, lemma_id_maps_push, lemma_index_of_id_is,
    seq_without, uniq_ids, vec_without,
};

verus! {

/// The key of one index entry.
pub open spec fn entry_key() -> spec_fn((u64, Vec<u64>)) -> u64 {
    |e: (u64, Vec<u64>)| e.0
}

pub struct IdIndex {
    pub entries: Vec<(u64, Vec<u64>)>,
}

impl IdIndex {
    /// Keys occur at most once.
    pub open spec fn wf(self) -> bool {
        uniq_ids(self.entries@, entry_key())
    }

    pub open spec fn has_key(self, k: u64) -> bool {
        has_id(self.entries@, entry_key(), k)
    }

    /// The ids stored under `k`; an absent key stores nothing.
    pub open spec fn at(self, k: u64) -> Seq<u64> {
        if self.has_key(k) {
            self.entries@[index_of_id(self.entries@, entry_key(), k)].1@
        } else {
            Seq::empty()
        }
    }

    pub fn new() -> (r: IdIndex)
        ensures
            r.wf(),
            forall|k: u64| #[trigger] r.at(k) == Seq::<u64>::empty(),
    {
        let r = IdIndex { entries: Vec::new() };
        proof {
            assert(forall|k: u64| !(#[trigger] r.has_key(k)));
        }
        r
    }

    /// Position of the entry for `k`, if one exists.
    fn find(&self, k: u64) -> (r: Option<usize>)
        requires
            self.wf(),
        ensures
            match r {
                Some(i) => i < self.entries@.len() && self.entries@[i as int].0 == k
                    && self.has_key(k) && index_of_id(self.entries@, entry_key(), k) == i,
                None => !self.has_key(k),
            },
    {
        let mut i: usize = 0;
        while i < self.entries.len()
            invariant
                i <= self.entries@.len(),
                forall|j: int| 0 <= j < i ==> (#[trigger] self.entries@[j]).0 != k,
                self.wf(),
            decreases self.entries@.len() - i,
        {
            if self.entries[i].0 == k {
                proof {
                    assert(entry_key()(self.entries@[i as int]) == k);
                    lemma_index_of_id_is(self.entries@, entry_key(), k, i as int);
                }
                return Some(i);
            }
            i += 1;
        }
        proof {
            if self.has_key(k) {
                let j = choose|j: int|
                    0 <= j < self.entries@.len() && entry_key()(#[trigger] self.entries@[j]) == k;
                assert(self.entries@[j].0 != k);
            }
        }
        None
    }

    /// The list stored under `k`, copied out; empty when `k` is absent.
    pub fn get_list(&self, k: u64) -> (r: Vec<u64>)
        requires
            self.wf(),
        ensures
            r@ == self.at(k),
    {
        match self.find(k) {
            Some(i) => {
                let r = self.entries[i].1.clone();
                proof {
                    let ghost vals = self.entries@[i as int].1;
                    assert forall|j: int| 0 <= j < r@.len() implies r@[j] == vals@[j] by {
                        assert(cloned::<u64>(vals[j], r[j]));
                    }
                    assert(r@ =~= vals@);
                }
                r
            },
            None => Vec::new(),
        }
    }

    /// Appends `v` to the list stored under `k`, creating the entry if absent.
    pub fn push_value(&mut self, k: u64, v: u64)
        requires
            old(self).wf(),
        ensures
            final(self).wf(),
            final(self).at(k) == old(self).at(k).push(v),
            forall|k2: u64| k2 != k ==> #[trigger] final(self).at(k2) == old(self).at(k2),
    {
        let ghost prev = self.entries@;
        match self.find(k) {
            Some(i) => {
                let pair = self.entries.remove(i);
                let key = pair.0;
                let mut vals = pair.1;
                let ghost old_vals = vals@;
                vals.push(v);
                self.entries.insert(i, (key, vals));
                proof {
                    assert(self.entries@ =~= prev.update(i as int, self.entries@[i as int]));
                    assert(self.entries@[i as int].0 == k);
                    assert(self.entries@[i as int].1@ == old_vals.push(v));
                    lemma_id_maps_preserved(prev, self.entries@, entry_key());
                    lemma_index_of_id_is(self.entries@, entry_key(), k, i as int);
                    assert forall|k2: u64| k2 != k implies #[trigger] self.at(k2) == old(self).at(
                        k2,
                    ) by {
                        if old(self).has_key(k2) {
                            let j = index_of_id(prev, entry_key(), k2);
                            assert(0 <= j < prev.len() && prev[j].0 == k2);
                            assert(j != i);
                            assert(self.entries@[j] == prev[j]);
                        }
                    }
                }
            },
            None => {
                let mut vals: Vec<u64> = Vec::new();
                vals.push(v);
                self.entries.push((k, vals));
                proof {
                    assert(entry_key()((k, vals)) == k);
                    lemma_id_maps_push(prev, entry_key(), (k, vals));
                    assert(self.entries@ == prev.push((k, vals)));
                    assert(self.at(k) == vals@);
                    assert(old(self).at(k).push(v) =~= vals@);
                    assert forall|k2: u64| k2 != k implies #[trigger] self.at(k2) == old(self).at(
                        k2,
                    ) by {
                        if old(self).has_key(k2) {
                            let j = index_of_id(prev, entry_key(), k2);
                            assert(0 <= j < prev.len() && prev[j].0 == k2);
                            assert(self.entries@[j] == prev[j]);
                        }
                    }
                }
            },
        }
    }

    /// Removes every occurrence of `v` from the list stored under `k`.
    pub fn remove_value(&mut self, k: u64, v: u64)
        requires
            old(self).wf(),
        ensures
            final(self).wf(),
            final(self).at(k) == seq_without(old(self).at(k), v),
            forall|k2: u64| k2 != k ==> #[trigger] final(self).at(k2) == old(self).at(k2),
    {
        let ghost prev = self.entries@;
        match self.find(k) {
            Some(i) => {
                let pair = self.entries.remove(i);
                let vals = vec_without(&pair.1, v);
                self.entries.insert(i, (pair.0, vals));
                proof {
                    assert(self.entries@ =~= prev.update(i as int, self.entries@[i as int]));
                    assert(self.entries@[i as int].0 == k);
                    assert(self.entries@[i as int].1@ == seq_without(prev[i as int].1@, v));
                    lemma_id_maps_preserved(prev, self.entries@, entry_key());
                    lemma_index_of_id_is(self.entries@, entry_key(), k, i as int);
                    assert forall|k2: u64| k2 != k implies #[trigger] self.at(k2) == old(self).at(
                        k2,
                    ) by {
                        if old(self).has_key(k2) {
                            let j = index_of_id(prev, entry_key(), k2);
                            assert(0 <= j < prev.len() && prev[j].0 == k2);
                            assert(j != i);
                            assert(self.entries@[j] == prev[j]);
                        }
                    }
                }
            },
            None => {
                proof {
                    assert(seq_without(Seq::<u64>::empty(), v) == Seq::<u64>::empty());
                }
            },
        }
    }
}

} // verus!
