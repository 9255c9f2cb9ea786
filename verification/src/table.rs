//! A small association table keyed by strings.
//!
//! The graph, the catalog and the evaluation cache are all maps from an
//! identifier to some record.  They are kept as vectors of pairs with
//! pairwise-distinct keys, so iteration order is the insertion order and
//! lookups are plain linear scans.

use vstd::prelude::*;

verus! {

/// An insertion-ordered map from a string key to `V`, with distinct keys.
pub struct Table<V> {
    entries: Vec<(String, V)>,
}

impl<V> Table<V> {
    /// The rows, in insertion order.
    pub closed spec fn rows(self) -> Seq<(String, V)> {
        self.entries@
    }

    /// All keys are pairwise distinct.
    pub open spec fn wf(self) -> bool {
        forall|i: int, j: int|
            0 <= i < j < self.rows().len() ==> self.rows()[i].0@ != self.rows()[j].0@
    }

    /// Whether some row carries the key `k`.
    pub open spec fn contains_spec(self, k: Seq<char>) -> bool {
        exists|i: int| 0 <= i < self.rows().len() && self.rows()[i].0@ == k
    }

    /// The index of the row carrying `k`.
    pub open spec fn index_of(self, k: Seq<char>) -> int
        recommends
            self.contains_spec(k),
    {
        choose|i: int| 0 <= i < self.rows().len() && self.rows()[i].0@ == k
    }

    /// The record stored under `k`.
    pub open spec fn spec_get(self, k: Seq<char>) -> V
        recommends
            self.contains_spec(k),
    {
        self.rows()[self.index_of(k)].1
    }

    /// An empty table.
    pub fn new() -> (r: Table<V>)
        ensures
            r.rows() =~= Seq::<(String, V)>::empty(),
            r.wf(),
    {
        Table { entries: Vec::new() }
    }

    /// How many rows the table holds.
    pub fn len(&self) -> (r: usize)
        ensures
            r == self.rows().len(),
    {
        self.entries.len()
    }

    /// The key of row `i`.
    pub fn key_at(&self, i: usize) -> (k: &String)
        requires
            i < self.rows().len(),
        ensures
            k@ == self.rows()[i as int].0@,
    {
        &self.entries[i].0
    }

    /// The record of row `i`.
    pub fn val_at(&self, i: usize) -> (v: &V)
        requires
            i < self.rows().len(),
        ensures
            *v == self.rows()[i as int].1,
    {
        &self.entries[i].1
    }

    /// Whether the table holds a row keyed `k`.
    pub fn contains(&self, k: &String) -> (r: bool)
        ensures
            r == self.contains_spec(k@),
    {
        let mut i: usize = 0;
        while i < self.entries.len()
            invariant
                i <= self.rows().len(),
                forall|j: int| 0 <= j < i ==> self.rows()[j].0@ != k@,
            decreases self.entries.len() - i,
        {
            if self.entries[i].0 == *k {
                return true;
            }
            i = i + 1;
        }
        false
    }

    /// The record under `k`, if the key is present.
    pub fn get(&self, k: &String) -> (r: Option<&V>)
        requires
            self.wf(),
        ensures
            match r {
                Some(v) => self.contains_spec(k@) && *v == self.spec_get(k@),
                None => !self.contains_spec(k@),
            },
    {
        let mut i: usize = 0;
        while i < self.entries.len()
            invariant
                self.wf(),
                i <= self.rows().len(),
                forall|j: int| 0 <= j < i ==> self.rows()[j].0@ != k@,
            decreases self.entries.len() - i,
        {
            if self.entries[i].0 == *k {
                proof {
                    let w = self.index_of(k@);
                    assert(self.rows()[w].0@ == k@);
                    assert(w == i);
                }
                return Some(&self.entries[i].1);
            }
            i = i + 1;
        }
        None
    }

    /// The index of the row keyed `k`, if the key is present.
    pub fn find(&self, k: &String) -> (r: Option<usize>)
        requires
            self.wf(),
        ensures
            match r {
                Some(i) => self.contains_spec(k@) && i == self.index_of(k@) && i
                    < self.rows().len() && self.rows()[i as int].0@ == k@,
                None => !self.contains_spec(k@),
            },
    {
        let mut i: usize = 0;
        while i < self.entries.len()
            invariant
                self.wf(),
                i <= self.rows().len(),
                forall|j: int| 0 <= j < i ==> self.rows()[j].0@ != k@,
            decreases self.entries.len() - i,
        {
            if self.entries[i].0 == *k {
                proof {
                    let w = self.index_of(k@);
                    assert(self.rows()[w].0@ == k@);
                    assert(w == i);
                }
                return Some(i);
            }
            i = i + 1;
        }
        None
    }

    /// Replaces the record of row `i`, keeping its key.
    pub fn set_val(&mut self, i: usize, v: V)
        requires
            old(self).wf(),
            i < old(self).rows().len(),
        ensures
            final(self).wf(),
            final(self).rows() == old(self).rows().update(
                i as int,
                (old(self).rows()[i as int].0, v),
            ),
    {
        let k = self.entries[i].0.clone();
        self.entries[i] = (k, v);
        proof {
            assert(self.rows() =~= old(self).rows().update(
                i as int,
                (old(self).rows()[i as int].0, v),
            ));
            assert forall|a: int, b: int| 0 <= a < b < self.rows().len() implies self.rows()[a].0@
                != self.rows()[b].0@ by {
                assert(self.rows()[a].0@ == old(self).rows()[a].0@);
                assert(self.rows()[b].0@ == old(self).rows()[b].0@);
            }
        }
    }

    /// Adds a row for a key not yet present.
    pub fn add(&mut self, k: String, v: V)
        requires
            old(self).wf(),
            !old(self).contains_spec(k@),
        ensures
            final(self).wf(),
            final(self).rows() == old(self).rows().push((k, v)),
    {
        self.entries.push((k, v));
    }
}

} // verus!
