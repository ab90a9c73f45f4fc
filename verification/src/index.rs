//! The reconciliation map: which live entity each identity refers to.

use crate::path::{EntityPath, PathId};
use vstd::prelude::*;

verus! {

/// Maps identities to entities. No identity is held twice.
///
/// The identities are kept in a list and compared by what they stand for:
/// the verifier has no model of hashing for keys that hold text.
pub struct PathIndex {
    entries: Vec<(EntityPath, u64)>,
}

impl View for PathIndex {
    type V = Map<PathId, u64>;

    closed spec fn view(&self) -> Map<PathId, u64> {
        Map::new(
            |k: PathId| exists|i: int| 0 <= i < self.entries@.len() && self.entries@[i].0@ == k,
            |k: PathId|
                self.entries@[choose|i: int|
                    0 <= i < self.entries@.len() && self.entries@[i].0@ == k].1,
        )
    }
}

impl PathIndex {
    /// No identity is held twice.
    pub closed spec fn wf(&self) -> bool {
        forall|i: int, j: int|
            0 <= i < self.entries@.len() && 0 <= j < self.entries@.len() && i != j
                ==> self.entries@[i].0@ != self.entries@[j].0@
    }

    proof fn lemma_entry(&self, i: int)
        requires
            self.wf(),
            0 <= i < self.entries@.len(),
        ensures
            self@.contains_key(self.entries@[i].0@),
            self@[self.entries@[i].0@] == self.entries@[i].1,
    {
    }

    pub fn new() -> (r: Self)
        ensures
            r.wf(),
            r@ == Map::<PathId, u64>::empty(),
    {
        let r = PathIndex { entries: Vec::new() };
        assert(r@ =~= Map::<PathId, u64>::empty());
        r
    }

    fn position(&self, path: &EntityPath) -> (r: Option<usize>)
        ensures
            match r {
                Some(i) => i < self.entries@.len() && self.entries@[i as int].0@ == path@,
                None => forall|j: int| 0 <= j < self.entries@.len() ==> self.entries@[j].0@ != path@,
            },
    {
        let mut i: usize = 0;
        while i < self.entries.len()
            invariant
                i <= self.entries@.len(),
                forall|j: int| 0 <= j < i ==> self.entries@[j].0@ != path@,
            decreases self.entries@.len() - i,
        {
            if self.entries[i].0.same(path) {
                return Some(i);
            }
            i += 1;
        }
        None
    }

    /// The entity that `path` refers to, if any.
    pub fn get(&self, path: &EntityPath) -> (r: Option<u64>)
        requires
            self.wf(),
        ensures
            r == if self@.contains_key(path@) {
                Some(self@[path@])
            } else {
                None
            },
    {
        match self.position(path) {
            Some(i) => {
                proof {
                    self.lemma_entry(i as int);
                }
                Some(self.entries[i].1)
            },
            None => None,
        }
    }

    /// Lets `path` refer to `entity`, whatever it referred to before.
    /// Returns the entity it referred to before.
    pub fn insert(&mut self, path: EntityPath, entity: u64) -> (r: Option<u64>)
        requires
            old(self).wf(),
        ensures
            final(self).wf(),
            final(self)@ == old(self)@.insert(path@, entity),
            r == if old(self)@.contains_key(path@) {
                Some(old(self)@[path@])
            } else {
                None
            },
    {
        match self.position(&path) {
            Some(i) => {
                proof {
                    self.lemma_entry(i as int);
                }
                let prev = self.entries[i].1;
                self.entries[i] = (path, entity);
                proof {
                    assert forall|k: PathId| #[trigger]
                        self@.contains_key(k) == old(self)@.insert(path@, entity).contains_key(
                            k,
                        ) by {
                        if old(self)@.insert(path@, entity).contains_key(k) {
                            if k == path@ {
                                assert(self.entries@[i as int].0@ == k);
                            } else {
                                let j = choose|j: int|
                                    0 <= j < old(self).entries@.len() && old(self).entries@[j].0@
                                        == k;
                                assert(self.entries@[j].0@ == k);
                            }
                        }
                        if self@.contains_key(k) {
                            let j = choose|j: int|
                                0 <= j < self.entries@.len() && self.entries@[j].0@ == k;
                            if j != i {
                                assert(old(self).entries@[j].0@ == k);
                            }
                        }
                    }
                    assert forall|k: PathId| self@.contains_key(k) implies self@[k] == old(
                        self,
                    )@.insert(path@, entity)[k] by {
                        let j = choose|j: int|
                            0 <= j < self.entries@.len() && self.entries@[j].0@ == k;
                        self.lemma_entry(j);
                        if j != i {
                            old(self).lemma_entry(j);
                        }
                    }
                    assert(self@ =~= old(self)@.insert(path@, entity));
                }
                Some(prev)
            },
            None => {
                self.entries.push((path, entity));
                proof {
                    let n = old(self).entries@.len() as int;
                    assert forall|k: PathId| #[trigger]
                        self@.contains_key(k) == old(self)@.insert(path@, entity).contains_key(
                            k,
                        ) by {
                        if old(self)@.insert(path@, entity).contains_key(k) {
                            if k == path@ {
                                assert(self.entries@[n].0@ == k);
                            } else {
                                let j = choose|j: int|
                                    0 <= j < old(self).entries@.len() && old(self).entries@[j].0@
                                        == k;
                                assert(self.entries@[j].0@ == k);
                            }
                        }
                        if self@.contains_key(k) {
                            let j = choose|j: int|
                                0 <= j < self.entries@.len() && self.entries@[j].0@ == k;
                            if j != n {
                                assert(old(self).entries@[j].0@ == k);
                            }
                        }
                    }
                    assert forall|k: PathId| self@.contains_key(k) implies self@[k] == old(
                        self,
                    )@.insert(path@, entity)[k] by {
                        let j = choose|j: int|
                            0 <= j < self.entries@.len() && self.entries@[j].0@ == k;
                        self.lemma_entry(j);
                        if j != n {
                            old(self).lemma_entry(j);
                        }
                    }
                    assert(self@ =~= old(self)@.insert(path@, entity));
                }
                None
            },
        }
    }
}

} // verus!
