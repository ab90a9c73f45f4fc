//! Names of entities, collected from various sources to build paths.

use crate::failure::Failure;
use std::collections::HashMap;
use vstd::prelude::*;

verus! {

broadcast use vstd::std_specs::hash::group_hash_axioms;

/// This collects names from various sources to build paths.
pub struct PathNames {
    names: HashMap<u64, String>,
    order: Vec<u64>,
}

impl View for PathNames {
    type V = Map<u64, Seq<char>>;

    /// The name of each named entity.
    closed spec fn view(&self) -> Map<u64, Seq<char>> {
        Map::new(|e: u64| self.names@.contains_key(e), |e: u64| self.names@[e]@)
    }
}

impl PathNames {
    /// The named entities in the order in which they were first named.
    pub closed spec fn entities(&self) -> Seq<u64> {
        self.order@
    }

    /// Every named entity is listed once, and only named entities are.
    pub closed spec fn wf(&self) -> bool {
        &&& self.order@.no_duplicates()
        &&& forall|e: u64| self.names@.contains_key(e) <==> self.order@.contains(e)
    }

    pub proof fn lemma_entities(&self)
        requires
            self.wf(),
        ensures
            self.entities().no_duplicates(),
            forall|e: u64| self@.contains_key(e) <==> self.entities().contains(e),
    {
    }

    pub fn new() -> (r: Self)
        ensures
            r.wf(),
            r@ == Map::<u64, Seq<char>>::empty(),
            r.entities() == Seq::<u64>::empty(),
    {
        let r = PathNames { names: HashMap::new(), order: Vec::new() };
        assert(r@ =~= Map::<u64, Seq<char>>::empty());
        r
    }

    /// Records `name` for `entity`. Naming an entity again by the name it has
    /// changes nothing; another name is a conflict, and nothing changes either.
    pub fn push(&mut self, entity: u64, name: String) -> (r: Result<(), Failure>)
        requires
            old(self).wf(),
        ensures
            final(self).wf(),
            match r {
                Ok(()) => {
                    &&& !old(self)@.contains_key(entity) || old(self)@[entity] == name@
                    &&& final(self)@ == old(self)@.insert(entity, name@)
                    &&& final(self).entities() == if old(self)@.contains_key(entity) {
                        old(self).entities()
                    } else {
                        old(self).entities().push(entity)
                    }
                },
                Err(e) => {
                    &&& e == Failure::RenameConflict
                    &&& old(self)@.contains_key(entity)
                    &&& old(self)@[entity] != name@
                    &&& final(self)@ == old(self)@
                    &&& final(self).entities() == old(self).entities()
                },
            },
    {
        match self.names.get(&entity) {
            Some(n) => {
                if *n == name {
                    assert(self@ =~= self@.insert(entity, name@));
                    Ok(())
                } else {
                    Err(Failure::RenameConflict)
                }
            },
            None => {
                assert(!old(self).order@.contains(entity));
                self.names.insert(entity, name);
                self.order.push(entity);
                assert(self@ =~= old(self)@.insert(entity, name@));
                assert(self.order@.no_duplicates()) by {
                    assert forall|i: int, j: int|
                        0 <= i < self.order@.len() && 0 <= j < self.order@.len() && i
                            != j implies self.order@[i] != self.order@[j] by {
                        if i < old(self).order@.len() {
                            assert(old(self).order@.contains(self.order@[i]));
                        }
                        if j < old(self).order@.len() {
                            assert(old(self).order@.contains(self.order@[j]));
                        }
                    }
                }
                assert forall|e: u64| self.names@.contains_key(e) <==> self.order@.contains(
                    e,
                ) by {
                    if e == entity {
                        assert(self.order@[self.order@.len() - 1] == entity);
                    } else if old(self).order@.contains(e) {
                        let i = choose|i: int|
                            0 <= i < old(self).order@.len() && old(self).order@[i] == e;
                        assert(self.order@[i] == e);
                    }
                }
                Ok(())
            },
        }
    }

    /// The name of `e`, if it has one.
    pub fn get(&self, e: u64) -> (r: Option<&str>)
        ensures
            match r {
                Some(n) => self@.contains_key(e) && n@ == self@[e],
                None => !self@.contains_key(e),
            },
    {
        match self.names.get(&e) {
            Some(n) => Some(n.as_str()),
            None => None,
        }
    }

    /// How many entities are named.
    pub fn len(&self) -> (r: usize)
        ensures
            r == self.entities().len(),
    {
        self.order.len()
    }

    /// The `i`-th entity that was named.
    pub fn entity_at(&self, i: usize) -> (r: u64)
        requires
            i < self.entities().len(),
        ensures
            r == self.entities()[i as int],
    {
        self.order[i]
    }

    /// Every named entity with its name, in the order of first naming.
    pub fn iter(&self) -> (r: Vec<(u64, String)>)
        requires
            self.wf(),
        ensures
            r@.len() == self.entities().len(),
            forall|i: int|
                0 <= i < r@.len() ==> r@[i].0 == self.entities()[i] && self@.contains_key(r@[i].0)
                    && r@[i].1@ == self@[r@[i].0],
    {
        let mut out: Vec<(u64, String)> = Vec::new();
        let mut i: usize = 0;
        while i < self.order.len()
            invariant
                self.wf(),
                i <= self.order@.len(),
                out@.len() == i,
                forall|j: int|
                    0 <= j < i ==> out@[j].0 == self.order@[j] && self@.contains_key(out@[j].0)
                        && out@[j].1@ == self@[out@[j].0],
            decreases self.order@.len() - i,
        {
            let e = self.order[i];
            assert(self.order@.contains(e));
            match self.names.get(&e) {
                Some(n) => {
                    let name = n.clone();
                    assert(name@ == self@[e]);
                    let ghost before = out@;
                    out.push((e, name));
                    assert(forall|j: int| 0 <= j < i ==> out@[j] == before[j]);
                },
                None => {
                    assert(false);
                },
            }
            i += 1;
        }
        out
    }
}

} // verus!
