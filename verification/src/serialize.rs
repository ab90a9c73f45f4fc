//! The first half of a snapshot: from the live graph to a document.

use crate::document::{has_group, names_distinct, records_view, Document};
use crate::failure::Failure;
use crate::hierarchy::{all_resolved, build_paths, full_path};
use crate::host::world_parents;
use crate::index::PathIndex;
use crate::names::PathNames;
use crate::path::{EntityParent, EntityPath, ParentId, PathId, PathedValue, Record};
use crate::seed::{entries_view, named_paths, seed_all, seeded};
use bevy_ecs::world::World;
use std::collections::HashMap;
use vstd::prelude::*;

verus! {

broadcast use vstd::std_specs::hash::group_hash_axioms;

/// The path of every named entity.
pub open spec fn paths_map(
    names: Map<u64, Seq<char>>,
    parents: Map<u64, u64>,
    fuel: nat,
) -> Map<u64, Seq<char>> {
    Map::new(
        |e: u64| names.contains_key(e),
        |e: u64| full_path(names, parents, e, fuel).unwrap(),
    )
}

/// How an entity is referred to: by its path where it has one, else by its
/// number, which serves within one save only.
pub open spec fn identity(paths: Map<u64, Seq<char>>, entity: u64) -> PathId {
    if paths.contains_key(entity) {
        PathId::Path(paths[entity])
    } else {
        PathId::Entity(entity)
    }
}

/// The parent slot of an entity: `Root` without a parent; the parent's path
/// where it has one; its number where it is merely selected; else the entity
/// is an orphan, which could not be put back on load.
pub open spec fn parent_slot(
    paths: Map<u64, Seq<char>>,
    parent: Option<u64>,
    parent_selected: bool,
) -> Result<ParentId, Failure> {
    match parent {
        None => Ok(ParentId::Root),
        Some(p) => if paths.contains_key(p) {
            Ok(ParentId::Path(paths[p]))
        } else if parent_selected {
            Ok(ParentId::Entity(p))
        } else {
            Err(Failure::Orphaned)
        },
    }
}

/// A component instance that was taken from the live graph.
#[derive(Debug)]
pub struct Extracted<V> {
    /// The entity that carries the component.
    pub entity: u64,
    /// The entity's parent, if it has one.
    pub parent: Option<u64>,
    /// Whether the parent, if there is one, is selected by the profile.
    pub parent_selected: bool,
    /// The component, converted by the codec.
    pub value: V,
}

/// Whether the item is an orphan.
pub open spec fn is_orphan<V>(paths: Map<u64, Seq<char>>, item: Extracted<V>) -> bool {
    parent_slot(paths, item.parent, item.parent_selected) is Err
}

/// The record of an item that is no orphan.
pub open spec fn record_of<V>(paths: Map<u64, Seq<char>>, item: Extracted<V>) -> Record<V> {
    Record {
        parent: parent_slot(paths, item.parent, item.parent_selected).unwrap(),
        path: identity(paths, item.entity),
        value: item.value,
    }
}

/// The records of the items, in order.
pub open spec fn records_of<V>(paths: Map<u64, Seq<char>>, items: Seq<Extracted<V>>) -> Seq<
    Record<V>,
> {
    Seq::new(items.len(), |i: int| record_of(paths, items[i]))
}

/// Whether one of the items is an orphan.
pub open spec fn has_orphan<V>(paths: Map<u64, Seq<char>>, items: Seq<Extracted<V>>) -> bool {
    exists|i: int| 0 <= i < items.len() && is_orphan(paths, #[trigger] items[i])
}

/// Paths used in the serialization step, and the document that it builds.
pub struct SerializeContext<V> {
    paths: HashMap<u64, String>,
    document: Document<V>,
}

impl<V> SerializeContext<V> {
    /// The path of each entity that has one.
    pub closed spec fn paths(&self) -> Map<u64, Seq<char>> {
        Map::new(|e: u64| self.paths@.contains_key(e), |e: u64| self.paths@[e]@)
    }

    /// The document built so far.
    pub closed spec fn document(&self) -> Seq<(Seq<char>, Seq<Record<V>>)> {
        self.document@
    }

    /// No type name occurs twice in the document.
    pub closed spec fn wf(&self) -> bool {
        self.document.wf()
    }

    /// No type name occurs twice in the document.
    pub proof fn lemma_names_differ(&self)
        requires
            self.wf(),
        ensures
            names_distinct(self.document()),
    {
    }

    pub fn new() -> (r: Self)
        ensures
            r.wf(),
            r.paths() == Map::<u64, Seq<char>>::empty(),
            r.document() == Seq::<(Seq<char>, Seq<Record<V>>)>::empty(),
    {
        let r = SerializeContext { paths: HashMap::new(), document: Document::new() };
        assert(r.paths() =~= Map::<u64, Seq<char>>::empty());
        r
    }

    /// Computes the path of every named entity. Fails, and changes nothing,
    /// where a chain of named ancestors does not end or where two entities
    /// come to the same path.
    pub fn build(&mut self, names: &PathNames, world: &World) -> (r: Result<(), Failure>)
        requires
            old(self).wf(),
            names.wf(),
        ensures
            final(self).wf(),
            final(self).document() == old(self).document(),
            match r {
                Ok(()) => {
                    &&& all_resolved(
                        names@,
                        world_parents(*world),
                        names.entities(),
                        names.entities().len(),
                    )
                    &&& seeded(
                        Map::<PathId, u64>::empty(),
                        named_paths(
                            names@,
                            world_parents(*world),
                            names.entities(),
                            names.entities().len(),
                        ),
                    ) is Ok
                    &&& final(self).paths() == paths_map(
                        names@,
                        world_parents(*world),
                        names.entities().len(),
                    )
                },
                Err(e) => {
                    &&& final(self).paths() == old(self).paths()
                    &&& if all_resolved(
                        names@,
                        world_parents(*world),
                        names.entities(),
                        names.entities().len(),
                    ) {
                        e == Failure::DuplicatePath && seeded(
                            Map::<PathId, u64>::empty(),
                            named_paths(
                                names@,
                                world_parents(*world),
                                names.entities(),
                                names.entities().len(),
                            ),
                        ) is Err
                    } else {
                        e == Failure::CyclicHierarchy
                    }
                },
            },
    {
        let ghost n = names@;
        let ghost p = world_parents(*world);
        let ghost ents = names.entities();
        let ghost fuel = names.entities().len();
        let entries = match build_paths(names, world) {
            Ok(v) => v,
            Err(e) => {
                return Err(e);
            },
        };
        proof {
            assert forall|i: int| 0 <= i < ents.len() implies full_path(
                n,
                p,
                ents[i],
                fuel,
            ) is Some by {
                assert(entries@[i].0 == ents[i]);
            }
            assert(all_resolved(n, p, ents, fuel));
            assert(entries_view(entries@) =~= named_paths(n, p, ents, fuel));
        }
        let mut index = PathIndex::new();
        match seed_all(&mut index, &entries) {
            Ok(()) => {},
            Err(e) => {
                return Err(e);
            },
        }
        let mut paths: HashMap<u64, String> = HashMap::new();
        let mut i: usize = 0;
        while i < entries.len()
            invariant
                i <= entries@.len(),
                entries@.len() == ents.len(),
                forall|j: int|
                    0 <= j < entries@.len() ==> (#[trigger] entries@[j]).0 == ents[j] && full_path(
                        n,
                        p,
                        ents[j],
                        fuel,
                    ) == Some(entries@[j].1@),
                forall|e: u64|
                    paths@.contains_key(e) <==> exists|j: int| 0 <= j < i && #[trigger] ents[j] == e,
                forall|e: u64| #[trigger]
                    paths@.contains_key(e) ==> Some(paths@[e]@) == full_path(n, p, e, fuel),
            decreases entries@.len() - i,
        {
            let e = entries[i].0;
            let path = entries[i].1.clone();
            assert(entries@[i as int].0 == ents[i as int]);
            let ghost before = paths@;
            paths.insert(e, path);
            proof {
                assert forall|x: u64| paths@.contains_key(x) <==> exists|j: int|
                    0 <= j < i + 1 && #[trigger] ents[j] == x by {
                    if x == e {
                        assert(ents[i as int] == x);
                    } else if before.contains_key(x) {
                        let j = choose|j: int| 0 <= j < i && #[trigger] ents[j] == x;
                        assert(0 <= j < i + 1 && ents[j] == x);
                    }
                }
            }
            i += 1;
        }
        self.paths = paths;
        proof {
            names.lemma_entities();
            assert forall|e: u64| self.paths@.contains_key(e) <==> n.contains_key(e) by {
                if n.contains_key(e) {
                    assert(ents.contains(e));
                    let j = choose|j: int| 0 <= j < ents.len() && ents[j] == e;
                    assert(ents[j] == e);
                }
                if self.paths@.contains_key(e) {
                    let j = choose|j: int| 0 <= j < i && #[trigger] ents[j] == e;
                    assert(ents.contains(ents[j]));
                }
            }
            assert(self.paths() =~= paths_map(n, p, fuel));
        }
        Ok(())
    }

    /// How `entity` is referred to: by its path, else by its number.
    pub fn path_of(&self, entity: u64) -> (r: EntityPath)
        ensures
            r@ == identity(self.paths(), entity),
    {
        match self.paths.get(&entity) {
            Some(p) => EntityPath::Path(p.clone()),
            None => EntityPath::Entity(entity),
        }
    }

    /// The parent slot of an entity whose parent is `parent`.
    pub fn parent_of(&self, parent: Option<u64>, parent_selected: bool) -> (r: Result<
        EntityParent,
        Failure,
    >)
        ensures
            match r {
                Ok(slot) => parent_slot(self.paths(), parent, parent_selected) == Ok::<
                    ParentId,
                    Failure,
                >(slot@),
                Err(e) => e == Failure::Orphaned && parent_slot(
                    self.paths(),
                    parent,
                    parent_selected,
                ) is Err,
            },
    {
        match parent {
            None => Ok(EntityParent::Root),
            Some(p) => match self.paths.get(&p) {
                Some(path) => Ok(EntityParent::Path(path.clone())),
                None => if parent_selected {
                    Ok(EntityParent::Entity(p))
                } else {
                    Err(Failure::Orphaned)
                },
            },
        }
    }

    /// The record of one component instance.
    pub fn record(&self, item: Extracted<V>) -> (r: Result<PathedValue<V>, Failure>)
        ensures
            match r {
                Ok(rec) => !is_orphan(self.paths(), item) && rec@ == record_of(self.paths(), item),
                Err(e) => e == Failure::Orphaned && is_orphan(self.paths(), item),
            },
    {
        let parent = match self.parent_of(item.parent, item.parent_selected) {
            Ok(slot) => slot,
            Err(e) => {
                return Err(e);
            },
        };
        let path = self.path_of(item.entity);
        Ok(PathedValue { parent, path, value: item.value })
    }

    /// The records of the instances of one component type, in their order.
    /// One orphan among them fails the whole group.
    pub fn extract(&self, items: Vec<Extracted<V>>) -> (r: Result<
        Vec<PathedValue<V>>,
        Failure,
    >)
        ensures
            match r {
                Ok(recs) => !has_orphan(self.paths(), items@) && records_view(recs@)
                    == records_of(self.paths(), items@),
                Err(e) => e == Failure::Orphaned && has_orphan(self.paths(), items@),
            },
    {
        let mut out: Vec<PathedValue<V>> = Vec::new();
        for item in it: items
            invariant
                it.seq() == items@,
                out@.len() == it.index(),
                forall|j: int|
                    0 <= j < out@.len() ==> !is_orphan(self.paths(), items@[j]) && (
                    #[trigger] out@[j])@ == record_of(self.paths(), items@[j]),
        {
            let ghost before = out@;
            match self.record(item) {
                Ok(rec) => {
                    out.push(rec);
                    assert(forall|j: int| 0 <= j < before.len() ==> out@[j] == before[j]);
                },
                Err(e) => {
                    assert(is_orphan(self.paths(), items@[before.len() as int]));
                    return Err(e);
                },
            }
        }
        proof {
            assert(out@.len() == items@.len());
            assert forall|j: int| 0 <= j < items@.len() implies !is_orphan(
                self.paths(),
                #[trigger] items@[j],
            ) by {
                assert(out@[j]@ == record_of(self.paths(), items@[j]));
            }
            assert(records_view(out@) =~= records_of(self.paths(), items@));
        }
        Ok(out)
    }

    /// Adds the instances of one component type to the document, as the
    /// group of that type. A type without instances gets no group. Fails,
    /// and changes nothing, where one of the instances is an orphan or where
    /// the document already holds a group of that name.
    pub fn serialize_group(&mut self, group: String, items: Vec<Extracted<V>>) -> (r: Result<
        (),
        Failure,
    >)
        requires
            old(self).wf(),
        ensures
            final(self).wf(),
            final(self).paths() == old(self).paths(),
            match r {
                Ok(()) => {
                    &&& !has_orphan(old(self).paths(), items@)
                    &&& if items@.len() == 0 {
                        final(self).document() == old(self).document()
                    } else {
                        &&& !has_group(old(self).document(), group@)
                        &&& final(self).document() == old(self).document().push(
                            (group@, records_of(old(self).paths(), items@)),
                        )
                    }
                },
                Err(e) => {
                    &&& final(self).document() == old(self).document()
                    &&& items@.len() > 0
                    &&& if has_orphan(old(self).paths(), items@) {
                        e == Failure::Orphaned
                    } else {
                        e == Failure::DuplicateTypeName && has_group(
                            old(self).document(),
                            group@,
                        )
                    }
                },
            },
    {
        if items.len() == 0 {
            return Ok(());
        }
        let records = match self.extract(items) {
            Ok(recs) => recs,
            Err(e) => {
                return Err(e);
            },
        };
        self.document.insert_group(group, records)
    }

    /// Adds a resource to the document: one record without parent or path,
    /// as the group of that type. A name that the document holds is refused.
    pub fn insert_resource(&mut self, group: String, value: V) -> (r: Result<(), Failure>)
        requires
            old(self).wf(),
        ensures
            final(self).wf(),
            final(self).paths() == old(self).paths(),
            match r {
                Ok(()) => !has_group(old(self).document(), group@) && final(self).document()
                    == old(self).document().push(
                    (
                        group@,
                        seq![Record { parent: ParentId::Root, path: PathId::Unique, value }],
                    ),
                ),
                Err(e) => e == Failure::DuplicateTypeName && has_group(
                    old(self).document(),
                    group@,
                ) && final(self).document() == old(self).document(),
            },
    {
        let mut records: Vec<PathedValue<V>> = Vec::new();
        records.push(PathedValue { parent: EntityParent::Root, path: EntityPath::Unique, value });
        proof {
            assert(records_view(records@) =~= seq![
                Record { parent: ParentId::Root, path: PathId::Unique, value },
            ]);
        }
        self.document.insert_group(group, records)
    }

    /// The document that was built, to be written.
    pub fn into_document(self) -> (r: Document<V>)
        requires
            self.wf(),
        ensures
            r@ == self.document(),
            r.wf(),
    {
        self.document
    }

    /// The document built so far.
    pub fn serialized(&self) -> (r: &Document<V>)
        requires
            self.wf(),
        ensures
            r@ == self.document(),
            r.wf(),
    {
        &self.document
    }
}

} // verus!
