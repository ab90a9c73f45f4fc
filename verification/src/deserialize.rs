//! The second half of a snapshot: from a document back onto the live graph.

use crate::document::{has_group, names_distinct, records_view, Document};
use crate::failure::Failure;
use crate::hierarchy::{all_resolved, build_paths, full_path};
use crate::host::{add_child, host_view, spawn_empty, world_parents, HostView};
use crate::index::PathIndex;
use crate::names::PathNames;
use crate::path::{EntityPath, ParentId, PathId, PathedValue, Record};
use crate::seed::{entries_view, named_paths, seed_all, seed_one, seed_step, seeded};
use bevy_ecs::system::Commands;
use bevy_ecs::world::World;
use vstd::prelude::*;

verus! {

/// Whether resolving `path` makes a new entity: always for `Unique`, else
/// where the map does not hold it.
pub open spec fn spawns(map: Map<PathId, u64>, path: PathId) -> bool {
    path is Unique || !map.contains_key(path)
}

/// Whether `entity` may be what `path` resolves to: the entity that the map
/// holds for it; any entity where resolving makes a new one.
pub open spec fn resolves(map: Map<PathId, u64>, path: PathId, entity: u64) -> bool {
    !spawns(map, path) ==> entity == map[path]
}

/// The map after `path` was resolved to `entity`: a new entity is recorded
/// under its path, unless the path is `Unique`.
pub open spec fn bound(map: Map<PathId, u64>, path: PathId, entity: u64) -> Map<PathId, u64> {
    if path is Unique || map.contains_key(path) {
        map
    } else {
        map.insert(path, entity)
    }
}

/// Where a record goes on the live graph.
#[derive(Debug)]
pub struct Placement<V> {
    /// The entity that gets the component.
    pub entity: u64,
    /// The entity that becomes its parent, if the record names one.
    pub parent: Option<u64>,
    /// Whether the host queued the parent edge.
    pub linked: bool,
    /// The stored component.
    pub value: V,
}

/// Whether the placement is one that the record allows, given the map
/// before it: the value is the record's, the target is what the path
/// resolves to, and so is the parent, which `Root` does not have.
pub open spec fn placement_ok<V>(map: Map<PathId, u64>, rec: Record<V>, pl: Placement<V>) -> bool {
    &&& pl.value == rec.value
    &&& resolves(map, rec.path, pl.entity)
    &&& match rec.parent {
        ParentId::Root => pl.parent is None,
        _ => pl.parent is Some && resolves(
            bound(map, rec.path, pl.entity),
            rec.parent.path(),
            pl.parent.unwrap(),
        ),
    }
    &&& pl.linked ==> pl.parent is Some && pl.parent.unwrap() != pl.entity
}

/// The map after the record was placed.
pub open spec fn placed_map<V>(map: Map<PathId, u64>, rec: Record<V>, pl: Placement<V>) -> Map<
    PathId,
    u64,
> {
    let m = bound(map, rec.path, pl.entity);
    match rec.parent {
        ParentId::Root => m,
        _ => bound(m, rec.parent.path(), pl.parent.unwrap()),
    }
}

/// The map after the first `n` records were placed.
pub open spec fn map_after<V>(
    map: Map<PathId, u64>,
    recs: Seq<Record<V>>,
    pls: Seq<Placement<V>>,
    n: nat,
) -> Map<PathId, u64>
    decreases n,
{
    if n == 0 {
        map
    } else {
        placed_map(map_after(map, recs, pls, (n - 1) as nat), recs[n - 1], pls[n - 1])
    }
}

/// Whether the placements are ones that the records allow, each given the
/// map that the earlier ones left.
pub open spec fn is_plan<V>(
    map: Map<PathId, u64>,
    recs: Seq<Record<V>>,
    pls: Seq<Placement<V>>,
) -> bool {
    &&& pls.len() == recs.len()
    &&& forall|i: int|
        0 <= i < recs.len() ==> placement_ok(
            map_after(map, recs, pls, i as nat),
            recs[i],
            #[trigger] pls[i],
        )
}

/// The map after `n` records depends on the first `n` placements only.
pub proof fn lemma_map_after_prefix<V>(
    map: Map<PathId, u64>,
    recs: Seq<Record<V>>,
    a: Seq<Placement<V>>,
    b: Seq<Placement<V>>,
    n: nat,
)
    requires
        n <= a.len(),
        n <= b.len(),
        forall|i: int| 0 <= i < n ==> a[i] == b[i],
    ensures
        map_after(map, recs, a, n) == map_after(map, recs, b, n),
    decreases n,
{
    if n > 0 {
        lemma_map_after_prefix(map, recs, a, b, (n - 1) as nat);
    }
}

/// What the host sees after `path` was resolved to `entity`: a new entity
/// is reserved where resolving makes one.
pub open spec fn resolved_view(
    view: HostView,
    map: Map<PathId, u64>,
    path: PathId,
    entity: u64,
) -> HostView {
    if spawns(map, path) {
        view.spawn(entity)
    } else {
        view
    }
}

/// Whether `entity` is new to the host where resolving `path` makes an
/// entity: neither alive nor reserved before.
pub open spec fn fresh(view: HostView, map: Map<PathId, u64>, path: PathId, entity: u64) -> bool {
    spawns(map, path) ==> !view.allocated.contains(entity)
}

/// What the host sees after the target of a record was resolved.
pub open spec fn target_view<V>(
    view: HostView,
    map: Map<PathId, u64>,
    rec: Record<V>,
    pl: Placement<V>,
) -> HostView {
    resolved_view(view, map, rec.path, pl.entity)
}

/// What the host sees after the target and the parent of a record were
/// resolved, before the parent edge is asked for.
pub open spec fn parent_view<V>(
    view: HostView,
    map: Map<PathId, u64>,
    rec: Record<V>,
    pl: Placement<V>,
) -> HostView {
    match rec.parent {
        ParentId::Root => target_view(view, map, rec, pl),
        _ => resolved_view(
            target_view(view, map, rec, pl),
            bound(map, rec.path, pl.entity),
            rec.parent.path(),
            pl.parent.unwrap(),
        ),
    }
}

/// What the host sees after a record was placed: the entities that were
/// made are reserved, and the parent edge is queued where the host took it.
pub open spec fn placed_view<V>(
    view: HostView,
    map: Map<PathId, u64>,
    rec: Record<V>,
    pl: Placement<V>,
) -> HostView {
    if pl.linked {
        parent_view(view, map, rec, pl).link(pl.parent.unwrap(), pl.entity)
    } else {
        parent_view(view, map, rec, pl)
    }
}

/// Whether the placement did to the host what the record asks: every
/// entity that was made is new, and the parent edge was asked for, and was
/// queued, exactly where the record has a parent other than its target for
/// which the host gives entity commands.
pub open spec fn placement_host_ok<V>(
    view: HostView,
    map: Map<PathId, u64>,
    rec: Record<V>,
    pl: Placement<V>,
) -> bool {
    &&& fresh(view, map, rec.path, pl.entity)
    &&& !(rec.parent is Root) ==> fresh(
        target_view(view, map, rec, pl),
        bound(map, rec.path, pl.entity),
        rec.parent.path(),
        pl.parent.unwrap(),
    )
    &&& pl.linked == (pl.parent is Some && pl.parent.unwrap() != pl.entity && parent_view(
        view,
        map,
        rec,
        pl,
    ).held.contains(pl.parent.unwrap()))
}

/// Whether placing the record left the commands untouched: nothing was
/// made and no edge was queued.
pub open spec fn placement_is_silent<V>(
    map: Map<PathId, u64>,
    rec: Record<V>,
    pl: Placement<V>,
) -> bool {
    &&& !spawns(map, rec.path)
    &&& rec.parent is Root || !spawns(bound(map, rec.path, pl.entity), rec.parent.path())
    &&& !pl.linked
}

/// What the host sees after the first `n` records were placed.
pub open spec fn view_after<V>(
    view: HostView,
    map: Map<PathId, u64>,
    recs: Seq<Record<V>>,
    pls: Seq<Placement<V>>,
    n: nat,
) -> HostView
    decreases n,
{
    if n == 0 {
        view
    } else {
        placed_view(
            view_after(view, map, recs, pls, (n - 1) as nat),
            map_after(map, recs, pls, (n - 1) as nat),
            recs[n - 1],
            pls[n - 1],
        )
    }
}

/// Whether the placements did to the host what the records ask, each given
/// what the earlier ones left.
pub open spec fn is_host_plan<V>(
    view: HostView,
    map: Map<PathId, u64>,
    recs: Seq<Record<V>>,
    pls: Seq<Placement<V>>,
) -> bool {
    &&& pls.len() == recs.len()
    &&& forall|i: int|
        0 <= i < recs.len() ==> placement_host_ok(
            view_after(view, map, recs, pls, i as nat),
            map_after(map, recs, pls, i as nat),
            recs[i],
            #[trigger] pls[i],
        )
}

/// What the host sees after `n` records depends on the first `n`
/// placements only.
pub proof fn lemma_view_after_prefix<V>(
    view: HostView,
    map: Map<PathId, u64>,
    recs: Seq<Record<V>>,
    a: Seq<Placement<V>>,
    b: Seq<Placement<V>>,
    n: nat,
)
    requires
        n <= a.len(),
        n <= b.len(),
        forall|i: int| 0 <= i < n ==> a[i] == b[i],
    ensures
        view_after(view, map, recs, a, n) == view_after(view, map, recs, b, n),
    decreases n,
{
    if n > 0 {
        lemma_view_after_prefix(view, map, recs, a, b, (n - 1) as nat);
        lemma_map_after_prefix(map, recs, a, b, (n - 1) as nat);
    }
}

/// Paths used in the deserialization step, and the document that is loaded.
pub struct DeserializeContext<V> {
    document: Document<V>,
    path_map: PathIndex,
}

impl<V> DeserializeContext<V> {
    /// Which entity each identity refers to.
    pub closed spec fn map(&self) -> Map<PathId, u64> {
        self.path_map@
    }

    /// The groups that wait to be applied.
    pub closed spec fn document(&self) -> Seq<(Seq<char>, Seq<Record<V>>)> {
        self.document@
    }

    /// No type name occurs twice, and `Unique` refers to nothing.
    pub closed spec fn wf(&self) -> bool {
        &&& self.document.wf()
        &&& self.path_map.wf()
        &&& !self.path_map@.contains_key(PathId::Unique)
    }

    /// No type name occurs twice among the groups that wait, so that the
    /// group of a name is one group.
    pub proof fn lemma_names_differ(&self)
        requires
            self.wf(),
        ensures
            names_distinct(self.document()),
    {
    }

    pub proof fn lemma_unique_unbound(&self)
        requires
            self.wf(),
        ensures
            !self.map().contains_key(PathId::Unique),
    {
    }

    pub fn new() -> (r: Self)
        ensures
            r.wf(),
            r.map() == Map::<PathId, u64>::empty(),
            r.document() == Seq::<(Seq<char>, Seq<Record<V>>)>::empty(),
    {
        DeserializeContext { document: Document::new(), path_map: PathIndex::new() }
    }

    /// Takes the document to apply, in place of what was held.
    pub fn load(&mut self, document: Document<V>)
        requires
            old(self).wf(),
            document.wf(),
        ensures
            final(self).wf(),
            final(self).document() == document@,
            final(self).map() == old(self).map(),
    {
        self.document = document;
    }

    /// Records that `path` is the path of the live `entity`. Fails, and
    /// changes nothing, where the path belongs to another entity.
    pub fn push(&mut self, entity: u64, path: &str) -> (r: Result<(), Failure>)
        requires
            old(self).wf(),
        ensures
            final(self).wf(),
            final(self).document() == old(self).document(),
            match r {
                Ok(()) => seed_step(old(self).map(), entity, path@) == Ok::<
                    Map<PathId, u64>,
                    Failure,
                >(final(self).map()),
                Err(e) => e == Failure::DuplicatePath && seed_step(old(self).map(), entity, path@)
                    is Err && final(self).map() == old(self).map(),
            },
    {
        seed_one(&mut self.path_map, entity, path)
    }

    /// Lets the map hold the path of every named entity of the live graph,
    /// and nothing else. Fails, and changes nothing, where a chain of named
    /// ancestors does not end or where two entities come to the same path.
    pub fn seed(&mut self, names: &PathNames, world: &World) -> (r: Result<(), Failure>)
        requires
            old(self).wf(),
            names.wf(),
        ensures
            final(self).wf(),
            final(self).document() == old(self).document(),
            match r {
                Ok(()) => {
                    &&& all_resolved(
                        names@,
                        world_parents(*world),
                        names.entities(),
                        names.entities().len(),
                    )
                    &&& seeded(
                        Map::<PathId, u64>::empty(),
                        named_paths(
                            names@,
                            world_parents(*world),
                            names.entities(),
                            names.entities().len(),
                        ),
                    ) == Ok::<Map<PathId, u64>, Failure>(final(self).map())
                },
                Err(e) => {
                    &&& final(self).map() == old(self).map()
                    &&& if all_resolved(
                        names@,
                        world_parents(*world),
                        names.entities(),
                        names.entities().len(),
                    ) {
                        e == Failure::DuplicatePath && seeded(
                            Map::<PathId, u64>::empty(),
                            named_paths(
                                names@,
                                world_parents(*world),
                                names.entities(),
                                names.entities().len(),
                            ),
                        ) is Err
                    } else {
                        e == Failure::CyclicHierarchy
                    }
                },
            },
    {
        let ghost n = names@;
        let ghost p = world_parents(*world);
        let ghost ents = names.entities();
        let ghost fuel = names.entities().len();
        let entries = match build_paths(names, world) {
            Ok(v) => v,
            Err(e) => {
                return Err(e);
            },
        };
        proof {
            assert forall|i: int| 0 <= i < ents.len() implies full_path(
                n,
                p,
                ents[i],
                fuel,
            ) is Some by {
                assert(entries@[i].0 == ents[i]);
            }
            assert(entries_view(entries@) =~= named_paths(n, p, ents, fuel));
        }
        let mut index = PathIndex::new();
        match seed_all(&mut index, &entries) {
            Ok(()) => {},
            Err(e) => {
                return Err(e);
            },
        }
        proof {
            crate::seed::lemma_seeded_ok(Map::<PathId, u64>::empty(), entries_view(entries@));
        }
        self.path_map = index;
        Ok(())
    }

    /// The entity that `path` refers to. `Unique` refers to none.
    pub fn get(&self, path: &EntityPath) -> (r: Option<u64>)
        requires
            self.wf(),
        ensures
            r == if spawns(self.map(), path@) {
                None
            } else {
                Some(self.map()[path@])
            },
    {
        self.path_map.get(path)
    }

    /// Records a new entity under its path. `Unique` is never recorded, and a
    /// path that refers to an entity keeps it.
    pub fn bind(&mut self, path: &EntityPath, entity: u64)
        requires
            old(self).wf(),
        ensures
            final(self).wf(),
            final(self).document() == old(self).document(),
            final(self).map() == bound(old(self).map(), path@, entity),
    {
        if path.is_unique() {
            return ;
        }
        if self.path_map.get(path).is_none() {
            self.path_map.insert(path.clone(), entity);
        }
    }

    /// The entity that `path` refers to; a new one, which is recorded under
    /// the path, where it refers to none. `Unique` always gives a new one.
    /// The host is asked for an entity only where one is made.
    pub fn get_or_new(&mut self, commands: &mut Commands, path: &EntityPath) -> (r: u64)
        requires
            old(self).wf(),
        ensures
            final(self).wf(),
            final(self).document() == old(self).document(),
            resolves(old(self).map(), path@, r),
            final(self).map() == bound(old(self).map(), path@, r),
            fresh(host_view(*old(commands)), old(self).map(), path@, r),
            host_view(*final(commands)) == resolved_view(
                host_view(*old(commands)),
                old(self).map(),
                path@,
                r,
            ),
            !spawns(old(self).map(), path@) ==> *final(commands) == *old(commands),
    {
        match self.get(path) {
            Some(entity) => entity,
            None => {
                let id = spawn_empty(commands);
                self.bind(path, id);
                id
            },
        }
    }

    /// Places one record: resolves its target, then its parent, and asks the
    /// host for the parent edge. An entity is never made its own child.
    pub fn place(&mut self, commands: &mut Commands, record: PathedValue<V>) -> (r: Placement<V>)
        requires
            old(self).wf(),
        ensures
            final(self).wf(),
            final(self).document() == old(self).document(),
            placement_ok(old(self).map(), record@, r),
            final(self).map() == placed_map(old(self).map(), record@, r),
            placement_host_ok(host_view(*old(commands)), old(self).map(), record@, r),
            host_view(*final(commands)) == placed_view(
                host_view(*old(commands)),
                old(self).map(),
                record@,
                r,
            ),
            placement_is_silent(old(self).map(), record@, r) ==> *final(commands) == *old(
                commands,
            ),
    {
        let PathedValue { parent, path, value } = record;
        let entity = self.get_or_new(commands, &path);
        if parent.is_root() {
            return Placement { entity, parent: None, linked: false, value };
        }
        let parent_path = EntityPath::from_parent(parent);
        let parent_entity = self.get_or_new(commands, &parent_path);
        let linked = if parent_entity != entity {
            add_child(commands, parent_entity, entity)
        } else {
            false
        };
        Placement { entity, parent: Some(parent_entity), linked, value }
    }

    /// Takes the group of a type out of the document.
    pub fn take_group(&mut self, group: &String) -> (r: Option<Vec<PathedValue<V>>>)
        requires
            old(self).wf(),
        ensures
            final(self).wf(),
            final(self).map() == old(self).map(),
            match r {
                Some(records) => exists|i: int|
                    0 <= i < old(self).document().len() && #[trigger] old(self).document()[i].0
                        == group@ && records_view(records@) == old(self).document()[i].1
                        && final(self).document() == old(self).document().remove(i),
                None => !has_group(old(self).document(), group@) && final(self).document()
                    == old(self).document(),
            },
    {
        let r = self.document.take_group(group);
        proof {
            if r is Some {
                let records = r.unwrap();
                let i = choose|i: int|
                    0 <= i < old(self).document@.len() && #[trigger] old(self).document@[i].0
                        == group@ && records_view(records@) == old(self).document@[i].1
                        && self.document@ == old(self).document@.remove(i);
                assert(old(self).document()[i].0 == group@);
            }
        }
        r
    }

    /// Places the records in their order.
    pub fn place_all(&mut self, commands: &mut Commands, records: Vec<PathedValue<V>>) -> (r: Vec<
        Placement<V>,
    >)
        requires
            old(self).wf(),
        ensures
            final(self).wf(),
            final(self).document() == old(self).document(),
            is_plan(old(self).map(), records_view(records@), r@),
            final(self).map() == map_after(
                old(self).map(),
                records_view(records@),
                r@,
                records@.len(),
            ),
            is_host_plan(
                host_view(*old(commands)),
                old(self).map(),
                records_view(records@),
                r@,
            ),
            host_view(*final(commands)) == view_after(
                host_view(*old(commands)),
                old(self).map(),
                records_view(records@),
                r@,
                records@.len(),
            ),
            records@.len() == 0 ==> *final(commands) == *old(commands),
    {
        let ghost recs = records_view(records@);
        let ghost start = self.map();
        let ghost host = host_view(*commands);
        let mut out: Vec<Placement<V>> = Vec::new();
        for record in it: records
            invariant
                self.wf(),
                self.document() == old(self).document(),
                start == old(self).map(),
                host == host_view(*old(commands)),
                recs == records_view(records@),
                it.seq() == records@,
                out@.len() == it.index(),
                self.map() == map_after(start, recs, out@, out@.len()),
                host_view(*commands) == view_after(host, start, recs, out@, out@.len()),
                out@.len() == 0 ==> *commands == *old(commands),
                forall|i: int|
                    0 <= i < out@.len() ==> placement_ok(
                        map_after(start, recs, out@, i as nat),
                        recs[i],
                        #[trigger] out@[i],
                    ),
                forall|i: int|
                    0 <= i < out@.len() ==> placement_host_ok(
                        view_after(host, start, recs, out@, i as nat),
                        map_after(start, recs, out@, i as nat),
                        recs[i],
                        #[trigger] out@[i],
                    ),
        {
            let ghost before = out@;
            let ghost k = before.len();
            assert(recs[k as int] == record@);
            let placement = self.place(commands, record);
            out.push(placement);
            proof {
                assert forall|n: nat| n <= k implies #[trigger] map_after(start, recs, out@, n)
                    == map_after(start, recs, before, n) by {
                    lemma_map_after_prefix(start, recs, out@, before, n);
                }
                assert forall|n: nat| n <= k implies #[trigger] view_after(
                    host,
                    start,
                    recs,
                    out@,
                    n,
                ) == view_after(host, start, recs, before, n) by {
                    lemma_view_after_prefix(host, start, recs, out@, before, n);
                }
                assert forall|i: int| 0 <= i < out@.len() implies placement_ok(
                    map_after(start, recs, out@, i as nat),
                    recs[i],
                    #[trigger] out@[i],
                ) by {
                    if i < k {
                        assert(out@[i] == before[i]);
                    }
                }
                assert forall|i: int| 0 <= i < out@.len() implies placement_host_ok(
                    view_after(host, start, recs, out@, i as nat),
                    map_after(start, recs, out@, i as nat),
                    recs[i],
                    #[trigger] out@[i],
                ) by {
                    if i < k {
                        assert(out@[i] == before[i]);
                    }
                }
            }
        }
        out
    }

    /// Applies the group of a type: takes it out of the document and places
    /// its records in their order. `None` where the document holds no such
    /// group; the host is then asked for nothing.
    pub fn deserialize_group(&mut self, commands: &mut Commands, group: &String) -> (r: Option<
        Vec<Placement<V>>,
    >)
        requires
            old(self).wf(),
        ensures
            final(self).wf(),
            match r {
                Some(placements) => exists|i: int|
                    {
                        &&& 0 <= i < old(self).document().len()
                        &&& #[trigger] old(self).document()[i].0 == group@
                        &&& final(self).document() == old(self).document().remove(i)
                        &&& is_plan(old(self).map(), old(self).document()[i].1, placements@)
                        &&& final(self).map() == map_after(
                            old(self).map(),
                            old(self).document()[i].1,
                            placements@,
                            placements@.len() as nat,
                        )
                        &&& is_host_plan(
                            host_view(*old(commands)),
                            old(self).map(),
                            old(self).document()[i].1,
                            placements@,
                        )
                        &&& host_view(*final(commands)) == view_after(
                            host_view(*old(commands)),
                            old(self).map(),
                            old(self).document()[i].1,
                            placements@,
                            placements@.len() as nat,
                        )
                    },
                None => {
                    &&& !has_group(old(self).document(), group@)
                    &&& final(self).document() == old(self).document()
                    &&& final(self).map() == old(self).map()
                    &&& *final(commands) == *old(commands)
                },
            },
    {
        match self.take_group(group) {
            Some(records) => Some(self.place_all(commands, records)),
            None => None,
        }
    }

    /// Takes the value of a resource out of the document. The group of a
    /// resource holds one record at most.
    pub fn take_resource(&mut self, group: &String) -> (r: Result<Option<V>, Failure>)
        requires
            old(self).wf(),
        ensures
            final(self).wf(),
            final(self).map() == old(self).map(),
            !has_group(old(self).document(), group@) ==> r == Ok::<Option<V>, Failure>(None)
                && final(self).document() == old(self).document(),
            has_group(old(self).document(), group@) ==> exists|i: int|
                {
                    &&& 0 <= i < old(self).document().len()
                    &&& #[trigger] old(self).document()[i].0 == group@
                    &&& final(self).document() == old(self).document().remove(i)
                    &&& r == if old(self).document()[i].1.len() == 0 {
                        Ok::<Option<V>, Failure>(None)
                    } else if old(self).document()[i].1.len() == 1 {
                        Ok::<Option<V>, Failure>(Some(old(self).document()[i].1[0].value))
                    } else {
                        Err::<Option<V>, Failure>(Failure::MultipleResources)
                    }
                },
    {
        let mut records = match self.take_group(group) {
            Some(records) => records,
            None => {
                return Ok(None);
            },
        };
        let ghost all = records@;
        if records.len() > 1 {
            return Err(Failure::MultipleResources);
        }
        match records.pop() {
            Some(record) => {
                assert(record@ == records_view(all)[0]);
                Ok(Some(record.value))
            },
            None => Ok(None),
        }
    }
}

} // verus!
