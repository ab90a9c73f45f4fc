//! What holds of saving and loading as a whole.

use crate::deserialize::{
    bound, is_host_plan, is_plan, map_after, parent_view, placed_view, placement_host_ok,
    placement_ok, resolves, spawns, target_view, view_after, Placement,
};
use crate::host::HostView;
use crate::failure::Failure;
use crate::hierarchy::{full_path, has_named_parent};
use crate::path::{ParentId, PathId, Record};
use crate::seed::{collides, lemma_collision_is_refused, lemma_seeded_ok, seeded};
use crate::serialize::{has_orphan, is_orphan, parent_slot, records_of, Extracted};
use crate::text::{has_sep, last_segment, lemma_last_segment_of_joined, lemma_segment_start_without_sep, separator};
use vstd::prelude::*;

verus! {

/// How many of the first `n` records got a target that was newly made.
pub open spec fn created<V>(
    map: Map<PathId, u64>,
    recs: Seq<Record<V>>,
    pls: Seq<Placement<V>>,
    n: nat,
) -> nat
    decreases n,
{
    if n == 0 {
        0
    } else {
        created(map, recs, pls, (n - 1) as nat) + if spawns(
            map_after(map, recs, pls, (n - 1) as nat),
            recs[n - 1].path,
        ) {
            1nat
        } else {
            0nat
        }
    }
}

/// Whether the record refers only to identities that the map holds: its own
/// path, and its parent unless that is `Root`.
pub open spec fn known<V>(map: Map<PathId, u64>, rec: Record<V>) -> bool {
    &&& !spawns(map, rec.path)
    &&& rec.parent is Root || !spawns(map, rec.parent.path())
}

/// Placing records never takes an identity from the entity it refers to.
pub proof fn lemma_map_after_keeps<V>(
    map: Map<PathId, u64>,
    recs: Seq<Record<V>>,
    pls: Seq<Placement<V>>,
    n: nat,
)
    ensures
        forall|k: PathId| #[trigger]
            map.contains_key(k) ==> map_after(map, recs, pls, n).contains_key(k) && map_after(
                map,
                recs,
                pls,
                n,
            )[k] == map[k],
    decreases n,
{
    if n > 0 {
        lemma_map_after_keeps(map, recs, pls, (n - 1) as nat);
    }
}

/// What a plan says of its `i`-th placement.
pub proof fn lemma_plan_step<V>(
    map: Map<PathId, u64>,
    recs: Seq<Record<V>>,
    pls: Seq<Placement<V>>,
    i: int,
)
    requires
        is_plan(map, recs, pls),
        0 <= i < recs.len(),
    ensures
        placement_ok(map_after(map, recs, pls, i as nat), recs[i], pls[i]),
{
    assert(pls[i] == pls[i]);
}

/// Loading records that refer only to identities of the live graph makes
/// no entity and leaves the map as it was.
pub proof fn lemma_known_records_make_nothing<V>(
    map: Map<PathId, u64>,
    recs: Seq<Record<V>>,
    pls: Seq<Placement<V>>,
    n: nat,
)
    requires
        pls.len() == recs.len(),
        n <= recs.len(),
        forall|i: int| 0 <= i < recs.len() ==> known(map, #[trigger] recs[i]),
    ensures
        map_after(map, recs, pls, n) == map,
        created(map, recs, pls, n) == 0,
    decreases n,
{
    if n > 0 {
        let k = (n - 1) as nat;
        lemma_known_records_make_nothing(map, recs, pls, k);
        let rec = recs[k as int];
        assert(known(map, rec));
    }
}

/// Loading records that refer only to identities of the live graph: each
/// component goes to the entity that its path names, under the entity that
/// its parent names.
pub proof fn lemma_known_records_update_in_place<V>(
    map: Map<PathId, u64>,
    recs: Seq<Record<V>>,
    pls: Seq<Placement<V>>,
    i: int,
)
    requires
        is_plan(map, recs, pls),
        0 <= i < recs.len(),
        forall|j: int| 0 <= j < recs.len() ==> known(map, #[trigger] recs[j]),
    ensures
        pls[i].value == recs[i].value,
        pls[i].entity == map[recs[i].path],
        pls[i].parent == (if recs[i].parent is Root {
            None
        } else {
            Some(map[recs[i].parent.path()])
        }),
{
    lemma_known_records_make_nothing(map, recs, pls, i as nat);
    lemma_plan_step(map, recs, pls, i);
    assert(known(map, recs[i]));
}

/// Loading the same document twice against the same live graph: records
/// that refer only to identities of the graph go to the same entities both
/// times, and neither load makes an entity.
pub proof fn lemma_reload_is_idempotent<V>(
    map: Map<PathId, u64>,
    recs: Seq<Record<V>>,
    first: Seq<Placement<V>>,
    second: Seq<Placement<V>>,
)
    requires
        is_plan(map, recs, first),
        is_plan(map, recs, second),
        forall|i: int| 0 <= i < recs.len() ==> known(map, #[trigger] recs[i]),
    ensures
        created(map, recs, first, recs.len()) == 0,
        created(map, recs, second, recs.len()) == 0,
        map_after(map, recs, first, recs.len()) == map,
        map_after(map, recs, second, recs.len()) == map,
        forall|i: int|
            0 <= i < recs.len() ==> (#[trigger] first[i]).entity == second[i].entity && first[i].parent
                == second[i].parent && first[i].value == second[i].value,
{
    lemma_known_records_make_nothing(map, recs, first, recs.len());
    lemma_known_records_make_nothing(map, recs, second, recs.len());
    assert forall|i: int| 0 <= i < recs.len() implies (#[trigger] first[i]).entity
        == second[i].entity && first[i].parent == second[i].parent && first[i].value
        == second[i].value by {
        lemma_known_records_update_in_place(map, recs, first, i);
        lemma_known_records_update_in_place(map, recs, second, i);
    }
}

/// Every load of records without identity makes one entity for each of
/// them: two loads make twice as many.
pub proof fn lemma_unique_records_duplicate<V>(
    map: Map<PathId, u64>,
    recs: Seq<Record<V>>,
    pls: Seq<Placement<V>>,
    n: nat,
)
    requires
        n <= recs.len(),
        forall|i: int| 0 <= i < recs.len() ==> (#[trigger] recs[i]).path is Unique,
    ensures
        created(map, recs, pls, n) == n,
    decreases n,
{
    if n > 0 {
        lemma_unique_records_duplicate(map, recs, pls, (n - 1) as nat);
        assert(recs[n - 1].path is Unique);
    }
}

/// Which identities a load has bound: those of the map it began with, and
/// the paths and parents of the records placed so far.
pub proof fn lemma_map_after_keys<V>(
    map: Map<PathId, u64>,
    recs: Seq<Record<V>>,
    pls: Seq<Placement<V>>,
    n: nat,
    k: PathId,
)
    requires
        n <= recs.len(),
        map_after(map, recs, pls, n).contains_key(k),
    ensures
        map.contains_key(k) || exists|i: int|
            0 <= i < n && ((#[trigger] recs[i]).path == k || recs[i].parent.path() == k),
    decreases n,
{
    if n > 0 {
        let m = map_after(map, recs, pls, (n - 1) as nat);
        let rec = recs[n - 1];
        if m.contains_key(k) {
            lemma_map_after_keys(map, recs, pls, (n - 1) as nat, k);
            if !map.contains_key(k) {
                let i = choose|i: int|
                    0 <= i < n - 1 && ((#[trigger] recs[i]).path == k || recs[i].parent.path()
                        == k);
                assert(0 <= i < n && (recs[i].path == k || recs[i].parent.path() == k));
            }
        } else {
            assert(rec.path == k || rec.parent.path() == k);
        }
    }
}

/// Every load of records that are known by entity numbers alone makes one
/// entity for each number: the numbers serve within one save, and a load
/// begins without them.
pub proof fn lemma_numbered_records_duplicate<V>(
    map: Map<PathId, u64>,
    recs: Seq<Record<V>>,
    pls: Seq<Placement<V>>,
    n: nat,
)
    requires
        n <= recs.len(),
        forall|k: PathId| #[trigger] map.contains_key(k) ==> k is Path,
        forall|i: int| 0 <= i < recs.len() ==> (#[trigger] recs[i]).path is Entity,
        forall|i: int| 0 <= i < recs.len() ==> !((#[trigger] recs[i]).parent is Entity),
        forall|i: int, j: int|
            0 <= i < j < recs.len() ==> (#[trigger] recs[i]).path != (#[trigger] recs[j]).path,
    ensures
        created(map, recs, pls, n) == n,
    decreases n,
{
    if n > 0 {
        lemma_numbered_records_duplicate(map, recs, pls, (n - 1) as nat);
        let m = map_after(map, recs, pls, (n - 1) as nat);
        let k = recs[n - 1].path;
        assert(k is Entity);
        if m.contains_key(k) {
            lemma_map_after_keys(map, recs, pls, (n - 1) as nat, k);
            let i = choose|i: int|
                0 <= i < n - 1 && ((#[trigger] recs[i]).path == k || recs[i].parent.path() == k);
            assert(recs[i].path != recs[n - 1].path);
            assert(!(recs[i].parent is Entity));
        }
    }
}

/// A map that was seeded from the live graph holds paths only: an entity
/// number, which serves within one save, refers to nothing at the start of a
/// load, so that its first use makes a new entity.
pub proof fn lemma_numbers_start_unbound(entries: Seq<(u64, Seq<char>)>, id: u64)
    requires
        seeded(Map::<PathId, u64>::empty(), entries) is Ok,
    ensures
        spawns(seeded(Map::<PathId, u64>::empty(), entries).unwrap(), PathId::Entity(id)),
        spawns(seeded(Map::<PathId, u64>::empty(), entries).unwrap(), PathId::Unique),
{
    lemma_seeded_ok(Map::<PathId, u64>::empty(), entries);
}

/// Within one load an identity that was resolved once resolves to the same
/// entity from then on.
pub proof fn lemma_resolution_is_stable(
    map: Map<PathId, u64>,
    path: PathId,
    first: u64,
    second: u64,
)
    requires
        !(path is Unique),
        resolves(map, path, first),
        resolves(bound(map, path, first), path, second),
    ensures
        second == first,
        !spawns(bound(map, path, first), path),
        bound(bound(map, path, first), path, second) == bound(map, path, first),
{
}

/// Save, then load: a component that was taken from a named entity comes
/// back, with the value it had, to the entity that its path names at load
/// time; to the same entity where that one still has the path.
pub proof fn lemma_round_trip<V>(
    paths: Map<u64, Seq<char>>,
    items: Seq<Extracted<V>>,
    map: Map<PathId, u64>,
    pls: Seq<Placement<V>>,
    i: int,
)
    requires
        !has_orphan(paths, items),
        is_plan(map, records_of(paths, items), pls),
        0 <= i < items.len(),
        paths.contains_key(items[i].entity),
        map.contains_key(PathId::Path(paths[items[i].entity])),
    ensures
        pls[i].value == items[i].value,
        pls[i].entity == map[PathId::Path(paths[items[i].entity])],
{
    let recs = records_of(paths, items);
    lemma_map_after_keeps(map, recs, pls, i as nat);
    lemma_plan_step(map, recs, pls, i);
}

/// The parent of a loaded record is whichever entity has the parent's path
/// when the load begins. Renaming entities moves the path, and later loads
/// with it; no placement removes an entity or an edge.
pub proof fn lemma_parent_follows_names<V>(
    map: Map<PathId, u64>,
    recs: Seq<Record<V>>,
    pls: Seq<Placement<V>>,
    i: int,
)
    requires
        is_plan(map, recs, pls),
        0 <= i < recs.len(),
        recs[i].parent is Path,
        map.contains_key(recs[i].parent.path()),
    ensures
        pls[i].parent == Some(map[recs[i].parent.path()]),
{
    lemma_map_after_keeps(map, recs, pls, i as nat);
    lemma_plan_step(map, recs, pls, i);
}

/// The path of an entity is made of names alone: an entity whose parent is
/// absent or unnamed has its name as its path, whatever stands above, and
/// the path of any other is its parent's path, a separator and its name.
pub proof fn lemma_path_by_names(
    names: Map<u64, Seq<char>>,
    parents: Map<u64, u64>,
    e: u64,
    fuel: nat,
)
    ensures
        !has_named_parent(names, parents, e) ==> full_path(names, parents, e, fuel) == Some(
            names[e],
        ),
        has_named_parent(names, parents, e) && full_path(names, parents, e, fuel) is Some ==> fuel
            > 0 && full_path(names, parents, parents[e], (fuel - 1) as nat) is Some && full_path(
            names,
            parents,
            e,
            fuel,
        ).unwrap() == full_path(names, parents, parents[e], (fuel - 1) as nat).unwrap()
            + separator() + names[e],
{
}

/// The last segment of an entity's path is the entity's own name, where the
/// name holds no separator and does not begin with `:`.
pub proof fn lemma_name_is_last_segment(
    names: Map<u64, Seq<char>>,
    parents: Map<u64, u64>,
    e: u64,
    fuel: nat,
)
    requires
        full_path(names, parents, e, fuel) is Some,
        !has_sep(names[e]),
        names[e].len() > 0 ==> names[e][0] != ':',
    ensures
        last_segment(full_path(names, parents, e, fuel).unwrap()) == names[e],
{
    if has_named_parent(names, parents, e) {
        let head = full_path(names, parents, parents[e], (fuel - 1) as nat).unwrap();
        lemma_last_segment_of_joined(head, names[e]);
    } else {
        lemma_segment_start_without_sep(names[e]);
    }
}

/// Two distinct entities whose paths coincide fail the operation.
pub proof fn lemma_path_collision_is_fatal(entries: Seq<(u64, Seq<char>)>, a: int, b: int)
    requires
        0 <= a < b < entries.len(),
        entries[a].0 != entries[b].0,
        entries[a].1 == entries[b].1,
    ensures
        seeded(Map::<PathId, u64>::empty(), entries) is Err,
{
    assert(collides(entries));
    lemma_collision_is_refused(Map::<PathId, u64>::empty(), entries);
}

/// An entity with a parent that has no path and is not selected is an
/// orphan, and one orphan fails the group.
pub proof fn lemma_orphan_is_detected<V>(
    paths: Map<u64, Seq<char>>,
    items: Seq<Extracted<V>>,
    i: int,
)
    requires
        0 <= i < items.len(),
        items[i].parent is Some,
        !paths.contains_key(items[i].parent.unwrap()),
        !items[i].parent_selected,
    ensures
        parent_slot(paths, items[i].parent, items[i].parent_selected) == Err::<ParentId, Failure>(
            Failure::Orphaned,
        ),
        has_orphan(paths, items),
{
    assert(is_orphan(paths, items[i]));
}

/// What a host plan says of its `i`-th placement.
pub proof fn lemma_host_plan_step<V>(
    view: HostView,
    map: Map<PathId, u64>,
    recs: Seq<Record<V>>,
    pls: Seq<Placement<V>>,
    i: int,
)
    requires
        is_host_plan(view, map, recs, pls),
        0 <= i < recs.len(),
    ensures
        placement_host_ok(
            view_after(view, map, recs, pls, i as nat),
            map_after(map, recs, pls, i as nat),
            recs[i],
            pls[i],
        ),
{
    assert(pls[i] == pls[i]);
}

/// Whether the edge is the one that the placement queued: from the
/// record's parent to its target.
pub open spec fn is_edge_of<V>(pl: Placement<V>, edge: (u64, u64)) -> bool {
    pl.linked && pl.parent.unwrap() == edge.0 && pl.entity == edge.1
}

/// Whether one of the first `n` placements queued the edge.
pub open spec fn queued_by<V>(pls: Seq<Placement<V>>, n: nat, edge: (u64, u64)) -> bool {
    exists|i: int| 0 <= i < n && is_edge_of(#[trigger] pls[i], edge)
}

/// A load leaves alone what no record names: it queues no removal, every
/// entity that was alive or reserved stays so, the edges that waited still
/// wait, and every edge that it queues makes the target of a record the
/// child of that record's parent.
pub proof fn lemma_load_leaves_others_alone<V>(
    view: HostView,
    map: Map<PathId, u64>,
    recs: Seq<Record<V>>,
    pls: Seq<Placement<V>>,
    n: nat,
)
    requires
        n <= recs.len(),
        pls.len() == recs.len(),
    ensures
        view_after(view, map, recs, pls, n).despawns == view.despawns,
        view.allocated.subset_of(view_after(view, map, recs, pls, n).allocated),
        view.held.subset_of(view_after(view, map, recs, pls, n).held),
        view.edges.len() <= view_after(view, map, recs, pls, n).edges.len(),
        forall|k: int|
            0 <= k < view.edges.len() ==> view_after(view, map, recs, pls, n).edges[k]
                == view.edges[k],
        forall|k: int|
            view.edges.len() <= k < view_after(view, map, recs, pls, n).edges.len() ==> queued_by(
                pls,
                n,
                #[trigger] view_after(view, map, recs, pls, n).edges[k],
            ),
    decreases n,
{
    if n > 0 {
        let m = (n - 1) as nat;
        lemma_load_leaves_others_alone(view, map, recs, pls, m);
        let before = view_after(view, map, recs, pls, m);
        let after = view_after(view, map, recs, pls, n);
        let pl = pls[n - 1];
        let rec = recs[n - 1];
        let mid = parent_view(before, map_after(map, recs, pls, m), rec, pl);
        assert(mid.edges == before.edges && mid.despawns == before.despawns);
        assert(before.allocated.subset_of(mid.allocated));
        assert(before.held.subset_of(mid.held));
        assert forall|k: int| view.edges.len() <= k < after.edges.len() implies queued_by(
            pls,
            n,
            #[trigger] after.edges[k],
        ) by {
            if k < before.edges.len() {
                assert(queued_by(pls, m, before.edges[k]));
                let i = choose|i: int| 0 <= i < m && is_edge_of(#[trigger] pls[i], before.edges[k]);
                assert(is_edge_of(pls[i], after.edges[k]));
            } else {
                assert(is_edge_of(pls[n - 1], after.edges[k]));
            }
        }
    }
}

/// Whether the identity was bound during the load: the map holds it now
/// and did not when the load began.
pub open spec fn newly_bound(start: Map<PathId, u64>, now: Map<PathId, u64>, k: PathId) -> bool {
    now.contains_key(k) && !start.contains_key(k)
}

/// From one step of a load to a later one, bindings stay and no entity
/// stops being alive or reserved.
pub proof fn lemma_load_only_grows<V>(
    view: HostView,
    map: Map<PathId, u64>,
    recs: Seq<Record<V>>,
    pls: Seq<Placement<V>>,
    a: nat,
    b: nat,
)
    requires
        a <= b <= recs.len(),
    ensures
        view_after(view, map, recs, pls, a).allocated.subset_of(
            view_after(view, map, recs, pls, b).allocated,
        ),
        forall|k: PathId| #[trigger]
            map_after(map, recs, pls, a).contains_key(k) ==> map_after(
                map,
                recs,
                pls,
                b,
            ).contains_key(k) && map_after(map, recs, pls, b)[k] == map_after(map, recs, pls, a)[k],
    decreases b - a,
{
    if a < b {
        let m = (b - 1) as nat;
        lemma_load_only_grows(view, map, recs, pls, a, m);
        let before = view_after(view, map, recs, pls, m);
        let mid = parent_view(before, map_after(map, recs, pls, m), recs[b - 1], pls[b - 1]);
        assert(before.allocated.subset_of(mid.allocated));
    }
}

/// Every identity that a load binds gets an entity of its own that the
/// load made: one that was neither alive nor reserved when the load began,
/// and that no other identity bound by the load refers to.
pub proof fn lemma_new_bindings_are_new<V>(
    view: HostView,
    map: Map<PathId, u64>,
    recs: Seq<Record<V>>,
    pls: Seq<Placement<V>>,
    n: nat,
)
    requires
        is_plan(map, recs, pls),
        is_host_plan(view, map, recs, pls),
        n <= recs.len(),
    ensures
        forall|k: PathId| #[trigger]
            newly_bound(map, map_after(map, recs, pls, n), k) ==> {
                &&& view_after(view, map, recs, pls, n).allocated.contains(
                    map_after(map, recs, pls, n)[k],
                )
                &&& !view.allocated.contains(map_after(map, recs, pls, n)[k])
            },
        forall|j: PathId, k: PathId|
            #![trigger newly_bound(map, map_after(map, recs, pls, n), j), newly_bound(map, map_after(map, recs, pls, n), k)]
            newly_bound(map, map_after(map, recs, pls, n), j) && newly_bound(
                map,
                map_after(map, recs, pls, n),
                k,
            ) && j != k ==> map_after(map, recs, pls, n)[j] != map_after(map, recs, pls, n)[k],
    decreases n,
{
    if n > 0 {
        let p = (n - 1) as nat;
        lemma_new_bindings_are_new(view, map, recs, pls, p);
        lemma_load_only_grows(view, map, recs, pls, 0, p);
        lemma_plan_step(map, recs, pls, p as int);
        lemma_host_plan_step(view, map, recs, pls, p as int);
        let m = map_after(map, recs, pls, p);
        let v = view_after(view, map, recs, pls, p);
        let rec = recs[p as int];
        let pl = pls[p as int];
        let m1 = bound(m, rec.path, pl.entity);
        let v1 = target_view(v, m, rec, pl);
        let m2 = map_after(map, recs, pls, n);
        let v2 = parent_view(v, m, rec, pl);
        assert(view_after(view, map, recs, pls, n).allocated == v2.allocated);
        assert(view.allocated.subset_of(v.allocated));
        assert(v.allocated.subset_of(v1.allocated));
        assert(v1.allocated.subset_of(v2.allocated));
        // what the target's resolution leaves
        assert forall|k: PathId| #[trigger] newly_bound(map, m1, k) implies v1.allocated.contains(
            m1[k],
        ) && !view.allocated.contains(m1[k]) by {
            if m.contains_key(k) {
                assert(newly_bound(map, m, k));
            }
        }
        assert forall|j: PathId, k: PathId|
            newly_bound(map, m1, j) && newly_bound(map, m1, k) && j != k implies m1[j] != m1[k] by {
            if m.contains_key(j) {
                assert(newly_bound(map, m, j));
            }
            if m.contains_key(k) {
                assert(newly_bound(map, m, k));
            }
        }
        // what the parent's resolution leaves
        assert forall|k: PathId| #[trigger] newly_bound(map, m2, k) implies v2.allocated.contains(
            m2[k],
        ) && !view.allocated.contains(m2[k]) by {
            if m1.contains_key(k) {
                assert(newly_bound(map, m1, k));
            }
        }
        assert forall|j: PathId, k: PathId|
            newly_bound(map, m2, j) && newly_bound(map, m2, k) && j != k implies m2[j] != m2[k] by {
            if m1.contains_key(j) {
                assert(newly_bound(map, m1, j));
            }
            if m1.contains_key(k) {
                assert(newly_bound(map, m1, k));
            }
        }
    }
}

/// A record whose identity the live graph does not hold gets an entity that
/// the load made, on every load: one that was neither alive nor reserved
/// when the load began.
pub proof fn lemma_unbound_targets_are_new<V>(
    view: HostView,
    map: Map<PathId, u64>,
    recs: Seq<Record<V>>,
    pls: Seq<Placement<V>>,
    i: int,
)
    requires
        is_plan(map, recs, pls),
        is_host_plan(view, map, recs, pls),
        0 <= i < recs.len(),
        spawns(map, recs[i].path),
    ensures
        !view.allocated.contains(pls[i].entity),
        view_after(view, map, recs, pls, (i + 1) as nat).allocated.contains(pls[i].entity),
{
    let m = map_after(map, recs, pls, i as nat);
    let v = view_after(view, map, recs, pls, i as nat);
    lemma_plan_step(map, recs, pls, i);
    lemma_host_plan_step(view, map, recs, pls, i);
    lemma_load_only_grows(view, map, recs, pls, 0, i as nat);
    lemma_load_only_grows(view, map, recs, pls, i as nat, (i + 1) as nat);
    lemma_new_bindings_are_new(view, map, recs, pls, i as nat);
    let v1 = target_view(v, m, recs[i], pls[i]);
    let v2 = parent_view(v, m, recs[i], pls[i]);
    assert(v1.allocated.subset_of(v2.allocated));
    assert(view_after(view, map, recs, pls, (i + 1) as nat).allocated == v2.allocated);
    if !spawns(m, recs[i].path) {
        assert(newly_bound(map, m, recs[i].path));
    }
}

/// An entity that a load made and bound to no identity is bound to none
/// later in that load.
pub proof fn lemma_made_entity_stays_unbound<V>(
    view: HostView,
    map: Map<PathId, u64>,
    recs: Seq<Record<V>>,
    pls: Seq<Placement<V>>,
    s: nat,
    n: nat,
    e: u64,
)
    requires
        is_plan(map, recs, pls),
        is_host_plan(view, map, recs, pls),
        s <= n <= recs.len(),
        view_after(view, map, recs, pls, s).allocated.contains(e),
        forall|k: PathId| #[trigger]
            newly_bound(map, map_after(map, recs, pls, s), k) ==> map_after(map, recs, pls, s)[k]
                != e,
    ensures
        forall|k: PathId| #[trigger]
            newly_bound(map, map_after(map, recs, pls, n), k) ==> map_after(map, recs, pls, n)[k]
                != e,
    decreases n - s,
{
    if s < n {
        let p = (n - 1) as nat;
        lemma_made_entity_stays_unbound(view, map, recs, pls, s, p, e);
        lemma_load_only_grows(view, map, recs, pls, s, p);
        lemma_plan_step(map, recs, pls, p as int);
        lemma_host_plan_step(view, map, recs, pls, p as int);
        let m = map_after(map, recs, pls, p);
        let v = view_after(view, map, recs, pls, p);
        let rec = recs[p as int];
        let pl = pls[p as int];
        let m1 = bound(m, rec.path, pl.entity);
        let v1 = target_view(v, m, rec, pl);
        let m2 = map_after(map, recs, pls, n);
        assert(v.allocated.contains(e));
        assert(v1.allocated.contains(e));
        assert forall|k: PathId| #[trigger] newly_bound(map, m1, k) implies m1[k] != e by {
            if m.contains_key(k) {
                assert(newly_bound(map, m, k));
            }
        }
        assert forall|k: PathId| #[trigger] newly_bound(map, m2, k) implies m2[k] != e by {
            if m1.contains_key(k) {
                assert(newly_bound(map, m1, k));
            }
        }
    }
}

/// Records whose identities the live graph does not hold get entities of
/// their own, unless they share one identity: two records without identity,
/// or with two identities, never go to one entity. With the law before,
/// every load adds one entity for each identity that the graph does not hold
/// and one for each record without identity.
pub proof fn lemma_unbound_targets_differ<V>(
    view: HostView,
    map: Map<PathId, u64>,
    recs: Seq<Record<V>>,
    pls: Seq<Placement<V>>,
    i: int,
    j: int,
)
    requires
        is_plan(map, recs, pls),
        is_host_plan(view, map, recs, pls),
        0 <= i < j < recs.len(),
        spawns(map, recs[i].path),
        spawns(map, recs[j].path),
        recs[i].path is Unique || recs[i].path != recs[j].path,
    ensures
        pls[i].entity != pls[j].entity,
{
    let e = pls[i].entity;
    let mi = map_after(map, recs, pls, i as nat);
    let vi = view_after(view, map, recs, pls, i as nat);
    let next = (i + 1) as nat;
    let mj = map_after(map, recs, pls, j as nat);
    let vj = view_after(view, map, recs, pls, j as nat);
    lemma_unbound_targets_are_new(view, map, recs, pls, i);
    lemma_load_only_grows(view, map, recs, pls, next, j as nat);
    lemma_plan_step(map, recs, pls, i);
    lemma_host_plan_step(view, map, recs, pls, i);
    lemma_plan_step(map, recs, pls, j);
    lemma_host_plan_step(view, map, recs, pls, j);
    assert(vj.allocated.contains(e));
    if !spawns(mj, recs[j].path) {
        assert(newly_bound(map, mj, recs[j].path));
        if recs[i].path is Unique {
            lemma_new_bindings_are_new(view, map, recs, pls, i as nat);
            let m1 = bound(mi, recs[i].path, e);
            let v1 = target_view(vi, mi, recs[i], pls[i]);
            let m2 = map_after(map, recs, pls, next);
            assert(m1 == mi);
            assert(v1.allocated.contains(e));
            assert forall|k: PathId| #[trigger] newly_bound(map, m2, k) implies m2[k] != e by {
                if mi.contains_key(k) {
                    assert(newly_bound(map, mi, k));
                }
            }
            lemma_made_entity_stays_unbound(view, map, recs, pls, next, j as nat, e);
        } else {
            let m1 = bound(mi, recs[i].path, e);
            let m2 = map_after(map, recs, pls, next);
            assert(m1.contains_key(recs[i].path) && m1[recs[i].path] == e);
            assert(m2.contains_key(recs[i].path) && m2[recs[i].path] == e);
            assert(mj.contains_key(recs[i].path) && mj[recs[i].path] == e);
            assert(newly_bound(map, mj, recs[i].path));
            lemma_new_bindings_are_new(view, map, recs, pls, j as nat);
        }
    }
}

} // verus!
