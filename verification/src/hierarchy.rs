//! Paths of named entities: the names of an entity and of its named
//! ancestors, from the nearest unnamed ancestor down, joined by `::`.

use crate::failure::Failure;
use crate::host::{parent_of, world_parents};
use crate::names::PathNames;
use crate::text::{join_path, join_two, separator};
use bevy_ecs::world::World;
use vstd::prelude::*;

verus! {

/// Whether `e` has a parent that is named.
pub open spec fn has_named_parent(
    names: Map<u64, Seq<char>>,
    parents: Map<u64, u64>,
    e: u64,
) -> bool {
    parents.contains_key(e) && names.contains_key(parents[e])
}

/// The path of the named entity `e`: its own name where its parent is absent
/// or unnamed, else the parent's path, a separator and its name. An unnamed
/// ancestor hides everything above it. `None` where more than `fuel` named
/// ancestors stand in a row.
pub open spec fn full_path(
    names: Map<u64, Seq<char>>,
    parents: Map<u64, u64>,
    e: u64,
    fuel: nat,
) -> Option<Seq<char>>
    decreases fuel,
{
    if !has_named_parent(names, parents, e) {
        Some(names[e])
    } else if fuel == 0 {
        None
    } else {
        match full_path(names, parents, parents[e], (fuel - 1) as nat) {
            Some(p) => Some(p + separator() + names[e]),
            None => None,
        }
    }
}

/// The names that make the path of the named entity `e`, topmost first.
pub open spec fn segments(
    names: Map<u64, Seq<char>>,
    parents: Map<u64, u64>,
    e: u64,
    fuel: nat,
) -> Option<Seq<Seq<char>>>
    decreases fuel,
{
    if !has_named_parent(names, parents, e) {
        Some(seq![names[e]])
    } else if fuel == 0 {
        None
    } else {
        match segments(names, parents, parents[e], (fuel - 1) as nat) {
            Some(s) => Some(s.push(names[e])),
            None => None,
        }
    }
}

/// The path is the names from the topmost named ancestor in a row down to
/// the entity, joined by `::`.
pub proof fn lemma_path_joins_segments(
    names: Map<u64, Seq<char>>,
    parents: Map<u64, u64>,
    e: u64,
    fuel: nat,
)
    ensures
        full_path(names, parents, e, fuel) is Some <==> segments(names, parents, e, fuel) is Some,
        full_path(names, parents, e, fuel) is Some ==> {
            &&& segments(names, parents, e, fuel).unwrap().len() >= 1
            &&& segments(names, parents, e, fuel).unwrap().last() == names[e]
            &&& full_path(names, parents, e, fuel).unwrap() == join_path(
                segments(names, parents, e, fuel).unwrap(),
            )
        },
    decreases fuel,
{
    if has_named_parent(names, parents, e) && fuel > 0 {
        lemma_path_joins_segments(names, parents, parents[e], (fuel - 1) as nat);
        if full_path(names, parents, e, fuel) is Some {
            let up = segments(names, parents, parents[e], (fuel - 1) as nat).unwrap();
            let all = up.push(names[e]);
            assert(all.drop_last() =~= up);
        }
    }
}

/// Whether each of `entities` has a path within `fuel` steps.
pub open spec fn all_resolved(
    names: Map<u64, Seq<char>>,
    parents: Map<u64, u64>,
    entities: Seq<u64>,
    fuel: nat,
) -> bool {
    forall|i: int| 0 <= i < entities.len() ==> full_path(names, parents, entities[i], fuel) is Some
}

/// The path of one named entity, following the world's parent edges. A chain
/// of named ancestors that is longer than the number of named entities
/// repeats one of them: the hierarchy has a cycle.
pub fn path_of_named(names: &PathNames, world: &World, entity: u64) -> (r: Result<String, Failure>)
    requires
        names.wf(),
        names@.contains_key(entity),
    ensures
        match r {
            Ok(p) => full_path(
                names@,
                world_parents(*world),
                entity,
                names.entities().len(),
            ) == Some(p@),
            Err(e) => e == Failure::CyclicHierarchy && full_path(
                names@,
                world_parents(*world),
                entity,
                names.entities().len(),
            ) is None,
        },
{
    let fuel = names.len();
    let ghost n = names@;
    let ghost p = world_parents(*world);
    let mut cur = entity;
    let mut suffix: String = match names.get(entity) {
        Some(s) => String::from_str(s),
        None => String::new(),
    };
    let mut steps: usize = 0;
    let ghost mut rest: Seq<char> = Seq::empty();
    assert(suffix@ =~= n[cur] + rest);
    loop
        invariant
            n == names@,
            p == world_parents(*world),
            fuel == names.entities().len(),
            n.contains_key(cur),
            suffix@ == n[cur] + rest,
            steps <= fuel,
            full_path(n, p, entity, fuel as nat) == match full_path(
                n,
                p,
                cur,
                (fuel - steps) as nat,
            ) {
                Some(q) => Some(q + rest),
                None => None,
            },
        decreases fuel - steps,
    {
        let parent = match parent_of(world, cur) {
            Some(q) => q,
            None => {
                return Ok(suffix);
            },
        };
        let parent_name = match names.get(parent) {
            Some(s) => s,
            None => {
                return Ok(suffix);
            },
        };
        assert(has_named_parent(n, p, cur));
        if steps == fuel {
            return Err(Failure::CyclicHierarchy);
        }
        let longer = join_two(parent_name, suffix.as_str());
        proof {
            let new_rest = separator() + n[cur] + rest;
            assert(longer@ =~= n[parent] + new_rest);
            let k = (fuel - steps) as nat;
            match full_path(n, p, parent, (k - 1) as nat) {
                Some(q) => {
                    assert((q + separator() + n[cur]) + rest =~= q + new_rest);
                },
                None => {},
            }
            rest = new_rest;
        }
        suffix = longer;
        cur = parent;
        steps = steps + 1;
    }
}

/// The path of every named entity, in the order of naming.
pub fn build_paths(names: &PathNames, world: &World) -> (r: Result<Vec<(u64, String)>, Failure>)
    requires
        names.wf(),
    ensures
        match r {
            Ok(v) => {
                &&& v@.len() == names.entities().len()
                &&& forall|i: int|
                    0 <= i < v@.len() ==> (#[trigger] v@[i]).0 == names.entities()[i] && full_path(
                        names@,
                        world_parents(*world),
                        names.entities()[i],
                        names.entities().len(),
                    ) == Some(v@[i].1@)
            },
            Err(e) => e == Failure::CyclicHierarchy && !all_resolved(
                names@,
                world_parents(*world),
                names.entities(),
                names.entities().len(),
            ),
        },
{
    let mut out: Vec<(u64, String)> = Vec::new();
    let n = names.len();
    let mut i: usize = 0;
    while i < n
        invariant
            names.wf(),
            n == names.entities().len(),
            i <= n,
            out@.len() == i,
            forall|j: int|
                0 <= j < i ==> (#[trigger] out@[j]).0 == names.entities()[j] && full_path(
                    names@,
                    world_parents(*world),
                    names.entities()[j],
                    names.entities().len(),
                ) == Some(out@[j].1@),
        decreases n - i,
    {
        let e = names.entity_at(i);
        proof {
            names.lemma_entities();
            assert(names.entities().contains(e));
        }
        match path_of_named(names, world, e) {
            Ok(p) => {
                let ghost before = out@;
                out.push((e, p));
                assert(forall|j: int| 0 <= j < i ==> out@[j] == before[j]);
            },
            Err(err) => {
                assert(full_path(
                    names@,
                    world_parents(*world),
                    names.entities()[i as int],
                    names.entities().len(),
                ) is None);
                return Err(err);
            },
        }
        i += 1;
    }
    Ok(out)
}

} // verus!
