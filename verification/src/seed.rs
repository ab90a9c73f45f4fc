//! Seeding the reconciliation map with the paths of the live named entities.

use crate::failure::Failure;
use crate::hierarchy::full_path;
use crate::index::PathIndex;
use crate::path::{EntityPath, PathId};
use vstd::prelude::*;

verus! {

/// What a list of entities with their paths stands for.
pub open spec fn entries_view(entries: Seq<(u64, String)>) -> Seq<(u64, Seq<char>)> {
    entries.map_values(|e: (u64, String)| (e.0, e.1@))
}

/// Each of `entities` with its path.
pub open spec fn named_paths(
    names: Map<u64, Seq<char>>,
    parents: Map<u64, u64>,
    entities: Seq<u64>,
    fuel: nat,
) -> Seq<(u64, Seq<char>)> {
    Seq::new(
        entities.len(),
        |i: int| (entities[i], full_path(names, parents, entities[i], fuel).unwrap()),
    )
}

/// Recording that `path` is the path of `entity`: refused where the path
/// already belongs to another entity.
pub open spec fn seed_step(map: Map<PathId, u64>, entity: u64, path: Seq<char>) -> Result<
    Map<PathId, u64>,
    Failure,
> {
    let k = PathId::Path(path);
    if map.contains_key(k) && map[k] != entity {
        Err(Failure::DuplicatePath)
    } else {
        Ok(map.insert(k, entity))
    }
}

/// Recording the entries one after the other, up to the first that is refused.
pub open spec fn seeded(map: Map<PathId, u64>, entries: Seq<(u64, Seq<char>)>) -> Result<
    Map<PathId, u64>,
    Failure,
>
    decreases entries.len(),
{
    if entries.len() == 0 {
        Ok(map)
    } else {
        match seeded(map, entries.drop_last()) {
            Err(e) => Err(e),
            Ok(m) => seed_step(m, entries.last().0, entries.last().1),
        }
    }
}

/// Whether two of the entries give one path to two entities.
pub open spec fn collides(entries: Seq<(u64, Seq<char>)>) -> bool {
    exists|i: int, j: int|
        0 <= i < j < entries.len() && entries[i].1 == entries[j].1 && entries[i].0 != entries[j].0
}

/// Records that `path` is the path of `entity`.
pub fn seed_one(index: &mut PathIndex, entity: u64, path: &str) -> (r: Result<(), Failure>)
    requires
        old(index).wf(),
    ensures
        final(index).wf(),
        match r {
            Ok(()) => seed_step(old(index)@, entity, path@) == Ok::<Map<PathId, u64>, Failure>(
                final(index)@,
            ),
            Err(e) => e == Failure::DuplicatePath && seed_step(old(index)@, entity, path@) is Err
                && final(index)@ == old(index)@,
        },
{
    let key = EntityPath::Path(String::from_str(path));
    match index.get(&key) {
        Some(prev) => {
            if prev != entity {
                return Err(Failure::DuplicatePath);
            }
        },
        None => {},
    }
    index.insert(key, entity);
    Ok(())
}

/// Records every entry, in order, up to the first that is refused. A refusal
/// leaves the earlier entries recorded.
pub fn seed_all(index: &mut PathIndex, entries: &Vec<(u64, String)>) -> (r: Result<(), Failure>)
    requires
        old(index).wf(),
    ensures
        final(index).wf(),
        match r {
            Ok(()) => seeded(old(index)@, entries_view(entries@)) == Ok::<
                Map<PathId, u64>,
                Failure,
            >(final(index)@),
            Err(e) => e == Failure::DuplicatePath && seeded(old(index)@, entries_view(entries@))
                is Err,
        },
{
    let ghost all = entries_view(entries@);
    let mut i: usize = 0;
    while i < entries.len()
        invariant
            index.wf(),
            all == entries_view(entries@),
            i <= entries@.len(),
            seeded(old(index)@, all.take(i as int)) == Ok::<Map<PathId, u64>, Failure>(index@),
        decreases entries@.len() - i,
    {
        proof {
            assert(all.take(i + 1).drop_last() =~= all.take(i as int));
            assert(all.take(i + 1).last() == (entries@[i as int].0, entries@[i as int].1@));
        }
        match seed_one(index, entries[i].0, entries[i].1.as_str()) {
            Ok(()) => {},
            Err(e) => {
                proof {
                    lemma_seeded_prefix_err(old(index)@, all, i + 1);
                }
                return Err(e);
            },
        }
        i += 1;
    }
    proof {
        assert(all.take(i as int) =~= all);
    }
    Ok(())
}

/// Once a prefix is refused, the whole list is.
pub proof fn lemma_seeded_prefix_err(
    map: Map<PathId, u64>,
    entries: Seq<(u64, Seq<char>)>,
    n: int,
)
    requires
        0 <= n <= entries.len(),
        seeded(map, entries.take(n)) is Err,
    ensures
        seeded(map, entries) == seeded(map, entries.take(n)),
    decreases entries.len() - n,
{
    if n == entries.len() {
        assert(entries.take(n) =~= entries);
    } else {
        assert(entries.take(n + 1).drop_last() =~= entries.take(n));
        lemma_seeded_prefix_err(map, entries, n + 1);
    }
}

/// What seeding keeps: a binding that is there stays as it is, and every
/// entry is bound to its entity; keys are paths or were there before.
pub proof fn lemma_seeded_ok(map: Map<PathId, u64>, entries: Seq<(u64, Seq<char>)>)
    requires
        seeded(map, entries) is Ok,
    ensures
        forall|k: PathId| #[trigger]
            map.contains_key(k) ==> seeded(map, entries).unwrap().contains_key(k) && seeded(
                map,
                entries,
            ).unwrap()[k] == map[k],
        forall|i: int|
            0 <= i < entries.len() ==> seeded(map, entries).unwrap().contains_key(
                PathId::Path(#[trigger] entries[i].1),
            ) && seeded(map, entries).unwrap()[PathId::Path(entries[i].1)] == entries[i].0,
        forall|k: PathId| #[trigger]
            seeded(map, entries).unwrap().contains_key(k) ==> map.contains_key(k) || (k is Path
                && exists|i: int| 0 <= i < entries.len() && #[trigger] entries[i].1 == k->Path_0),
    decreases entries.len(),
{
    if entries.len() > 0 {
        let init = entries.drop_last();
        lemma_seeded_ok(map, init);
        let m = seeded(map, init).unwrap();
        let last = entries.last();
        let out = seeded(map, entries).unwrap();
        assert(out == m.insert(PathId::Path(last.1), last.0));
        assert forall|i: int| 0 <= i < entries.len() implies out.contains_key(
            PathId::Path(#[trigger] entries[i].1),
        ) && out[PathId::Path(entries[i].1)] == entries[i].0 by {
            if i < entries.len() - 1 {
                assert(init[i] == entries[i]);
            }
        }
        assert forall|k: PathId| #[trigger] out.contains_key(k) implies map.contains_key(k) || (k
            is Path && exists|i: int|
            0 <= i < entries.len() && #[trigger] entries[i].1 == k->Path_0) by {
            if k == PathId::Path(last.1) {
                assert(entries[entries.len() - 1].1 == k->Path_0);
            } else if !map.contains_key(k) {
                let i = choose|i: int| 0 <= i < init.len() && #[trigger] init[i].1 == k->Path_0;
                assert(entries[i].1 == k->Path_0);
            }
        }
    }
}

/// Two distinct entities with one path are refused: seeding fails whatever
/// was recorded before.
pub proof fn lemma_collision_is_refused(map: Map<PathId, u64>, entries: Seq<(u64, Seq<char>)>)
    requires
        collides(entries),
    ensures
        seeded(map, entries) is Err,
    decreases entries.len(),
{
    let (i, j) = choose|i: int, j: int|
        0 <= i < j < entries.len() && entries[i].1 == entries[j].1 && entries[i].0 != entries[j].0;
    let init = entries.drop_last();
    if j < entries.len() - 1 {
        assert(init[i] == entries[i] && init[j] == entries[j]);
        assert(collides(init));
        lemma_collision_is_refused(map, init);
    } else if seeded(map, init) is Ok {
        lemma_seeded_ok(map, init);
        assert(init[i] == entries[i]);
    }
}

/// Seeding an empty map fails only where two distinct entities have one path.
pub proof fn lemma_refusal_is_collision(entries: Seq<(u64, Seq<char>)>)
    requires
        seeded(Map::<PathId, u64>::empty(), entries) is Err,
    ensures
        collides(entries),
    decreases entries.len(),
{
    let map = Map::<PathId, u64>::empty();
    if entries.len() > 0 {
        let init = entries.drop_last();
        if seeded(map, init) is Err {
            lemma_refusal_is_collision(init);
            let (i, j) = choose|i: int, j: int|
                0 <= i < j < init.len() && init[i].1 == init[j].1 && init[i].0 != init[j].0;
            assert(entries[i] == init[i] && entries[j] == init[j]);
        } else {
            lemma_seeded_ok(map, init);
            let m = seeded(map, init).unwrap();
            let last = entries.last();
            let k = PathId::Path(last.1);
            assert(m.contains_key(k) && m[k] != last.0);
            let i = choose|i: int| 0 <= i < init.len() && #[trigger] init[i].1 == k->Path_0;
            assert(m[PathId::Path(init[i].1)] == init[i].0);
            let j = entries.len() - 1;
            assert(entries[i] == init[i]);
            assert(0 <= i < j < entries.len() && entries[i].1 == entries[j].1 && entries[i].0
                != entries[j].0);
        }
    }
}

} // verus!
