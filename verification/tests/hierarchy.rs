use bevy_ecs::world::World;
use bevy_hierarchy::BuildWorldChildren;
use bevy_salo::hierarchy::{build_paths, path_of_named};
use bevy_salo::{Failure, PathNames};

fn chain(world: &mut World, n: usize) -> Vec<u64> {
    let mut ids = Vec::new();
    for i in 0..n {
        let e = world.spawn_empty().id();
        if i > 0 {
            let parent = bevy_ecs::entity::Entity::from_bits(ids[i - 1]);
            world.entity_mut(parent).add_child(e);
        }
        ids.push(e.to_bits());
    }
    ids
}

#[test]
fn the_path_follows_the_parent_edge() {
    let mut world = World::new();
    let ids = chain(&mut world, 3);
    let mut names = PathNames::new();
    for (i, id) in ids.iter().enumerate() {
        names.push(*id, format!("n{}", i)).unwrap();
    }
    assert_eq!(path_of_named(&names, &world, ids[0]), Ok("n0".to_owned()));
    assert_eq!(path_of_named(&names, &world, ids[1]), Ok("n0::n1".to_owned()));
    assert_eq!(path_of_named(&names, &world, ids[2]), Ok("n0::n1::n2".to_owned()));
}

#[test]
fn an_entity_that_is_gone_has_no_parent() {
    let mut world = World::new();
    let ids = chain(&mut world, 2);
    let mut names = PathNames::new();
    names.push(ids[0], "a".to_owned()).unwrap();
    names.push(ids[1], "b".to_owned()).unwrap();
    let child = bevy_ecs::entity::Entity::from_bits(ids[1]);
    assert!(world.despawn(child));
    assert_eq!(path_of_named(&names, &world, ids[1]), Ok("b".to_owned()));
}

#[test]
fn an_unnamed_ancestor_hides_what_is_above() {
    // (root)::window::(unnamed)::characters::John::weapon
    let mut world = World::new();
    let ids = chain(&mut world, 6);
    let mut names = PathNames::new();
    names.push(ids[1], "window".to_owned()).unwrap();
    names.push(ids[3], "characters".to_owned()).unwrap();
    names.push(ids[4], "John".to_owned()).unwrap();
    names.push(ids[5], "weapon".to_owned()).unwrap();
    assert_eq!(
        path_of_named(&names, &world, ids[5]),
        Ok("characters::John::weapon".to_owned())
    );
    assert_eq!(path_of_named(&names, &world, ids[4]), Ok("characters::John".to_owned()));
    assert_eq!(path_of_named(&names, &world, ids[3]), Ok("characters".to_owned()));
    assert_eq!(path_of_named(&names, &world, ids[1]), Ok("window".to_owned()));
    assert_eq!(
        build_paths(&names, &world),
        Ok(vec![
            (ids[1], "window".to_owned()),
            (ids[3], "characters".to_owned()),
            (ids[4], "characters::John".to_owned()),
            (ids[5], "characters::John::weapon".to_owned()),
        ])
    );
}

#[test]
fn a_chain_of_named_entities_as_long_as_the_table_is_resolved() {
    let mut world = World::new();
    let ids = chain(&mut world, 4);
    let mut names = PathNames::new();
    for (i, id) in ids.iter().enumerate() {
        names.push(*id, format!("n{}", i)).unwrap();
    }
    assert_eq!(path_of_named(&names, &world, ids[3]), Ok("n0::n1::n2::n3".to_owned()));
}

#[test]
fn a_cycle_of_named_entities_is_refused() {
    let mut world = World::new();
    let a = world.spawn_empty().id();
    let b = world.spawn_empty().id();
    world.entity_mut(a).add_child(b);
    world.entity_mut(b).add_child(a);
    let mut names = PathNames::new();
    names.push(a.to_bits(), "a".to_owned()).unwrap();
    names.push(b.to_bits(), "b".to_owned()).unwrap();
    assert_eq!(path_of_named(&names, &world, a.to_bits()), Err(Failure::CyclicHierarchy));
    assert_eq!(build_paths(&names, &world), Err(Failure::CyclicHierarchy));
}

#[test]
fn a_cycle_above_an_unnamed_entity_does_no_harm() {
    let mut world = World::new();
    let a = world.spawn_empty().id();
    let b = world.spawn_empty().id();
    world.entity_mut(a).add_child(b);
    world.entity_mut(b).add_child(a);
    let mut names = PathNames::new();
    names.push(a.to_bits(), "a".to_owned()).unwrap();
    assert_eq!(path_of_named(&names, &world, a.to_bits()), Ok("a".to_owned()));
}
