use bevy_ecs::entity::Entity;
use bevy_ecs::world::World;
use bevy_hierarchy::{BuildWorldChildren, Parent};
use bevy_salo::{
    EntityParent, EntityPath, Extracted, Failure, PathNames, SerializeContext,
};

fn spawn(world: &mut World, parent: Option<u64>) -> u64 {
    let e = world.spawn_empty().id();
    if let Some(p) = parent {
        world.entity_mut(Entity::from_bits(p)).add_child(e);
    }
    e.to_bits()
}

fn item(world: &World, entity: u64, parent_selected: bool, value: u32) -> Extracted<u32> {
    let parent = world.get::<Parent>(Entity::from_bits(entity)).map(|p| p.get().to_bits());
    Extracted { entity, parent, parent_selected, value }
}

#[test]
fn a_named_entity_is_known_by_its_path() {
    let mut world = World::new();
    let players = spawn(&mut world, None);
    let john = spawn(&mut world, Some(players));
    let ring = spawn(&mut world, Some(john));
    let mut names = PathNames::new();
    names.push(players, "Players".to_owned()).unwrap();
    names.push(john, "John".to_owned()).unwrap();
    let mut ctx: SerializeContext<u32> = SerializeContext::new();
    assert_eq!(ctx.build(&names, &world), Ok(()));
    assert_eq!(ctx.path_of(players), EntityPath::Path("Players".to_owned()));
    assert_eq!(ctx.path_of(john), EntityPath::Path("Players::John".to_owned()));
    assert_eq!(ctx.path_of(ring), EntityPath::Entity(ring));
}

#[test]
fn the_parent_slot_prefers_the_path() {
    let mut world = World::new();
    let players = spawn(&mut world, None);
    let other = spawn(&mut world, None);
    let mut names = PathNames::new();
    names.push(players, "Players".to_owned()).unwrap();
    let mut ctx: SerializeContext<u32> = SerializeContext::new();
    ctx.build(&names, &world).unwrap();
    assert_eq!(ctx.parent_of(None, false), Ok(EntityParent::Root));
    assert_eq!(ctx.parent_of(None, true), Ok(EntityParent::Root));
    assert_eq!(ctx.parent_of(Some(players), false), Ok(EntityParent::Path("Players".to_owned())));
    assert_eq!(ctx.parent_of(Some(players), true), Ok(EntityParent::Path("Players".to_owned())));
    assert_eq!(ctx.parent_of(Some(other), true), Ok(EntityParent::Entity(other)));
    assert_eq!(ctx.parent_of(Some(other), false), Err(Failure::Orphaned));
}

#[test]
fn a_group_holds_its_records_in_order() {
    let mut world = World::new();
    let players = spawn(&mut world, None);
    let john = spawn(&mut world, Some(players));
    let ring = spawn(&mut world, Some(john));
    let loose = spawn(&mut world, None);
    let mut names = PathNames::new();
    names.push(players, "Players".to_owned()).unwrap();
    names.push(john, "John".to_owned()).unwrap();
    let mut ctx = SerializeContext::new();
    ctx.build(&names, &world).unwrap();
    let items = vec![item(&world, john, false, 1), item(&world, ring, false, 2), item(&world, loose, false, 3)];
    assert_eq!(ctx.serialize_group("Item".to_owned(), items), Ok(()));
    let doc = ctx.serialized();
    assert_eq!(doc.groups().len(), 1);
    let group = &doc.groups()[0];
    assert_eq!(group.name, "Item");
    assert_eq!(group.records.len(), 3);
    assert_eq!(group.records[0].parent, EntityParent::Path("Players".to_owned()));
    assert_eq!(group.records[0].path, EntityPath::Path("Players::John".to_owned()));
    assert_eq!(group.records[0].value, 1);
    assert_eq!(group.records[1].parent, EntityParent::Path("Players::John".to_owned()));
    assert_eq!(group.records[1].path, EntityPath::Entity(ring));
    assert_eq!(group.records[1].value, 2);
    assert_eq!(group.records[2].parent, EntityParent::Root);
    assert_eq!(group.records[2].path, EntityPath::Entity(loose));
    assert_eq!(group.records[2].value, 3);
}

#[test]
fn an_orphan_fails_the_group() {
    let mut world = World::new();
    let unnamed = spawn(&mut world, None);
    let child = spawn(&mut world, Some(unnamed));
    let names = PathNames::new();
    let mut ctx = SerializeContext::new();
    ctx.build(&names, &world).unwrap();
    assert_eq!(
        ctx.serialize_group("Item".to_owned(), vec![item(&world, unnamed, false, 1), item(&world, child, false, 2)]),
        Err(Failure::Orphaned)
    );
    assert_eq!(ctx.serialized().groups().len(), 0);
    assert_eq!(
        ctx.serialize_group("Item".to_owned(), vec![item(&world, child, true, 2)]),
        Ok(())
    );
    assert_eq!(ctx.serialized().groups()[0].records[0].parent, EntityParent::Entity(unnamed));
}

#[test]
fn a_type_name_is_used_once() {
    let mut ctx: SerializeContext<u32> = SerializeContext::new();
    let lone = || vec![Extracted { entity: 1, parent: None, parent_selected: false, value: 0 }];
    assert_eq!(ctx.serialize_group("Empty".to_owned(), vec![]), Ok(()));
    assert_eq!(ctx.serialize_group("Empty".to_owned(), vec![]), Ok(()));
    assert_eq!(ctx.serialized().groups().len(), 0);
    assert_eq!(ctx.serialize_group("Item".to_owned(), lone()), Ok(()));
    assert_eq!(ctx.serialize_group("Item".to_owned(), lone()), Err(Failure::DuplicateTypeName));
    assert_eq!(ctx.serialize_group("Item".to_owned(), vec![]), Ok(()));
    assert_eq!(ctx.insert_resource("Item".to_owned(), 4), Err(Failure::DuplicateTypeName));
    assert_eq!(ctx.insert_resource("Score".to_owned(), 4), Ok(()));
    let doc = ctx.into_document();
    assert_eq!(doc.groups().len(), 2);
    assert_eq!(doc.groups()[1].name, "Score");
    assert_eq!(doc.groups()[1].records.len(), 1);
    assert_eq!(doc.groups()[1].records[0].parent, EntityParent::Root);
    assert_eq!(doc.groups()[1].records[0].path, EntityPath::Unique);
    assert_eq!(doc.groups()[1].records[0].value, 4);
}

#[test]
fn two_entities_with_one_path_fail_the_save() {
    // characters::John::weapon and characters::Jane::(unnamed)::characters
    let mut world = World::new();
    let characters = spawn(&mut world, None);
    let jane = spawn(&mut world, Some(characters));
    let unnamed = spawn(&mut world, Some(jane));
    let second = spawn(&mut world, Some(unnamed));
    let mut names = PathNames::new();
    names.push(characters, "characters".to_owned()).unwrap();
    names.push(jane, "Jane".to_owned()).unwrap();
    names.push(second, "characters".to_owned()).unwrap();
    let mut ctx: SerializeContext<u32> = SerializeContext::new();
    assert_eq!(ctx.build(&names, &world), Err(Failure::DuplicatePath));
    assert_eq!(ctx.path_of(characters), EntityPath::Entity(characters));
}

#[test]
fn two_entities_with_one_name_and_two_paths_are_fine() {
    let mut world = World::new();
    let characters = spawn(&mut world, None);
    let john = spawn(&mut world, Some(characters));
    let jane = spawn(&mut world, Some(characters));
    let w1 = spawn(&mut world, Some(john));
    let w2 = spawn(&mut world, Some(jane));
    let mut names = PathNames::new();
    names.push(characters, "characters".to_owned()).unwrap();
    names.push(john, "John".to_owned()).unwrap();
    names.push(jane, "Jane".to_owned()).unwrap();
    names.push(w1, "weapon".to_owned()).unwrap();
    names.push(w2, "weapon".to_owned()).unwrap();
    let mut ctx: SerializeContext<u32> = SerializeContext::new();
    assert_eq!(ctx.build(&names, &world), Ok(()));
    assert_eq!(ctx.path_of(w1), EntityPath::Path("characters::John::weapon".to_owned()));
    assert_eq!(ctx.path_of(w2), EntityPath::Path("characters::Jane::weapon".to_owned()));
}
