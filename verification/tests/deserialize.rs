use bevy_ecs::entity::Entity;
use bevy_ecs::system::{CommandQueue, Commands};
use bevy_ecs::world::World;
use bevy_hierarchy::{BuildWorldChildren, Parent};
use bevy_salo::document::Document;
use bevy_salo::{
    DeserializeContext, EntityParent, EntityPath, Failure, PathNames, PathedValue,
};

fn path(p: &str) -> EntityPath {
    EntityPath::Path(p.to_owned())
}

fn record(parent: EntityParent, path: EntityPath, value: u32) -> PathedValue<u32> {
    PathedValue { parent, path, value }
}

fn parent(world: &World, e: u64) -> Option<u64> {
    world.get::<Parent>(Entity::from_bits(e)).map(|p| p.get().to_bits())
}

#[test]
fn a_path_belongs_to_one_entity() {
    let mut ctx: DeserializeContext<u32> = DeserializeContext::new();
    assert_eq!(ctx.push(1, "a::b"), Ok(()));
    assert_eq!(ctx.push(1, "a::b"), Ok(()));
    assert_eq!(ctx.push(2, "a::b"), Err(Failure::DuplicatePath));
    assert_eq!(ctx.push(2, "a::c"), Ok(()));
    assert_eq!(ctx.get(&path("a::b")), Some(1));
    assert_eq!(ctx.get(&path("a::c")), Some(2));
    assert_eq!(ctx.get(&path("a")), None);
    assert_eq!(ctx.get(&EntityPath::Entity(1)), None);
    assert_eq!(ctx.get(&EntityPath::Unique), None);
}

#[test]
fn binding_keeps_what_is_bound() {
    let mut ctx: DeserializeContext<u32> = DeserializeContext::new();
    ctx.bind(&path("a"), 1);
    ctx.bind(&path("a"), 2);
    ctx.bind(&EntityPath::Entity(9), 3);
    ctx.bind(&EntityPath::Unique, 4);
    assert_eq!(ctx.get(&path("a")), Some(1));
    assert_eq!(ctx.get(&EntityPath::Entity(9)), Some(3));
    assert_eq!(ctx.get(&EntityPath::Unique), None);
}

#[test]
fn seeding_takes_the_paths_of_the_live_graph() {
    let mut world = World::new();
    let players = world.spawn_empty().id();
    let john = world.spawn_empty().id();
    world.entity_mut(players).add_child(john);
    let mut names = PathNames::new();
    names.push(players.to_bits(), "Players".to_owned()).unwrap();
    names.push(john.to_bits(), "John".to_owned()).unwrap();
    let mut ctx: DeserializeContext<u32> = DeserializeContext::new();
    ctx.push(77, "stale").unwrap();
    assert_eq!(ctx.seed(&names, &world), Ok(()));
    assert_eq!(ctx.get(&path("Players")), Some(players.to_bits()));
    assert_eq!(ctx.get(&path("Players::John")), Some(john.to_bits()));
    assert_eq!(ctx.get(&path("John")), None);
    assert_eq!(ctx.get(&path("stale")), None);
}

#[test]
fn seeding_fails_on_two_entities_with_one_path() {
    let mut world = World::new();
    let a = world.spawn_empty().id();
    let b = world.spawn_empty().id();
    let mut names = PathNames::new();
    names.push(a.to_bits(), "same".to_owned()).unwrap();
    names.push(b.to_bits(), "same".to_owned()).unwrap();
    let mut ctx: DeserializeContext<u32> = DeserializeContext::new();
    ctx.push(77, "kept").unwrap();
    assert_eq!(ctx.seed(&names, &world), Err(Failure::DuplicatePath));
    assert_eq!(ctx.get(&path("kept")), Some(77));
    assert_eq!(ctx.get(&path("same")), None);
}

#[test]
fn a_path_resolves_to_one_entity_and_unique_to_a_new_one_each_time() {
    let mut world = World::new();
    let live = world.spawn_empty().id().to_bits();
    let mut queue = CommandQueue::default();
    let mut ctx: DeserializeContext<u32> = DeserializeContext::new();
    ctx.push(live, "Players").unwrap();
    {
        let mut commands = Commands::new(&mut queue, &world);
        assert_eq!(ctx.get_or_new(&mut commands, &path("Players")), live);
        let john = ctx.get_or_new(&mut commands, &path("Players::John"));
        assert_ne!(john, live);
        assert_eq!(ctx.get_or_new(&mut commands, &path("Players::John")), john);
        let e = ctx.get_or_new(&mut commands, &EntityPath::Entity(5));
        assert_eq!(ctx.get_or_new(&mut commands, &EntityPath::Entity(5)), e);
        let u1 = ctx.get_or_new(&mut commands, &EntityPath::Unique);
        let u2 = ctx.get_or_new(&mut commands, &EntityPath::Unique);
        assert_ne!(u1, u2);
        assert_eq!(ctx.get(&EntityPath::Unique), None);
    }
    queue.apply(&mut world);
    assert_eq!(world.entities().len(), 5);
}

#[test]
fn placing_a_record_links_it_to_its_parent() {
    let mut world = World::new();
    let live = world.spawn_empty().id().to_bits();
    let mut queue = CommandQueue::default();
    let mut ctx: DeserializeContext<u32> = DeserializeContext::new();
    ctx.push(live, "Players").unwrap();
    let (john, ring, lone, own) = {
        let mut commands = Commands::new(&mut queue, &world);
        let john = ctx.place(
            &mut commands,
            record(EntityParent::Path("Players".to_owned()), path("Players::John"), 1),
        );
        assert_eq!(john.parent, Some(live));
        assert!(john.linked);
        assert_eq!(john.value, 1);
        let ring = ctx.place(
            &mut commands,
            record(EntityParent::Path("Players::John".to_owned()), EntityPath::Entity(8), 2),
        );
        assert_eq!(ring.parent, Some(john.entity));
        let lone = ctx.place(&mut commands, record(EntityParent::Root, EntityPath::Unique, 3));
        assert_eq!(lone.parent, None);
        assert!(!lone.linked);
        let own = ctx.place(&mut commands, record(EntityParent::Entity(4), EntityPath::Entity(4), 5));
        assert_eq!(own.parent, Some(own.entity));
        assert!(!own.linked);
        (john.entity, ring.entity, lone.entity, own.entity)
    };
    queue.apply(&mut world);
    assert_eq!(parent(&world, john), Some(live));
    assert_eq!(parent(&world, ring), Some(john));
    assert_eq!(parent(&world, lone), None);
    assert_eq!(parent(&world, own), None);
}

#[test]
fn a_missing_parent_is_made_once() {
    let world = World::new();
    let mut queue = CommandQueue::default();
    let mut commands = Commands::new(&mut queue, &world);
    let mut ctx: DeserializeContext<u32> = DeserializeContext::new();
    let a = ctx.place(&mut commands, record(EntityParent::Entity(3), EntityPath::Unique, 1));
    let b = ctx.place(&mut commands, record(EntityParent::Entity(3), EntityPath::Unique, 2));
    let c = ctx.place(&mut commands, record(EntityParent::Root, EntityPath::Entity(3), 3));
    assert_ne!(a.entity, b.entity);
    assert_eq!(a.parent, b.parent);
    assert_eq!(a.parent, Some(c.entity));
}

#[test]
fn a_group_is_applied_once() {
    let world = World::new();
    let mut queue = CommandQueue::default();
    let mut commands = Commands::new(&mut queue, &world);
    let mut doc = Document::new();
    doc.insert_group(
        "Item".to_owned(),
        vec![
            record(EntityParent::Root, path("a"), 1),
            record(EntityParent::Path("a".to_owned()), EntityPath::Unique, 2),
            record(EntityParent::Root, path("a"), 3),
        ],
    )
    .unwrap();
    let mut ctx = DeserializeContext::new();
    ctx.load(doc);
    assert!(ctx.deserialize_group(&mut commands, &"Unit".to_owned()).is_none());
    let placed = ctx.deserialize_group(&mut commands, &"Item".to_owned()).unwrap();
    assert_eq!(placed.len(), 3);
    assert_eq!(placed[0].value, 1);
    assert_eq!(placed[1].value, 2);
    assert_eq!(placed[2].value, 3);
    assert_eq!(placed[0].entity, placed[2].entity);
    assert_ne!(placed[0].entity, placed[1].entity);
    assert_eq!(placed[1].parent, Some(placed[0].entity));
    assert!(ctx.deserialize_group(&mut commands, &"Item".to_owned()).is_none());
}

#[test]
fn a_resource_has_one_record_at_most() {
    let mut doc = Document::new();
    doc.insert_group("None".to_owned(), vec![]).unwrap();
    doc.insert_group("One".to_owned(), vec![record(EntityParent::Root, EntityPath::Unique, 7)])
        .unwrap();
    doc.insert_group(
        "Two".to_owned(),
        vec![
            record(EntityParent::Root, EntityPath::Unique, 7),
            record(EntityParent::Root, EntityPath::Unique, 8),
        ],
    )
    .unwrap();
    let mut ctx = DeserializeContext::new();
    ctx.load(doc);
    assert_eq!(ctx.take_resource(&"Absent".to_owned()), Ok(None));
    assert_eq!(ctx.take_resource(&"None".to_owned()), Ok(None));
    assert_eq!(ctx.take_resource(&"One".to_owned()), Ok(Some(7)));
    assert_eq!(ctx.take_resource(&"One".to_owned()), Ok(None));
    assert_eq!(ctx.take_resource(&"Two".to_owned()), Err(Failure::MultipleResources));
    assert_eq!(ctx.take_resource(&"Two".to_owned()), Ok(None));
}
