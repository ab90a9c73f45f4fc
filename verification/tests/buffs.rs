use bevy_ecs::component::{Component, TableStorage};
use bevy_ecs::entity::Entity;
use bevy_ecs::system::{CommandQueue, Commands};
use bevy_ecs::world::World;
use bevy_hierarchy::{BuildWorldChildren, Parent};
use bevy_salo::methods::serialize_bytes;
use bevy_salo::schedules::read_input;
use bevy_salo::{
    DeserializeContext, Extracted, PathName, PathNames, Postcard, Ron, SerdeJson,
    SerializationMethod, SerializeContext,
};

type Fields = (String, i32, f32);

struct Units;
struct Players;
struct Enemies;
struct Named(PathName);

#[derive(Debug, Clone, PartialEq)]
struct Unit {
    name: String,
    hp: i32,
}
struct Weapon;
struct Offhand;
#[derive(Debug, Clone, PartialEq)]
struct Item {
    name: String,
}
#[derive(Debug, Clone, PartialEq)]
struct Buff {
    stat: String,
    value: f32,
}

impl Component for Units {
    type Storage = TableStorage;
}
impl Component for Players {
    type Storage = TableStorage;
}
impl Component for Enemies {
    type Storage = TableStorage;
}
impl Component for Named {
    type Storage = TableStorage;
}
impl Component for Unit {
    type Storage = TableStorage;
}
impl Component for Weapon {
    type Storage = TableStorage;
}
impl Component for Offhand {
    type Storage = TableStorage;
}
impl Component for Item {
    type Storage = TableStorage;
}
impl Component for Buff {
    type Storage = TableStorage;
}

trait Saved: Component + Sized {
    const NAME: &'static str;
    fn path_name(&self) -> Option<String> {
        None
    }
    fn fields(&self) -> Fields;
    fn from_fields(fields: Fields) -> Self;
}

impl Saved for Unit {
    const NAME: &'static str = "Unit";
    fn path_name(&self) -> Option<String> {
        Some(self.name.clone())
    }
    fn fields(&self) -> Fields {
        (self.name.clone(), self.hp, 0.0)
    }
    fn from_fields(fields: Fields) -> Self {
        Unit { name: fields.0, hp: fields.1 }
    }
}

impl Saved for Weapon {
    const NAME: &'static str = "Weapon";
    fn path_name(&self) -> Option<String> {
        Some("mainhand".to_owned())
    }
    fn fields(&self) -> Fields {
        (String::new(), 0, 0.0)
    }
    fn from_fields(_: Fields) -> Self {
        Weapon
    }
}

impl Saved for Offhand {
    const NAME: &'static str = "Offhand";
    fn path_name(&self) -> Option<String> {
        Some("offhand".to_owned())
    }
    fn fields(&self) -> Fields {
        (String::new(), 0, 0.0)
    }
    fn from_fields(_: Fields) -> Self {
        Offhand
    }
}

impl Saved for Item {
    const NAME: &'static str = "Item";
    fn fields(&self) -> Fields {
        (self.name.clone(), 0, 0.0)
    }
    fn from_fields(fields: Fields) -> Self {
        Item { name: fields.0 }
    }
}

impl Saved for Buff {
    const NAME: &'static str = "Buff";
    fn fields(&self) -> Fields {
        (self.stat.clone(), 0, self.value)
    }
    fn from_fields(fields: Fields) -> Self {
        Buff { stat: fields.0, value: fields.2 }
    }
}

trait Codec: SerializationMethod {
    fn pack(fields: &Fields) -> Self::Value;
    fn unpack(value: Self::Value) -> Fields;
}

impl Codec for SerdeJson<true> {
    fn pack(fields: &Fields) -> serde_json::Value {
        serde_json::to_value(fields).unwrap()
    }
    fn unpack(value: serde_json::Value) -> Fields {
        serde_json::from_value(value).unwrap()
    }
}

impl Codec for Ron<true> {
    fn pack(fields: &Fields) -> serde_json::Value {
        serde_json::to_value(fields).unwrap()
    }
    fn unpack(value: serde_json::Value) -> Fields {
        serde_json::from_value(value).unwrap()
    }
}

impl Codec for Postcard {
    fn pack(fields: &Fields) -> Vec<u8> {
        postcard::to_allocvec(fields).unwrap()
    }
    fn unpack(value: Vec<u8>) -> Fields {
        postcard::from_bytes(&value).unwrap()
    }
}

fn name_components<T: Saved>(world: &mut World, names: &mut PathNames) {
    let mut query = world.query::<(Entity, &T)>();
    for (entity, item) in query.iter(world) {
        if let Some(name) = item.path_name() {
            names.push(entity.to_bits(), name).unwrap();
        }
    }
}

fn build_names(world: &mut World) -> PathNames {
    let mut names = PathNames::new();
    let mut query = world.query::<(Entity, &Named)>();
    for (entity, name) in query.iter(world) {
        names.push(entity.to_bits(), name.0.get()).unwrap();
    }
    name_components::<Unit>(world, &mut names);
    name_components::<Weapon>(world, &mut names);
    name_components::<Offhand>(world, &mut names);
    name_components::<Buff>(world, &mut names);
    name_components::<Item>(world, &mut names);
    names
}

fn extract<T: Saved, M: Codec>(world: &mut World, ctx: &mut SerializeContext<M::Value>) {
    let mut query = world.query::<(Entity, &T)>();
    let items: Vec<Extracted<M::Value>> = query
        .iter(world)
        .map(|(entity, item)| Extracted {
            entity: entity.to_bits(),
            parent: parent_of(world, entity).map(|p| p.to_bits()),
            parent_selected: true,
            value: M::pack(&item.fields()),
        })
        .collect();
    ctx.serialize_group(T::NAME.to_owned(), items).unwrap();
}

fn save<M: Codec>(world: &mut World) -> Vec<u8> {
    let names = build_names(world);
    let mut ctx = SerializeContext::new();
    ctx.build(&names, world).unwrap();
    extract::<Unit, M>(world, &mut ctx);
    extract::<Weapon, M>(world, &mut ctx);
    extract::<Offhand, M>(world, &mut ctx);
    extract::<Buff, M>(world, &mut ctx);
    extract::<Item, M>(world, &mut ctx);
    serialize_bytes::<M>(ctx.into_document()).unwrap()
}

fn inject<T: Saved, M: Codec>(commands: &mut Commands, ctx: &mut DeserializeContext<M::Value>) {
    let Some(placements) = ctx.deserialize_group(commands, &T::NAME.to_owned()) else {
        return;
    };
    for placement in placements {
        let item = T::from_fields(M::unpack(placement.value));
        commands.entity(Entity::from_bits(placement.entity)).insert(item);
    }
}

fn load<M: Codec>(world: &mut World, bytes: &Vec<u8>) {
    let names = build_names(world);
    let mut ctx = DeserializeContext::new();
    ctx.load(read_input::<M>(bytes).unwrap());
    ctx.seed(&names, world).unwrap();
    let mut queue = CommandQueue::default();
    {
        let mut commands = Commands::new(&mut queue, world);
        inject::<Unit, M>(&mut commands, &mut ctx);
        inject::<Weapon, M>(&mut commands, &mut ctx);
        inject::<Offhand, M>(&mut commands, &mut ctx);
        inject::<Buff, M>(&mut commands, &mut ctx);
        inject::<Item, M>(&mut commands, &mut ctx);
    }
    queue.apply(world);
}

fn remove<T: Component>(world: &mut World) {
    let mut query = world.query::<(Entity, &T)>();
    let entities: Vec<Entity> = query.iter(world).map(|(e, _)| e).collect();
    for entity in entities {
        world.entity_mut(entity).remove::<T>();
    }
}

fn remove_serialized_components(world: &mut World) {
    remove::<Unit>(world);
    remove::<Weapon>(world);
    remove::<Offhand>(world);
    remove::<Buff>(world);
    remove::<Item>(world);
}

fn count<T: Component>(world: &mut World) -> usize {
    world.query::<&T>().iter(world).count()
}

fn child(world: &mut World, parent: Entity) -> Entity {
    let e = world.spawn_empty().id();
    world.entity_mut(parent).add_child(e);
    e
}

fn item(world: &mut World, parent: Entity, name: &str, buffs: &[(&str, f32)]) -> Entity {
    let e = child(world, parent);
    world.entity_mut(e).insert(Item { name: name.to_owned() });
    for (stat, value) in buffs {
        let b = child(world, e);
        world.entity_mut(b).insert(Buff { stat: stat.to_string(), value: *value });
    }
    e
}

fn build(world: &mut World) {
    let units = world.spawn(Units).id();
    let players = child(world, units);
    world.entity_mut(players).insert(Players).insert(Named(PathName::new("Players")));

    let john = child(world, players);
    world.entity_mut(john).insert(Unit { name: "John".to_owned(), hp: 32 });
    let rapier = item(world, john, "Rapier", &[("Damage", 12.5), ("Speed", 4.0)]);
    world.entity_mut(rapier).insert(Weapon);
    let buckler = item(world, john, "Buckler", &[("Defense", 6.5)]);
    world.entity_mut(buckler).insert(Offhand);
    item(world, john, "HP Ring", &[("Hp", 10.0)]);
    item(world, john, "HP Potion", &[]);
    item(world, john, "HP Potion", &[]);

    let jane = child(world, players);
    world.entity_mut(jane).insert(Unit { name: "Jane".to_owned(), hp: 28 });
    let staff = item(world, jane, "Wooden Staff", &[("Magic", 6.5)]);
    world.entity_mut(staff).insert(Weapon);
    item(world, jane, "Fire Ring", &[("Fire Damage", 5.0)]);
    item(world, jane, "Herb", &[]);
    item(world, jane, "Mana Potion", &[]);

    let enemies = child(world, units);
    world.entity_mut(enemies).insert(Enemies).insert(Named(PathName::new("Enemies")));
}

fn counts(world: &mut World) -> [usize; 8] {
    [
        count::<Units>(world),
        count::<Players>(world),
        count::<Enemies>(world),
        count::<Unit>(world),
        count::<Weapon>(world),
        count::<Offhand>(world),
        count::<Item>(world),
        count::<Buff>(world),
    ]
}

fn parent_of(world: &World, entity: Entity) -> Option<Entity> {
    world.get::<Parent>(entity).map(|p| p.get())
}

fn units_under(world: &mut World, parent: Entity) -> Vec<Unit> {
    let mut query = world.query::<(Entity, &Unit)>();
    let mut found: Vec<Unit> = query
        .iter(world)
        .filter(|(e, _)| parent_of(world, *e) == Some(parent))
        .map(|(_, u)| u.clone())
        .collect();
    found.sort_by(|a, b| a.name.cmp(&b.name));
    found
}

fn rename<T: Component>(world: &mut World, name: &'static str) {
    let mut query = world.query::<(&mut Named, &T)>();
    let (mut named, _) = query.single_mut(world);
    named.0.set_static(name);
}

fn test<M: Codec>() {
    let mut world = World::new();
    build(&mut world);
    assert_eq!(counts(&mut world), [1, 1, 1, 2, 2, 1, 9, 6]);
    let players = world.query::<(Entity, &Players)>().single(&world).0;
    let enemies = world.query::<(Entity, &Enemies)>().single(&world).0;

    let buffer = save::<M>(&mut world);
    remove_serialized_components(&mut world);
    assert_eq!(counts(&mut world), [1, 1, 1, 0, 0, 0, 0, 0]);
    let entities = world.entities().len();

    load::<M>(&mut world, &buffer);
    assert_eq!(counts(&mut world), [1, 1, 1, 2, 2, 1, 9, 6]);
    assert_eq!(
        units_under(&mut world, players),
        vec![
            Unit { name: "Jane".to_owned(), hp: 28 },
            Unit { name: "John".to_owned(), hp: 32 },
        ]
    );
    let mut buffs: Vec<(String, f32)> = world
        .query::<&Buff>()
        .iter(&world)
        .map(|b| (b.stat.clone(), b.value))
        .collect();
    buffs.sort_by(|a, b| a.0.cmp(&b.0));
    assert_eq!(
        buffs,
        vec![
            ("Damage".to_owned(), 12.5),
            ("Defense".to_owned(), 6.5),
            ("Fire Damage".to_owned(), 5.0),
            ("Hp".to_owned(), 10.0),
            ("Magic".to_owned(), 6.5),
            ("Speed".to_owned(), 4.0),
        ]
    );
    // nothing was despawned: the entities that lost their components are still there
    assert!(world.entities().len() > entities);

    // Load again: Unit, Weapon and Offhand are named, they do not duplicate and just update.
    load::<M>(&mut world, &buffer);
    assert_eq!(
        counts(&mut world),
        [1, 1, 1, 2, 2, 1, (9 - 3) * 2 + 3, 6 * 2]
    );
    assert_eq!(units_under(&mut world, players).len(), 2);

    // swap enemy and player
    rename::<Players>(&mut world, "OriginalPlayers");
    rename::<Enemies>(&mut world, "Players");
    // This doubles the amount of units due to new paths
    load::<M>(&mut world, &buffer);
    assert_eq!(counts(&mut world), [1, 1, 1, 4, 4, 2, 15 + 9, 6 * 2 + 6]);
    assert_eq!(units_under(&mut world, players).len(), 2);
    assert_eq!(
        units_under(&mut world, enemies),
        vec![
            Unit { name: "Jane".to_owned(), hp: 28 },
            Unit { name: "John".to_owned(), hp: 32 },
        ]
    );
}

#[test]
pub fn test_cases() {
    test::<SerdeJson<true>>();
    test::<Ron<true>>();
    test::<Postcard>();
}
