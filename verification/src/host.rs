//! The live object graph, as far as snapshots touch it.
//!
//! Entities are known here by their bits (`Entity::to_bits`). Nothing in this
//! file is verified: each item states what the host is trusted to do.

use bevy_ecs::entity::Entity;
use bevy_ecs::system::Commands;
use bevy_ecs::world::World;
use bevy_hierarchy::{BuildChildren, Parent};
use vstd::prelude::*;

verus! {

/// `bevy_ecs::world::World`, opaque to the verifier.
#[verifier::external_type_specification]
#[verifier::external_body]
pub struct ExWorld(World);

/// `bevy_ecs::system::Commands`, opaque to the verifier.
#[verifier::external_type_specification]
#[verifier::external_body]
pub struct ExCommands<'w, 's>(Commands<'w, 's>);

/// The parent edges that a world holds: for each entity with a `Parent`
/// component, the bits of the entity that the component names.
pub uninterp spec fn world_parents(world: World) -> Map<u64, u64>;

/// `World::get::<Parent>` and `Parent::get`: the parent of `entity`, or `None`
/// where the entity is not alive or has no `Parent` component.
#[verifier::external_body]
pub(crate) fn parent_of(world: &World, entity: u64) -> (r: Option<u64>)
    ensures
        r == if world_parents(*world).contains_key(entity) {
            Some(world_parents(*world)[entity])
        } else {
            None
        },
{
    world.get::<Parent>(Entity::from_bits(entity)).map(|p| p.get().to_bits())
}

/// The entities that are alive or reserved in the world that the commands
/// belong to, by their bits.
pub uninterp spec fn allocated_entities(commands: Commands) -> Set<u64>;

/// The entities for which `Commands::get_entity` gives entity commands, by
/// their bits.
pub uninterp spec fn held_entities(commands: Commands) -> Set<u64>;

/// The `AddChild` commands that wait in the queue of the commands, in the
/// order in which they were queued: parent, then child.
pub uninterp spec fn queued_edges(commands: Commands) -> Seq<(u64, u64)>;

/// The entities of the `Despawn` commands that wait in the queue of the
/// commands, in the order in which they were queued.
pub uninterp spec fn queued_despawns(commands: Commands) -> Seq<u64>;

/// What snapshots see of the commands.
#[verifier::ext_equal]
pub struct HostView {
    pub allocated: Set<u64>,
    pub held: Set<u64>,
    pub edges: Seq<(u64, u64)>,
    pub despawns: Seq<u64>,
}

impl HostView {
    /// The view after `id` was reserved.
    pub open spec fn spawn(self, id: u64) -> HostView {
        HostView { allocated: self.allocated.insert(id), held: self.held.insert(id), ..self }
    }

    /// The view after the edge from `parent` to `child` was queued.
    pub open spec fn link(self, parent: u64, child: u64) -> HostView {
        HostView { edges: self.edges.push((parent, child)), ..self }
    }

    /// The view after the removal of `entity` was queued.
    pub open spec fn remove(self, entity: u64) -> HostView {
        HostView { despawns: self.despawns.push(entity), ..self }
    }
}

/// What snapshots see of the commands.
pub open spec fn host_view(commands: Commands) -> HostView {
    HostView {
        allocated: allocated_entities(commands),
        held: held_entities(commands),
        edges: queued_edges(commands),
        despawns: queued_despawns(commands),
    }
}

/// `Commands::spawn_empty`: reserves an entity and returns its bits. The
/// entity was neither alive nor reserved before; from now on it is reserved,
/// and the commands give entity commands for it. Nothing is queued.
#[verifier::external_body]
pub(crate) fn spawn_empty(commands: &mut Commands) -> (id: u64)
    ensures
        !allocated_entities(*old(commands)).contains(id),
        allocated_entities(*final(commands)) == allocated_entities(*old(commands)).insert(id),
        held_entities(*final(commands)) == held_entities(*old(commands)).insert(id),
        queued_edges(*final(commands)) == queued_edges(*old(commands)),
        queued_despawns(*final(commands)) == queued_despawns(*old(commands)),
{
    commands.spawn_empty().id().to_bits()
}

/// `Commands::get_entity` and `BuildChildren::add_child`: where the
/// commands give entity commands for `parent`, queues making `child` its
/// child and returns true; else leaves the commands as they are. The host
/// refuses an entity as its own child.
#[verifier::external_body]
pub(crate) fn add_child(commands: &mut Commands, parent: u64, child: u64) -> (linked: bool)
    requires
        parent != child,
    ensures
        linked == held_entities(*old(commands)).contains(parent),
        linked ==> {
            &&& queued_edges(*final(commands)) == queued_edges(*old(commands)).push((parent, child))
            &&& allocated_entities(*final(commands)) == allocated_entities(*old(commands))
            &&& held_entities(*final(commands)) == held_entities(*old(commands))
            &&& queued_despawns(*final(commands)) == queued_despawns(*old(commands))
        },
        !linked ==> *final(commands) == *old(commands),
{
    match commands.get_entity(Entity::from_bits(parent)) {
        Some(mut p) => {
            p.add_child(Entity::from_bits(child));
            true
        },
        None => false,
    }
}

/// `Commands::get_entity` and `EntityCommands::despawn`: where the commands
/// give entity commands for `entity`, queues its removal and returns true;
/// else leaves the commands as they are.
#[verifier::external_body]
pub(crate) fn despawn(commands: &mut Commands, entity: u64) -> (queued: bool)
    ensures
        queued == held_entities(*old(commands)).contains(entity),
        queued ==> {
            &&& queued_despawns(*final(commands)) == queued_despawns(*old(commands)).push(entity)
            &&& allocated_entities(*final(commands)) == allocated_entities(*old(commands))
            &&& held_entities(*final(commands)) == held_entities(*old(commands))
            &&& queued_edges(*final(commands)) == queued_edges(*old(commands))
        },
        !queued ==> *final(commands) == *old(commands),
{
    match commands.get_entity(Entity::from_bits(entity)) {
        Some(mut e) => {
            e.despawn();
            true
        },
        None => false,
    }
}

} // verus!
