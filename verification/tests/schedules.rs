use bevy_ecs::system::{CommandQueue, Commands};
use bevy_ecs::world::World;
use bevy_salo::schedules::{despawn_with_marker, distribute, phases};
use bevy_salo::{Encoded, Failure, Operation, Phase, Pipeline, Registry, Sinks};

#[test]
fn each_operation_has_its_phases() {
    assert_eq!(
        phases(Operation::Save),
        vec![Phase::Init, Phase::BuildNames, Phase::BuildContext, Phase::Run, Phase::WriteOutput]
    );
    assert_eq!(
        phases(Operation::Load),
        vec![Phase::Init, Phase::BuildNames, Phase::BuildContext, Phase::Run]
    );
    assert_eq!(phases(Operation::Reset), vec![Phase::Run]);
}

#[test]
fn phases_come_one_after_the_other() {
    let mut run = Pipeline::new(Operation::Load);
    let mut seen = Vec::new();
    while let Some(phase) = run.current() {
        seen.push(phase);
        assert!(!run.is_finished());
        run.complete(true);
    }
    assert_eq!(seen, phases(Operation::Load));
    assert!(run.is_finished());
    run.complete(true);
    assert!(run.is_finished());
    assert_eq!(run.current(), None);
}

#[test]
fn a_failed_phase_aborts_the_run() {
    let mut run = Pipeline::new(Operation::Save);
    run.complete(true);
    run.complete(true);
    assert_eq!(run.current(), Some(Phase::BuildContext));
    run.complete(false);
    assert_eq!(run.current(), None);
    assert!(!run.is_finished());
    run.complete(true);
    assert_eq!(run.current(), None);
    assert!(!run.is_finished());
}

#[test]
fn a_sink_gets_what_the_codec_made() {
    let sinks = Sinks { file: false, bytes: true, string: true };
    let out = distribute(Ok(Encoded::Text("é".to_owned())), sinks, true);
    assert_eq!(out.file, None);
    assert_eq!(out.bytes, Some(Ok(vec![0xc3, 0xa9])));
    assert_eq!(out.string, Some(Ok("é".to_owned())));
    let out = distribute(Ok(Encoded::Bytes(vec![1, 2])), sinks, false);
    assert_eq!(out.bytes, Some(Ok(vec![1, 2])));
    assert_eq!(out.string, Some(Err(Failure::UnsupportedFormat)));
    let some = Sinks { file: true, bytes: false, string: true };
    let out = distribute(Err(Failure::Encode), some, true);
    assert_eq!(out.file, Some(Err(Failure::Encode)));
    assert_eq!(out.bytes, None);
    assert_eq!(out.string, Some(Err(Failure::Encode)));
    // a codec without text has no text, whatever became of the bytes
    let out = distribute(Err(Failure::Encode), some, false);
    assert_eq!(out.file, Some(Err(Failure::Encode)));
    assert_eq!(out.string, Some(Err(Failure::UnsupportedFormat)));
}

#[test]
fn despawning_everything_is_refused() {
    let mut world = World::new();
    let a = world.spawn_empty().id();
    let b = world.spawn_empty().id();
    let c = world.spawn_empty().id();
    let mut queue = CommandQueue::default();
    {
        let mut commands = Commands::new(&mut queue, &world);
        assert_eq!(
            despawn_with_marker(&mut commands, true, &vec![a.to_bits(), b.to_bits()]),
            Err(Failure::DespawnAll)
        );
    }
    queue.apply(&mut world);
    assert_eq!(world.entities().len(), 3);
    {
        let mut commands = Commands::new(&mut queue, &world);
        assert_eq!(
            despawn_with_marker(&mut commands, false, &vec![a.to_bits(), 1 << 40, b.to_bits()]),
            Ok(2)
        );
        assert_eq!(despawn_with_marker(&mut commands, false, &vec![]), Ok(0));
    }
    queue.apply(&mut world);
    assert_eq!(world.entities().len(), 1);
    assert!(world.get_entity(c).is_some());
}

#[test]
fn a_type_name_is_registered_once() {
    let mut registry = Registry::new();
    assert_eq!(registry.register("Unit".to_owned()), Ok(()));
    assert_eq!(registry.register("Weapon".to_owned()), Ok(()));
    assert_eq!(registry.register("Unit".to_owned()), Err(Failure::DuplicateTypeName));
    assert!(registry.contains(&"Weapon".to_owned()));
    assert!(!registry.contains(&"Item".to_owned()));
    assert_eq!(registry.names(), &vec!["Unit".to_owned(), "Weapon".to_owned()]);
}
