use bevy_salo::{Failure, PathNames};

#[test]
fn names_are_kept_in_order_of_naming() {
    let mut names = PathNames::new();
    assert_eq!(names.len(), 0);
    assert_eq!(names.push(7, "Players".to_owned()), Ok(()));
    assert_eq!(names.push(3, "Enemies".to_owned()), Ok(()));
    assert_eq!(names.len(), 2);
    assert_eq!(names.get(7), Some("Players"));
    assert_eq!(names.get(3), Some("Enemies"));
    assert_eq!(names.get(4), None);
    assert_eq!(names.entity_at(0), 7);
    assert_eq!(names.entity_at(1), 3);
    assert_eq!(
        names.iter(),
        vec![(7, "Players".to_owned()), (3, "Enemies".to_owned())]
    );
}

#[test]
fn naming_again_by_the_same_name_is_allowed() {
    let mut names = PathNames::new();
    assert_eq!(names.push(1, "John".to_owned()), Ok(()));
    assert_eq!(names.push(1, "John".to_owned()), Ok(()));
    assert_eq!(names.len(), 1);
    assert_eq!(names.get(1), Some("John"));
}

#[test]
fn renaming_is_a_conflict() {
    let mut names = PathNames::new();
    assert_eq!(names.push(1, "John".to_owned()), Ok(()));
    assert_eq!(names.push(1, "Protagonist".to_owned()), Err(Failure::RenameConflict));
    assert_eq!(names.get(1), Some("John"));
    assert_eq!(names.len(), 1);
}

#[test]
fn two_entities_may_share_a_name() {
    let mut names = PathNames::new();
    assert_eq!(names.push(1, "weapon".to_owned()), Ok(()));
    assert_eq!(names.push(2, "weapon".to_owned()), Ok(()));
    assert_eq!(names.len(), 2);
}
