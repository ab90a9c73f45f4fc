use bevy_salo::{EntityParent, EntityPath, PathName};

#[test]
fn path_name_keeps_its_text() {
    let mut n = PathName::new("Players");
    assert_eq!(n.get(), "Players");
    n.set("Enemies".to_owned());
    assert_eq!(n.get(), "Enemies");
    n.set_static("OriginalPlayers");
    assert_eq!(n.get(), "OriginalPlayers");
    assert_eq!(PathName::new_owned("x".to_owned()).get(), "x");
}

#[test]
fn name_is_the_last_segment() {
    assert_eq!(EntityPath::Path("characters::John::weapon".to_owned()).name(), "weapon");
    assert_eq!(EntityPath::Path("John".to_owned()).name(), "John");
    assert_eq!(EntityPath::Path("a:::b".to_owned()).name(), "b");
    assert_eq!(EntityPath::Path("a::".to_owned()).name(), "");
    assert_eq!(EntityPath::Path("a::b".to_owned()).get_name(), Some("b"));
    assert_eq!(EntityPath::Entity(3).get_name(), None);
    assert_eq!(EntityPath::Unique.get_name(), None);
}

#[test]
fn unique_is_the_default() {
    assert!(EntityPath::default().is_unique());
    assert!(!EntityPath::Entity(0).is_unique());
    assert!(EntityParent::default().is_root());
    assert_eq!(
        EntityPath::from_parent(EntityParent::Path("a".to_owned())),
        EntityPath::Path("a".to_owned())
    );
    assert_eq!(EntityPath::from_parent(EntityParent::Entity(7)), EntityPath::Entity(7));
}
