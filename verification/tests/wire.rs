use bevy_salo::wire::{cow_is_default, from_tagged, tagged, Written};
use bevy_salo::{
    EntityParent, EntityPath, EntityPathTagged, EntityPathUntagged, PathedValue, PathedValueSer,
    SerializeValue,
};

#[test]
fn untagged_default_is_no_identity() {
    assert!(EntityPathUntagged::default().is_default());
    assert!(EntityPathUntagged::Omitted.is_default());
    assert!(!EntityPathUntagged::Entity(0).is_default());
    assert!(!EntityPathUntagged::Path(String::new()).is_default());
}

#[test]
fn untagged_forms_of_parents_and_paths() {
    assert_eq!(EntityPathUntagged::of_parent(&EntityParent::Root), EntityPathUntagged::Omitted);
    assert_eq!(
        EntityPathUntagged::of_parent(&EntityParent::Path("a".to_owned())),
        EntityPathUntagged::Path("a".to_owned())
    );
    assert_eq!(EntityPathUntagged::of_parent(&EntityParent::Entity(3)), EntityPathUntagged::Entity(3));
    assert_eq!(EntityPathUntagged::of_path(&EntityPath::Unique), EntityPathUntagged::Omitted);
    assert_eq!(EntityPathUntagged::of_path(&EntityPath::Entity(3)), EntityPathUntagged::Entity(3));
    assert_eq!(EntityPathUntagged::Omitted.into_parent(), EntityParent::Root);
    assert_eq!(EntityPathUntagged::Entity(4).into_parent(), EntityParent::Entity(4));
    assert_eq!(EntityPathUntagged::Omitted.into_path(), EntityPath::Unique);
    assert_eq!(
        EntityPathUntagged::Path("p".to_owned()).into_path(),
        EntityPath::Path("p".to_owned())
    );
    assert_eq!(EntityParent::from(EntityPathUntagged::Omitted), EntityParent::Root);
    assert_eq!(EntityPath::from(EntityPathUntagged::Entity(2)), EntityPath::Entity(2));
    let back: EntityPath = EntityPathTagged::Path("x".to_owned()).into();
    assert_eq!(back, EntityPath::Path("x".to_owned()));
}

#[test]
fn tagged_forms_keep_the_case() {
    assert_eq!(EntityPathTagged::of_path(&EntityPath::Unique), EntityPathTagged::Unique);
    assert_eq!(EntityPathTagged::of_path(&EntityPath::Entity(1)), EntityPathTagged::Entity(1));
    assert_eq!(EntityPathTagged::Unique.into_path(), EntityPath::Unique);
    let (parent, path, value) = tagged(PathedValue {
        parent: EntityParent::Entity(2),
        path: EntityPath::Path("a".to_owned()),
        value: 7u8,
    });
    assert_eq!(parent, EntityParent::Entity(2));
    assert_eq!(path, EntityPathTagged::Path("a".to_owned()));
    assert_eq!(value, 7);
    let back = from_tagged(parent, path, value);
    assert_eq!(back.parent, EntityParent::Entity(2));
    assert_eq!(back.path, EntityPath::Path("a".to_owned()));
    assert_eq!(back.value, 7);
}

#[test]
fn empty_values_are_not_written() {
    assert!(Vec::<u8>::new().is_empty());
    assert!(cow_is_default(&Vec::<u8>::new()));
    assert!(!cow_is_default(&vec![0u8]));
    assert!(cow_is_default(&serde_json::Value::Null));
    assert!(!cow_is_default(&serde_json::Value::from(0)));
    assert!(!cow_is_default(&serde_json::Value::from("")));
    assert!(SerializeValue::is_empty(&serde_json::Value::Null));
}

#[test]
fn a_record_says_which_fields_are_written() {
    let full = PathedValueSer::of(PathedValue {
        parent: EntityParent::Path("a".to_owned()),
        path: EntityPath::Entity(1),
        value: vec![1u8],
    });
    assert_eq!(full.written(), Written { parent: true, path: true, value: true });
    let bare = PathedValueSer::of(PathedValue {
        parent: EntityParent::Root,
        path: EntityPath::Unique,
        value: Vec::<u8>::new(),
    });
    assert_eq!(bare.written(), Written { parent: false, path: false, value: false });
    let back = bare.into_record();
    assert_eq!(back.parent, EntityParent::Root);
    assert_eq!(back.path, EntityPath::Unique);
    assert!(back.value.is_empty());
}
