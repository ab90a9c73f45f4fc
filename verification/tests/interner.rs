use bevy_salo::{EnumInterner, EnumValue, FlagInterner, FlagValue};

fn seed(names: &[&str]) -> Vec<String> {
    names.iter().map(|n| n.to_string()).collect()
}

#[test]
fn seed_names_have_the_first_codes() {
    let elements = EnumInterner::new(&seed(&["Water", "Earth", "Fire", "Air"]));
    assert_eq!(elements.len(), 4);
    assert_eq!(elements.try_get("Water"), Some(EnumValue(0)));
    assert_eq!(elements.try_get("Air"), Some(EnumValue(3)));
    assert_eq!(elements.try_get("Void"), None);
    assert_eq!(elements.as_str(EnumValue(2)), "Fire");
    assert_eq!(EnumValue(2).value(), 2);
}

#[test]
fn a_new_name_gets_the_next_code() {
    let mut elements = EnumInterner::new(&seed(&["Water", "Earth"]));
    assert_eq!(elements.get("Earth"), EnumValue(1));
    assert_eq!(elements.len(), 2);
    assert_eq!(elements.get("Void"), EnumValue(2));
    assert_eq!(elements.get("Light"), EnumValue(3));
    assert_eq!(elements.get("Void"), EnumValue(2));
    assert_eq!(elements.len(), 4);
    assert_eq!(elements.as_str(EnumValue(3)), "Light");
    assert_eq!(elements.as_str(EnumValue(0)), "Water");
}

#[test]
fn clear_goes_back_to_the_seed() {
    let mut elements = EnumInterner::new(&seed(&["Water", "Earth", "Water"]));
    assert_eq!(elements.len(), 2);
    elements.get("Void");
    assert_eq!(elements.len(), 3);
    elements.clear();
    assert_eq!(elements.len(), 2);
    assert_eq!(elements.try_get("Void"), None);
    assert_eq!(elements.try_get("Earth"), Some(EnumValue(1)));
    assert_eq!(elements.get("Light"), EnumValue(2));
}

#[test]
fn each_flag_has_its_bit() {
    let mut flags = FlagInterner::new(&seed(&["Fire", "Ice", "Poison"])).unwrap();
    assert_eq!(flags.len(), 3);
    assert_eq!(flags.try_get_single("Fire"), Some(FlagValue(1)));
    assert_eq!(flags.try_get_single("Poison"), Some(FlagValue(4)));
    assert_eq!(flags.try_get_single("Fire|Ice"), None);
    assert_eq!(flags.get_single("Ice"), FlagValue(2));
    assert_eq!(flags.get_single("Holy"), FlagValue(8));
    assert_eq!(flags.len(), 4);
}

#[test]
fn joined_names_are_a_union() {
    let mut flags = FlagInterner::new(&seed(&["Fire", "Ice", "Poison"])).unwrap();
    assert_eq!(flags.try_get("Fire|Poison"), Some(FlagValue(5)));
    assert_eq!(flags.try_get("Poison|Fire|Fire"), Some(FlagValue(5)));
    assert_eq!(flags.try_get("Fire|Holy"), None);
    assert_eq!(flags.try_get(""), None);
    assert_eq!(flags.get("Ice|Holy|Dark|Ice"), FlagValue(2 | 8 | 16));
    assert_eq!(flags.len(), 5);
    assert_eq!(flags.try_get("Dark"), Some(FlagValue(16)));
}

#[test]
fn flags_are_written_lowest_bit_first() {
    let flags = FlagInterner::new(&seed(&["Fire", "Ice", "Poison"])).unwrap();
    assert_eq!(flags.as_str(FlagValue(0)), "None");
    assert_eq!(flags.as_str(FlagValue::none()), "None");
    assert_eq!(flags.as_str(FlagValue(1)), "Fire");
    assert_eq!(flags.as_str(FlagValue(6)), "Ice|Poison");
    assert_eq!(flags.as_str(FlagValue(7)), "Fire|Ice|Poison");
    let v = flags.try_get("Poison|Fire").unwrap();
    assert_eq!(flags.as_str(v), "Fire|Poison");
}

#[test]
fn the_name_none_is_a_name_like_any_other() {
    let mut flags = FlagInterner::new(&seed(&["Fire"])).unwrap();
    assert_eq!(flags.try_get("None"), None);
    assert_eq!(flags.get("None"), FlagValue(2));
    assert_eq!(flags.as_str(FlagValue(2)), "None");
}

#[test]
fn there_is_room_for_sixty_four_flags() {
    let names: Vec<String> = (0..64).map(|i| format!("f{}", i)).collect();
    let mut flags = FlagInterner::new(&names).unwrap();
    assert_eq!(flags.len(), 64);
    assert_eq!(flags.get_single("f63"), FlagValue(1 << 63));
    assert_eq!(flags.as_str(FlagValue(1 << 63 | 1)), "f0|f63");
    assert_eq!(flags.as_str(FlagValue(u64::MAX)).split('|').count(), 64);
    let more: Vec<String> = (0..65).map(|i| format!("f{}", i)).collect();
    assert!(FlagInterner::new(&more).is_none());
    flags.clear();
    assert_eq!(flags.len(), 64);
}

#[test]
fn a_code_that_was_not_given_has_no_name() {
    let elements = EnumInterner::new(&seed(&["Water", "Earth"]));
    assert_eq!(elements.name_of(EnumValue(1)), Some("Earth"));
    assert_eq!(elements.name_of(EnumValue(2)), None);
    let flags = FlagInterner::new(&seed(&["Fire", "Ice"])).unwrap();
    assert_eq!(flags.names_of(FlagValue(3)), Some("Fire|Ice".to_owned()));
    assert_eq!(flags.names_of(FlagValue(0)), Some("None".to_owned()));
    assert_eq!(flags.names_of(FlagValue(4)), None);
    assert_eq!(flags.names_of(FlagValue(1 << 63)), None);
}

#[test]
fn a_table_that_is_full_takes_no_new_name() {
    let names: Vec<String> = (0..63).map(|i| format!("f{}", i)).collect();
    let mut flags = FlagInterner::new(&names).unwrap();
    assert_eq!(flags.checked_get("f0|a|b|f1"), None);
    assert_eq!(flags.len(), 63);
    assert_eq!(flags.try_get_single("a"), None);
    assert_eq!(flags.checked_get("f0|a|a|f1"), Some(FlagValue(1 << 63 | 3)));
    assert_eq!(flags.len(), 64);
    assert_eq!(flags.checked_get_single("b"), None);
    assert_eq!(flags.checked_get_single("a"), Some(FlagValue(1 << 63)));
    assert_eq!(flags.checked_get("a|f62"), Some(FlagValue(3 << 62)));
    assert_eq!(flags.names_of(FlagValue(u64::MAX)).unwrap().split('|').count(), 64);
}

#[test]
fn flag_sets_combine() {
    let a = FlagValue(0b0110);
    let b = FlagValue(0b0011);
    assert_eq!(a | b, FlagValue(0b0111));
    assert_eq!(a & b, FlagValue(0b0010));
    assert_eq!(a ^ b, FlagValue(0b0101));
    assert_eq!(a - b, FlagValue(0b0100));
    assert_eq!(b - a, FlagValue(0b0001));
    assert_eq!(a.union(b), FlagValue(0b0111));
    assert_eq!(a.intersection(b), FlagValue(0b0010));
    assert_eq!(a.symmetric_difference(b), FlagValue(0b0101));
    assert_eq!(a.difference(b), FlagValue(0b0100));
    assert!(a.contains(FlagValue(0b0100)));
    assert!(!a.contains(b));
    assert!(a.contains(FlagValue::none()));
    assert!(a.intersects(b));
    assert!(!a.intersects(FlagValue(0b1000)));
    assert!(!a.intersects(FlagValue::none()));
    let mut c = a;
    c.union_assign(b);
    assert_eq!(c, FlagValue(0b0111));
    c.intersection_assign(FlagValue(0b0101));
    assert_eq!(c, FlagValue(0b0101));
    c.symmetric_difference_assign(FlagValue(0b1111));
    assert_eq!(c, FlagValue(0b1010));
    c.difference_assign(FlagValue(0b0010));
    assert_eq!(c, FlagValue(0b1000));
    assert_eq!(c.value(), 8);
}
