use aamp::hash::{hash_name, Name};
use aamp::names::{format_child, format_number, format_numbered_name, NameTable};

#[test]
fn test_names() {
    let mut table = NameTable::new(true);
    let parent_hash: u32 = 2814088591;
    assert_eq!(table.get_name(parent_hash, 0, 0).unwrap(), "AI");
    let hash: u32 = 2157271501;
    let index: usize = 35;
    assert_eq!(table.get_name(hash, index, parent_hash).unwrap(), "AI_35");
}

#[test]
fn hash_of_known_names() {
    assert_eq!(hash_name("AI"), 2814088591);
    assert_eq!(hash_name("AI_35"), 2157271501);
    assert_eq!(hash_name(""), 0);
    assert_eq!(hash_name("param_root"), 0xA4F6CB6C);
    assert_eq!(Name::from_str("AI"), Name::new(2814088591));
}

#[test]
fn child_patterns_in_order() {
    assert_eq!(format_child("Bone", 7, 0).unwrap(), "Bone7");
    assert_eq!(format_child("Bone", 7, 1).unwrap(), "Bone07");
    assert_eq!(format_child("Bone", 7, 2).unwrap(), "Bone007");
    assert_eq!(format_child("Bone", 7, 3).unwrap(), "Bone_7");
    assert_eq!(format_child("Bone", 7, 4).unwrap(), "Bone_07");
    assert_eq!(format_child("Bone", 7, 5).unwrap(), "Bone_007");
    assert_eq!(format_child("Bone", 1234, 5).unwrap(), "Bone_1234");
    assert_eq!(format_child("Bone", 7, 6), None);
}

#[test]
fn numbered_names_are_filled_in() {
    assert_eq!(format_numbered_name("Item%03d", 5).unwrap(), "Item005");
    assert_eq!(format_numbered_name("A%dB", 12).unwrap(), "A12B");
    assert_eq!(format_numbered_name("A%dB%dC", 3).unwrap(), "A3B");
    assert_eq!(format_numbered_name("X%02u", 3).unwrap(), "X03");
    assert_eq!(format_numbered_name("X%04d_y", 3).unwrap(), "X0003_y");
    assert_eq!(format_numbered_name("plain", 3), None);
    assert_eq!(format_number("%d", 5).unwrap(), "5");
    assert_eq!(format_number("%u", 5).unwrap(), "5");
    assert_eq!(format_number("%02d", 5).unwrap(), "05");
    assert_eq!(format_number("%02u", 5).unwrap(), "05");
    assert_eq!(format_number("%03d", 5).unwrap(), "005");
    assert_eq!(format_number("%04d", 5).unwrap(), "0005");
    assert_eq!(format_number("%05d", 5), None);
}

#[test]
fn asking_twice_gives_the_same_name() {
    let mut table = NameTable::new(false);
    table.add_name_str("Bones");
    let parent = hash_name("Bones");
    let hash = hash_name("Bone_02");
    assert_eq!(table.get_name(hash, 2, 0), None);
    assert_eq!(table.get_name(hash, 2, 0), None);
    let first = table.get_name(hash, 2, parent);
    assert_eq!(first.as_deref(), Some("Bone_02"));
    // Held from now on: found again with another index and without the parent.
    assert_eq!(table.get_name(hash, 2, parent), first);
    assert_eq!(table.get_name(hash, 7, 0), first);
}

#[test]
fn prefixes_are_tried_in_order() {
    let mut table = NameTable::new(false);
    table.add_name_str("ItemList");
    let parent = hash_name("ItemList");
    assert_eq!(table.get_name(hash_name("ItemList3"), 3, parent).as_deref(), Some("ItemList3"));
    assert_eq!(table.get_name(hash_name("Children_004"), 4, parent).as_deref(), Some("Children_004"));
    assert_eq!(table.get_name(hash_name("Child05"), 5, parent).as_deref(), Some("Child05"));
    assert_eq!(table.get_name(hash_name("Item_6"), 6, parent).as_deref(), Some("Item_6"));
    // Only the index itself is tried with a prefix.
    assert_eq!(table.get_name(hash_name("Item_8"), 7, parent), None);
    let mut table = NameTable::new(false);
    table.add_name_str("Boxes");
    let parent = hash_name("Boxes");
    assert_eq!(table.get_name(hash_name("Boxe1"), 1, parent).as_deref(), Some("Boxe1"));
    assert_eq!(table.get_name(hash_name("Box1"), 1, parent).as_deref(), Some("Box1"));
    // Without the parent's name no prefix is tried.
    let mut table = NameTable::new(false);
    assert_eq!(table.get_name(hash_name("Child05"), 5, parent), None);
}

#[test]
fn numbered_names_are_tried_up_to_the_next_index() {
    let mut table = NameTable::new(true);
    assert_eq!(table.get_name(hash_name("Item005"), 4, 0).as_deref(), Some("Item005"));
    assert_eq!(table.get_name(hash_name("Item000"), 4, 0).as_deref(), Some("Item000"));
    assert_eq!(table.get_name(hash_name("Item007"), 5, 0), None);
    assert_eq!(table.get_name(hash_name("Action_1"), 0, 0).as_deref(), Some("Action_1"));
    assert_eq!(table.get_name(hash_name("Action_2"), 0, 0), None);
    let mut empty = NameTable::new(false);
    assert_eq!(empty.get_name(hash_name("Item005"), 4, 0), None);
    assert_eq!(empty.get_name(hash_name("AI"), 0, 0), None);
}

#[test]
fn the_first_name_for_a_hash_stays() {
    let mut table = NameTable::new(false);
    table.add_name_with_hash("first".to_string(), 7);
    table.add_name_with_hash("second".to_string(), 7);
    assert_eq!(table.get_name(7, 0, 0).as_deref(), Some("first"));
    table.add_name("Name".to_string());
    table.add_name_with_hash("Other".to_string(), hash_name("Name"));
    assert_eq!(table.get_name(hash_name("Name"), 0, 0).as_deref(), Some("Name"));
    table.add_name_str("Word");
    assert_eq!(table.get_name(hash_name("Word"), 3, 9).as_deref(), Some("Word"));
}
