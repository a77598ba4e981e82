use mcstructure_materials::aggregate::{aggregate, find_block, merge_counts, tally_slots, McBlock};
use mcstructure_materials::error::StructureError;
use mcstructure_materials::names::NameMap;
use mcstructure_materials::normalize::{
    is_placeholder_name, normalize, remove_placeholders, rename_blocks,
};

fn ct_block(name: &str, count: u64) -> McBlock {
    McBlock { name: name.to_string(), count }
}

fn ct_ids(names: &[&str]) -> Vec<String> {
    names.iter().map(|n| n.to_string()).collect()
}

fn ct_names(pairs: &[(&str, &str)]) -> NameMap {
    NameMap::from_pairs(pairs.iter().map(|(k, v)| (k.to_string(), v.to_string())).collect())
}

#[test]
fn every_slot_is_counted() {
    let ids = ct_ids(&["a", "b", "c"]);
    assert_eq!(
        tally_slots(&ids, &vec![0, 2, 2, 0, 2]),
        Ok(vec![ct_block("a", 2), ct_block("b", 0), ct_block("c", 3)])
    );
    assert_eq!(
        tally_slots(&ids, &vec![]),
        Ok(vec![ct_block("a", 0), ct_block("b", 0), ct_block("c", 0)])
    );
    assert_eq!(tally_slots(&vec![], &vec![]), Ok(vec![]));
}

#[test]
fn an_index_equal_to_the_palette_length_is_out_of_range() {
    let ids = ct_ids(&["a", "b"]);
    assert_eq!(tally_slots(&ids, &vec![0, 1, 2]), Err(StructureError::IndexOutOfRange));
    assert_eq!(aggregate(&ids, &vec![0, 1, 2]), Err(StructureError::IndexOutOfRange));
    assert_eq!(aggregate(&ids, &vec![2, 0, 1]), Err(StructureError::IndexOutOfRange));
    assert_eq!(aggregate(&ids, &vec![0, 1, 1]).map(|raw| raw.len()), Ok(2));
}

#[test]
fn a_negative_or_large_index_is_out_of_range() {
    let ids = ct_ids(&["a", "b"]);
    assert_eq!(aggregate(&ids, &vec![0, -1]), Err(StructureError::IndexOutOfRange));
    assert_eq!(aggregate(&ids, &vec![-2147483648]), Err(StructureError::IndexOutOfRange));
    assert_eq!(aggregate(&ids, &vec![2147483647]), Err(StructureError::IndexOutOfRange));
    assert_eq!(aggregate(&vec![], &vec![0]), Err(StructureError::IndexOutOfRange));
}

#[test]
fn slots_of_one_identity_are_counted_together() {
    let ids = ct_ids(&["stone", "wool:white", "stone", "dirt"]);
    assert_eq!(
        aggregate(&ids, &vec![0, 2, 2, 1, 0]),
        Ok(vec![ct_block("stone", 4), ct_block("wool:white", 1), ct_block("dirt", 0)])
    );
}

#[test]
fn equal_names_are_merged_in_the_order_of_first_occurrence() {
    let blocks = vec![
        ct_block("b", 1),
        ct_block("a", 2),
        ct_block("b", 4),
        ct_block("c", 0),
        ct_block("a", 8),
    ];
    assert_eq!(
        merge_counts(&blocks),
        vec![ct_block("b", 5), ct_block("a", 10), ct_block("c", 0)]
    );
    assert_eq!(merge_counts(&vec![]), vec![]);
}

#[test]
fn merging_reaches_the_largest_count() {
    let blocks = vec![ct_block("a", 18446744073709551614), ct_block("a", 1)];
    assert_eq!(merge_counts(&blocks), vec![ct_block("a", 18446744073709551615)]);
}

#[test]
fn the_first_block_of_a_name_is_found() {
    let blocks = vec![ct_block("a", 1), ct_block("b", 2), ct_block("a", 3)];
    assert_eq!(find_block(&blocks, "a"), Some(0));
    assert_eq!(find_block(&blocks, "b"), Some(1));
    assert_eq!(find_block(&blocks, "c"), None);
}

#[test]
fn the_placeholders_are_seven() {
    for name in [
        "minecraft:air",
        "minecraft:stickyPistonArmCollision",
        "minecraft:pistonArmCollision",
        "minecraft:structure_block",
        "minecraft:command_block",
        "minecraft:repeating_command_block",
        "minecraft:chain_command_block",
    ] {
        assert!(is_placeholder_name(name));
    }
    for name in ["minecraft:stone", "air", "minecraft:air:white", "minecraft:Air", ""] {
        assert!(!is_placeholder_name(name));
    }
}

#[test]
fn placeholders_are_removed_and_the_order_is_kept() {
    let raw = vec![
        ct_block("minecraft:stone", 1),
        ct_block("minecraft:air", 9),
        ct_block("minecraft:dirt", 0),
        ct_block("minecraft:structure_block", 1),
    ];
    assert_eq!(
        remove_placeholders(&raw),
        vec![ct_block("minecraft:stone", 1), ct_block("minecraft:dirt", 0)]
    );
}

#[test]
fn an_identity_without_display_name_passes_through() {
    let names = ct_names(&[("minecraft:stone", "Stone")]);
    let raw = vec![ct_block("minecraft:stone", 1), ct_block("minecraft:new_block", 2)];
    assert_eq!(
        rename_blocks(&raw, &names),
        vec![ct_block("Stone", 1), ct_block("minecraft:new_block", 2)]
    );
    assert_eq!(names.display_name("minecraft:stone"), "Stone");
    assert_eq!(names.display_name("minecraft:new_block"), "minecraft:new_block");
}

#[test]
fn counts_of_identities_with_one_display_name_are_added() {
    let names = ct_names(&[("A", "X"), ("B", "X")]);
    let raw = vec![ct_block("A", 5), ct_block("B", 3)];
    assert_eq!(normalize(&raw, &names), vec![ct_block("X", 8)]);
}

#[test]
fn a_display_name_may_be_another_identity() {
    let names = ct_names(&[("minecraft:stone:smooth", "minecraft:stone")]);
    let raw = vec![
        ct_block("minecraft:dirt", 2),
        ct_block("minecraft:stone:smooth", 4),
        ct_block("minecraft:air", 6),
        ct_block("minecraft:stone", 1),
    ];
    assert_eq!(
        normalize(&raw, &names),
        vec![ct_block("minecraft:dirt", 2), ct_block("minecraft:stone", 5)]
    );
}

#[test]
fn a_placeholder_is_removed_by_its_identity_not_by_its_display_name() {
    let names = ct_names(&[("minecraft:air", "Air"), ("minecraft:glass", "minecraft:air")]);
    let raw = vec![ct_block("minecraft:air", 3), ct_block("minecraft:glass", 2)];
    assert_eq!(normalize(&raw, &names), vec![ct_block("minecraft:air", 2)]);
}

#[test]
fn the_counts_of_a_list_add_up_to_the_entries_that_are_no_placeholders() {
    let ids = ct_ids(&["minecraft:air", "minecraft:stone", "minecraft:wool:red", "minecraft:dirt"]);
    let grid = vec![0, 1, 1, 2, 0, 0, 3, 1, 2, 0];
    let names = ct_names(&[("minecraft:stone", "Stone"), ("minecraft:dirt", "Stone")]);
    let raw = aggregate(&ids, &grid).unwrap();
    assert_eq!(raw.iter().map(|b| b.count).sum::<u64>(), 10);
    let list = normalize(&raw, &names);
    assert_eq!(list, vec![ct_block("Stone", 4), ct_block("minecraft:wool:red", 2)]);
    assert_eq!(list.iter().map(|b| b.count).sum::<u64>(), 10 - 4);
}
