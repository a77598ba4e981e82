use mcstructure_materials::aggregate::McBlock;
use mcstructure_materials::cli::{OutputFormat, StructureConfig};
use mcstructure_materials::error::{SchemaField, StructureError};
use mcstructure_materials::materials::{raw_counts, MaterialsReport};
use mcstructure_materials::project::project;
use mcstructure_materials::tag::Tag;

fn rp_text(s: &str) -> Tag {
    Tag::Text(s.to_string())
}

fn rp_compound(entries: Vec<(&str, Tag)>) -> Tag {
    Tag::Compound(entries.into_iter().map(|(k, v)| (k.to_string(), v)).collect())
}

fn rp_ints(values: &[i32]) -> Tag {
    Tag::List(values.iter().map(|v| Tag::Int(*v)).collect())
}

fn rp_block(name: &str, states: Vec<(&str, Tag)>) -> Tag {
    rp_compound(vec![
        ("name", rp_text(name)),
        ("states", rp_compound(states)),
        ("version", Tag::Int(17959425)),
    ])
}

fn rp_tree(size: &[i32], palette: Vec<Tag>, grids: Vec<Tag>) -> Tag {
    rp_compound(vec![
        ("format_version", Tag::Int(1)),
        ("size", rp_ints(size)),
        (
            "structure",
            rp_compound(vec![
                ("block_indices", Tag::List(grids)),
                ("entities", Tag::List(vec![])),
                (
                    "palette",
                    rp_compound(vec![(
                        "default",
                        rp_compound(vec![("block_palette", Tag::List(palette))]),
                    )]),
                ),
            ]),
        ),
        ("structure_world_origin", rp_ints(&[0, 0, 0])),
    ])
}

fn rp_block_of(name: &str, count: u64) -> McBlock {
    McBlock { name: name.to_string(), count }
}

fn rp_config() -> StructureConfig {
    StructureConfig { file: "house.mcstructure".to_string(), format: OutputFormat::Text }
}

const RP_TABLE: &str = "{\"minecraft:stone\": \"Stone\", \"minecraft:wool:white\": \"Wool\", \
    \"minecraft:wool:black\": \"Wool\"}";

#[test]
fn stone_and_air_give_one_stone() {
    let tree = rp_tree(
        &[1, 1, 2],
        vec![rp_block("minecraft:stone", vec![]), rp_block("minecraft:air", vec![])],
        vec![rp_ints(&[0, 1])],
    );
    let doc = project(&tree).unwrap();
    assert_eq!(
        raw_counts(&doc),
        Ok(vec![rp_block_of("minecraft:stone", 1), rp_block_of("minecraft:air", 1)])
    );
    assert_eq!(
        rp_config().run(&tree, "{\"minecraft:stone\": \"Stone\"}"),
        Ok(MaterialsReport {
            width: 1,
            height: 1,
            depth: 2,
            materials: vec![rp_block_of("Stone", 1)],
        })
    );
}

#[test]
fn the_dimensions_are_width_height_and_depth() {
    let tree = rp_tree(&[3, 5, 7], vec![], vec![rp_ints(&[])]);
    let report = rp_config().run(&tree, "{}").unwrap();
    assert_eq!((report.width, report.height, report.depth), (3, 5, 7));
    assert!(report.materials.is_empty());
}

#[test]
fn only_the_first_grid_is_counted() {
    let tree = rp_tree(
        &[1, 1, 2],
        vec![rp_block("minecraft:stone", vec![]), rp_block("minecraft:water", vec![])],
        vec![rp_ints(&[0, 0]), rp_ints(&[1, -1])],
    );
    let report = rp_config().run(&tree, "{}").unwrap();
    assert_eq!(
        report.materials,
        vec![rp_block_of("minecraft:stone", 2), rp_block_of("minecraft:water", 0)]
    );
}

#[test]
fn variants_are_counted_apart_and_merged_by_display_name() {
    let palette = vec![
        rp_block("minecraft:wool", vec![("color", rp_text("white"))]),
        rp_block("minecraft:wool", vec![("color", rp_text("black"))]),
        rp_block("minecraft:wool", vec![("color", rp_text("red"))]),
        rp_block("minecraft:stone", vec![]),
        rp_block("minecraft:stone", vec![("stone_type", rp_text("granite"))]),
        rp_block("minecraft:air", vec![]),
    ];
    let tree = rp_tree(&[2, 2, 3], palette, vec![rp_ints(&[0, 1, 2, 3, 4, 5, 5, 0, 1, 2, 2, 4])]);
    let doc = project(&tree).unwrap();
    assert_eq!(
        raw_counts(&doc),
        Ok(vec![
            rp_block_of("minecraft:wool:white", 2),
            rp_block_of("minecraft:wool:black", 2),
            rp_block_of("minecraft:wool:red", 3),
            rp_block_of("minecraft:stone", 3),
            rp_block_of("minecraft:air", 2),
        ])
    );
    let report = rp_config().run(&tree, RP_TABLE).unwrap();
    assert_eq!(
        report.materials,
        vec![
            rp_block_of("Wool", 4),
            rp_block_of("minecraft:wool:red", 3),
            rp_block_of("Stone", 3),
        ]
    );
    assert_eq!(report.materials.iter().map(|b| b.count).sum::<u64>(), 12 - 2);
}

#[test]
fn the_same_inputs_give_the_same_report() {
    let palette = vec![
        rp_block("minecraft:wool", vec![("color", rp_text("white"))]),
        rp_block("minecraft:stone", vec![]),
    ];
    let tree = rp_tree(&[1, 1, 3], palette, vec![rp_ints(&[0, 1, 1])]);
    let first = rp_config().run(&tree, RP_TABLE);
    let second = rp_config().run(&tree, RP_TABLE);
    assert_eq!(first, second);
    assert_eq!(
        first.unwrap().materials,
        vec![rp_block_of("Wool", 1), rp_block_of("Stone", 2)]
    );
}

#[test]
fn an_unreferenced_palette_entry_is_listed_with_zero() {
    let tree = rp_tree(
        &[1, 1, 1],
        vec![rp_block("minecraft:stone", vec![]), rp_block("minecraft:dirt", vec![])],
        vec![rp_ints(&[1])],
    );
    let report = rp_config().run(&tree, "{}").unwrap();
    assert_eq!(
        report.materials,
        vec![rp_block_of("minecraft:stone", 0), rp_block_of("minecraft:dirt", 1)]
    );
}

#[test]
fn a_grid_entry_past_the_palette_fails_the_run() {
    let tree = rp_tree(
        &[1, 1, 2],
        vec![rp_block("minecraft:stone", vec![]), rp_block("minecraft:air", vec![])],
        vec![rp_ints(&[0, 2])],
    );
    assert_eq!(rp_config().run(&tree, "{}"), Err(StructureError::IndexOutOfRange));
    assert_eq!(raw_counts(&project(&tree).unwrap()), Err(StructureError::IndexOutOfRange));
}

#[test]
fn a_structure_without_grid_fails_the_run() {
    let tree = rp_tree(&[1, 1, 1], vec![rp_block("minecraft:stone", vec![])], vec![]);
    assert_eq!(
        rp_config().run(&tree, "{}"),
        Err(StructureError::SchemaViolation(SchemaField::BlockIndices))
    );
}

#[test]
fn a_variant_state_that_is_no_scalar_fails_the_run() {
    let tree = rp_tree(
        &[1, 1, 1],
        vec![rp_block("minecraft:wool", vec![("color", Tag::Float(1065353216))])],
        vec![rp_ints(&[0])],
    );
    assert_eq!(
        rp_config().run(&tree, "{}"),
        Err(StructureError::SchemaViolation(SchemaField::VariantAttribute))
    );
}

#[test]
fn a_malformed_table_fails_the_run_behind_the_structure() {
    let good = rp_tree(&[1, 1, 1], vec![rp_block("minecraft:stone", vec![])], vec![rp_ints(&[0])]);
    assert_eq!(rp_config().run(&good, "[]"), Err(StructureError::LookupTableMalformed));
    let bad = rp_tree(&[1, 1, 1], vec![rp_block("minecraft:stone", vec![])], vec![rp_ints(&[1])]);
    assert_eq!(rp_config().run(&bad, "[]"), Err(StructureError::IndexOutOfRange));
    assert_eq!(rp_config().run(&Tag::Int(0), "[]"), Err(StructureError::FormatMismatch));
}
