use mcstructure_materials::aggregate::{block_identity, identities, identity};
use mcstructure_materials::error::{SchemaField, StructureError};
use mcstructure_materials::schema::{render_state, variant_suffix, BlockPaletteItems, Scalar};

fn id_text(s: &str) -> Option<Scalar> {
    Some(Scalar::Text(s.to_string()))
}

fn id_block(name: &str, states: Vec<(&str, Option<Scalar>)>) -> BlockPaletteItems {
    BlockPaletteItems {
        name: name.to_string(),
        version: 1,
        states: states.into_iter().map(|(k, v)| (k.to_string(), v)).collect(),
    }
}

const UNRENDERED: StructureError = StructureError::SchemaViolation(SchemaField::VariantAttribute);

#[test]
fn an_entry_without_variant_state_has_no_suffix() {
    assert_eq!(id_block("minecraft:stone", vec![]).get_attribute(), Ok(String::new()));
    let other = id_block("minecraft:log", vec![("direction", Some(Scalar::Number(2)))]);
    assert_eq!(other.get_attribute(), Ok(String::new()));
    assert_eq!(identity(&other), Ok("minecraft:log".to_string()));
}

#[test]
fn a_color_is_the_suffix() {
    let wool = id_block("minecraft:wool", vec![("color", id_text("white"))]);
    assert_eq!(wool.get_attribute(), Ok(":white".to_string()));
    assert_eq!(identity(&wool), Ok("minecraft:wool:white".to_string()));
}

#[test]
fn the_first_present_of_the_variant_states_decides() {
    let all = id_block(
        "minecraft:odd",
        vec![
            ("stone_slab_type_2", id_text("prismarine")),
            ("sand_stone_type", id_text("cut")),
            ("color", id_text("red")),
        ],
    );
    assert_eq!(all.get_attribute(), Ok(":red".to_string()));
    let two = id_block(
        "minecraft:odd",
        vec![("stone_slab_type_2", id_text("prismarine")), ("sand_stone_type", id_text("cut"))],
    );
    assert_eq!(two.get_attribute(), Ok(":cut".to_string()));
    let one = id_block("minecraft:slab", vec![("stone_slab_type_2", id_text("prismarine"))]);
    assert_eq!(one.get_attribute(), Ok(":prismarine".to_string()));
}

#[test]
fn the_first_state_of_a_key_is_read() {
    let twice = id_block("minecraft:wool", vec![("color", id_text("red")), ("color", id_text("blue"))]);
    assert_eq!(twice.state("color"), Some(&id_text("red")));
    assert_eq!(twice.state("colour"), None);
    assert_eq!(twice.get_attribute(), Ok(":red".to_string()));
}

#[test]
fn an_integer_state_is_written_in_decimal() {
    let block = id_block("minecraft:wool", vec![("color", Some(Scalar::Number(14)))]);
    assert_eq!(block.get_attribute(), Ok(":14".to_string()));
    assert_eq!(render_state(&Some(Scalar::Number(-7))), Some("-7".to_string()));
    assert_eq!(
        render_state(&Some(Scalar::Number(9223372036854775807))),
        Some("9223372036854775807".to_string())
    );
}

#[test]
fn quoting_is_resolved_in_a_rendered_state() {
    assert_eq!(render_state(&id_text("white")), Some("white".to_string()));
    assert_eq!(render_state(&id_text("it's")), Some("it's".to_string()));
    assert_eq!(render_state(&id_text("a\"b")), Some("a\"b".to_string()));
    assert_eq!(render_state(&id_text("a\\b")), Some("a\\b".to_string()));
    assert_eq!(render_state(&id_text("two words")), Some("two words".to_string()));
    assert_eq!(render_state(&id_text("line\nbreak")), Some("line\nbreak".to_string()));
    assert_eq!(render_state(&id_text("")), Some(String::new()));
}

#[test]
fn a_state_that_cannot_be_rendered_is_a_schema_violation() {
    assert_eq!(render_state(&None), None);
    assert_eq!(render_state(&id_text("\u{1}")), None);
    let float = id_block("minecraft:wool", vec![("color", None)]);
    assert_eq!(float.get_attribute(), Err(UNRENDERED));
    assert_eq!(identity(&float), Err(UNRENDERED));
    let control = id_block("minecraft:wool", vec![("color", id_text("\u{1}"))]);
    assert_eq!(control.get_attribute(), Err(UNRENDERED));
}

#[test]
fn an_unrendered_state_behind_a_rendered_one_is_not_read() {
    let block = id_block("minecraft:wool", vec![("sand_stone_type", None), ("color", id_text("red"))]);
    assert_eq!(block.get_attribute(), Ok(":red".to_string()));
}

#[test]
fn a_suffix_is_a_colon_and_the_text() {
    assert_eq!(variant_suffix(Some("white")), Ok(":white".to_string()));
    assert_eq!(variant_suffix(Some("")), Ok(":".to_string()));
    assert_eq!(variant_suffix(None), Err(UNRENDERED));
    assert_eq!(block_identity("minecraft:wool", ":white"), "minecraft:wool:white");
    assert_eq!(block_identity("minecraft:stone", ""), "minecraft:stone");
}

#[test]
fn identities_stand_slot_for_slot() {
    let palette = vec![
        id_block("minecraft:wool", vec![("color", id_text("white"))]),
        id_block("minecraft:stone", vec![]),
        id_block("minecraft:wool", vec![("color", id_text("black"))]),
        id_block("minecraft:stone", vec![]),
    ];
    assert_eq!(
        identities(&palette),
        Ok(vec![
            "minecraft:wool:white".to_string(),
            "minecraft:stone".to_string(),
            "minecraft:wool:black".to_string(),
            "minecraft:stone".to_string(),
        ])
    );
    assert_eq!(identities(&vec![]), Ok(vec![]));
}

#[test]
fn two_colors_of_one_block_have_two_identities() {
    let white = id_block("minecraft:wool", vec![("color", id_text("white"))]);
    let black = id_block("minecraft:wool", vec![("color", id_text("black"))]);
    assert_ne!(identity(&white).unwrap(), identity(&black).unwrap());
}

#[test]
fn an_integer_and_its_digits_as_text_are_rendered_alike() {
    let number = id_block("minecraft:wool", vec![("color", Some(Scalar::Number(1)))]);
    let digits = id_block("minecraft:wool", vec![("color", id_text("1"))]);
    assert_eq!(identity(&number).unwrap(), identity(&digits).unwrap());
}

#[test]
fn the_first_entry_without_identity_fails_the_palette() {
    let palette = vec![
        id_block("minecraft:stone", vec![]),
        id_block("minecraft:wool", vec![("color", None)]),
    ];
    assert_eq!(identities(&palette), Err(UNRENDERED));
}
