//! From the generic tree to the typed layout of a structure.

use vstd::prelude::*;
use crate::error::{SchemaField, StructureError};
use crate::schema::{
    blocks_view, grids_view, scalar_view, states_view, BlockPalette, BlockPaletteItems, BlockView,
    McStructure, McStructureView, Palette, Scalar, ScalarView, StateView, Structure,
};
use crate::tag::{fields_view, lemma_fields_view, lemma_tags_view, tags_view, Tag, TagView};

verus! {

/// The one format version that is read.
pub const SUPPORTED_FORMAT_VERSION: i32 = 1;

/// A state's value as a scalar: the text of a text tag, the integer of an
/// integer tag; nothing for any other tag.
pub open spec fn state_of(tag: TagView) -> Option<ScalarView> {
    match tag {
        TagView::Text(s) => Some(ScalarView::Text(s)),
        TagView::Byte(v) => Some(ScalarView::Number(v as i64)),
        TagView::Short(v) => Some(ScalarView::Number(v as i64)),
        TagView::Int(v) => Some(ScalarView::Number(v as i64)),
        TagView::Long(v) => Some(ScalarView::Number(v)),
        _ => None,
    }
}

/// The states of a compound, entry for entry.
pub open spec fn states_of(entries: Seq<(Seq<char>, TagView)>) -> Seq<StateView> {
    Seq::new(entries.len(), |i: int| (entries[i].0, state_of(entries[i].1)))
}

/// The palette entry that a tag declares, or the part of it that is missing
/// or of the wrong kind: the name is looked at first, then the version, then
/// the states.
pub open spec fn block_of(tag: TagView) -> Result<BlockView, SchemaField> {
    if !(tag is Compound) {
        Err(SchemaField::BlockEntry)
    } else if tag.text_at("name"@) is None {
        Err(SchemaField::BlockName)
    } else if tag.int_at("version"@) is None {
        Err(SchemaField::BlockVersion)
    } else if tag.compound_at("states"@) is None {
        Err(SchemaField::BlockStates)
    } else {
        Ok(
            BlockView {
                name: tag.text_at("name"@).unwrap(),
                version: tag.int_at("version"@).unwrap(),
                states: states_of(tag.compound_at("states"@).unwrap().entries()),
            },
        )
    }
}

/// The palette entries that the first `upto` tags declare, or what is wrong
/// with the first of them that declares none.
pub open spec fn blocks_of(items: Seq<TagView>, upto: int) -> Result<Seq<BlockView>, SchemaField>
    decreases upto,
{
    if upto <= 0 {
        Ok(Seq::empty())
    } else {
        match blocks_of(items, upto - 1) {
            Err(e) => Err(e),
            Ok(blocks) => match block_of(items[upto - 1]) {
                Err(e) => Err(e),
                Ok(block) => Ok(blocks.push(block)),
            },
        }
    }
}

/// The layers of palette indices that a list of tags holds, where each tag is
/// a list or an array of integers.
pub open spec fn grids_of(items: Seq<TagView>) -> Option<Seq<Seq<i32>>> {
    if forall|i: int| 0 <= i < items.len() ==> (#[trigger] items[i]).int_list() is Some {
        Some(Seq::new(items.len(), |i: int| items[i].int_list().unwrap()))
    } else {
        None
    }
}

/// Whether a tree is recognised as a structure at all: it has the supported
/// format version, as a 32-bit integer tag, and the keys `structure` and
/// `structure_world_origin`.
pub open spec fn recognised(tree: TagView) -> bool {
    &&& tree.field("format_version"@) matches Some(TagView::Int(v)) && v == SUPPORTED_FORMAT_VERSION
    &&& tree.field("structure"@) is Some
    &&& tree.field("structure_world_origin"@) is Some
}

/// The typed layout of a recognised tree, or the first part of the layout,
/// in the order of this definition, that the tree does not match.
pub open spec fn typed(tree: TagView) -> Result<McStructureView, SchemaField> {
    let structure = tree.compound_at("structure"@);
    let palette = structure.unwrap().compound_at("palette"@);
    let default = palette.unwrap().compound_at("default"@);
    let entries = default.unwrap().items_at("block_palette"@);
    let grids = structure.unwrap().items_at("block_indices"@);
    if !(tree.int_list_at("size"@) matches Some(s) && s.len() == 3) {
        Err(SchemaField::Size)
    } else if !(tree.int_list_at("structure_world_origin"@) matches Some(s) && s.len() == 3) {
        Err(SchemaField::StructureWorldOrigin)
    } else if structure is None {
        Err(SchemaField::Structure)
    } else if !(structure.unwrap().field("entities"@) matches Some(e) && e.sequence_len() is Some) {
        Err(SchemaField::Entities)
    } else if palette is None {
        Err(SchemaField::Palette)
    } else if default is None {
        Err(SchemaField::PaletteDefault)
    } else if entries is None {
        Err(SchemaField::BlockPalette)
    } else if blocks_of(entries.unwrap(), entries.unwrap().len() as int) is Err {
        Err(blocks_of(entries.unwrap(), entries.unwrap().len() as int)->Err_0)
    } else if !(grids matches Some(g) && grids_of(g) is Some) {
        Err(SchemaField::BlockIndices)
    } else {
        Ok(
            McStructureView {
                format_version: SUPPORTED_FORMAT_VERSION,
                size: tree.int_list_at("size"@).unwrap(),
                structure_world_origin: tree.int_list_at("structure_world_origin"@).unwrap(),
                entities: structure.unwrap().field("entities"@).unwrap().sequence_len().unwrap(),
                block_palette: blocks_of(entries.unwrap(), entries.unwrap().len() as int)->Ok_0,
                block_indices: grids_of(grids.unwrap()).unwrap(),
            },
        )
    }
}

/// What a tree projects to: a format mismatch where it is not recognised as
/// a structure, else its typed layout or the schema violation that prevents
/// it.
pub open spec fn projection(tree: TagView) -> Result<McStructureView, StructureError> {
    if !recognised(tree) {
        Err(StructureError::FormatMismatch)
    } else {
        match typed(tree) {
            Ok(doc) => Ok(doc),
            Err(field) => Err(StructureError::SchemaViolation(field)),
        }
    }
}

/// A state's value as a scalar.
pub fn state_value(tag: &Tag) -> (r: Option<Scalar>)
    ensures
        scalar_view(r) == state_of(tag@),
{
    match tag {
        Tag::Text(s) => Some(Scalar::Text(s.clone())),
        Tag::Byte(v) => Some(Scalar::Number(*v as i64)),
        Tag::Short(v) => Some(Scalar::Number(*v as i64)),
        Tag::Int(v) => Some(Scalar::Number(*v as i64)),
        Tag::Long(v) => Some(Scalar::Number(*v)),
        _ => None,
    }
}

/// The states of a compound's entries.
pub fn states_from(entries: &Vec<(String, Tag)>) -> (r: Vec<(String, Option<Scalar>)>)
    ensures
        states_view(r@) == states_of(fields_view(entries@)),
{
    let mut out: Vec<(String, Option<Scalar>)> = Vec::new();
    let mut i: usize = 0;
    proof {
        lemma_fields_view(entries@);
    }
    while i < entries.len()
        invariant
            i <= entries.len(),
            out@.len() == i,
            forall|j: int|
                0 <= j < i ==> (#[trigger] out@[j]).0@ == entries@[j].0@ && scalar_view(out@[j].1)
                    == state_of(entries@[j].1@),
        decreases entries.len() - i,
    {
        out.push((entries[i].0.clone(), state_value(&entries[i].1)));
        i += 1;
    }
    assert(states_view(out@) =~= states_of(fields_view(entries@)));
    out
}

/// The palette entry that a tag declares.
pub fn block_from(tag: &Tag) -> (r: Result<BlockPaletteItems, SchemaField>)
    ensures
        match r {
            Ok(block) => block_of(tag@) == Ok::<BlockView, SchemaField>(block@),
            Err(e) => block_of(tag@) == Err::<BlockView, SchemaField>(e),
        },
{
    if tag.as_compound().is_none() {
        return Err(SchemaField::BlockEntry);
    }
    let name = match tag.text_under("name") {
        Some(s) => s.clone(),
        None => {
            return Err(SchemaField::BlockName);
        },
    };
    let version = match tag.i32_under("version") {
        Some(v) => v,
        None => {
            return Err(SchemaField::BlockVersion);
        },
    };
    let states = match tag.compound_under("states") {
        Some(t) => match t.as_compound() {
            Some(entries) => states_from(entries),
            None => {
                return Err(SchemaField::BlockStates);
            },
        },
        None => {
            return Err(SchemaField::BlockStates);
        },
    };
    Ok(BlockPaletteItems { name, version, states })
}

/// The palette entries that a list of tags declares.
pub fn blocks_from(items: &Vec<Tag>) -> (r: Result<Vec<BlockPaletteItems>, SchemaField>)
    ensures
        match r {
            Ok(blocks) => blocks_of(tags_view(items@), items@.len() as int) == Ok::<
                Seq<BlockView>,
                SchemaField,
            >(blocks_view(blocks@)),
            Err(e) => blocks_of(tags_view(items@), items@.len() as int) == Err::<
                Seq<BlockView>,
                SchemaField,
            >(e),
        },
{
    let ghost views = tags_view(items@);
    let mut out: Vec<BlockPaletteItems> = Vec::new();
    let mut i: usize = 0;
    proof {
        lemma_tags_view(items@);
        assert(blocks_view(out@) =~= Seq::<BlockView>::empty());
    }
    while i < items.len()
        invariant
            i <= items.len(),
            views == tags_view(items@),
            views.len() == items@.len(),
            forall|j: int| 0 <= j < items@.len() ==> #[trigger] views[j] == items@[j]@,
            blocks_of(views, i as int) == Ok::<Seq<BlockView>, SchemaField>(blocks_view(out@)),
        decreases items.len() - i,
    {
        let ghost before = out@;
        assert(views[i as int] == items@[i as int]@);
        match block_from(&items[i]) {
            Ok(block) => {
                out.push(block);
                assert(blocks_view(out@) =~= blocks_view(before).push(block@));
            },
            Err(e) => {
                proof {
                    lemma_blocks_fail(views, i as int + 1, items@.len() as int);
                }
                return Err(e);
            },
        }
        i += 1;
    }
    Ok(out)
}

/// A failure among the first entries is the failure of the whole list.
proof fn lemma_blocks_fail(items: Seq<TagView>, at: int, upto: int)
    requires
        0 <= at <= upto,
        blocks_of(items, at) is Err,
    ensures
        blocks_of(items, upto) == blocks_of(items, at),
    decreases upto - at,
{
    if at < upto {
        lemma_blocks_fail(items, at, upto - 1);
    }
}

/// The layers of palette indices that a list of tags holds.
#[verifier::loop_isolation(false)]
pub fn grids_from(items: &Vec<Tag>) -> (r: Option<Vec<Vec<i32>>>)
    ensures
        match r {
            Some(grids) => grids_of(tags_view(items@)) == Some(grids_view(grids@)),
            None => grids_of(tags_view(items@)) is None,
        },
{
    let ghost views = tags_view(items@);
    let mut out: Vec<Vec<i32>> = Vec::new();
    let mut i: usize = 0;
    proof {
        lemma_tags_view(items@);
    }
    while i < items.len()
        invariant
            i <= items.len(),
            out@.len() == i,
            forall|j: int| 0 <= j < i ==> (#[trigger] views[j]).int_list() == Some(out@[j]@),
        decreases items.len() - i,
    {
        assert(views[i as int] == items@[i as int]@);
        match items[i].as_i32_list() {
            Some(grid) => out.push(grid),
            None => {
                assert(views[i as int].int_list() is None);
                return None;
            },
        }
        i += 1;
    }
    assert(grids_view(out@) =~= Seq::new(views.len(), |i: int| views[i].int_list().unwrap()));
    Some(out)
}

/// Whether a tree is recognised as a structure at all.
pub fn is_recognised(tree: &Tag) -> (r: bool)
    ensures
        r == recognised(tree@),
{
    let version_ok = match tree.get("format_version") {
        Some(t) => match t {
            Tag::Int(v) => *v == SUPPORTED_FORMAT_VERSION,
            _ => false,
        },
        None => false,
    };
    version_ok && tree.get("structure").is_some() && tree.get("structure_world_origin").is_some()
}

/// Maps a tree onto the typed layout of a structure. A tree that is not
/// recognised as a structure is a format mismatch; a recognised tree with a
/// part of the wrong shape is a schema violation that names the part.
pub fn project(tree: &Tag) -> (r: Result<McStructure, StructureError>)
    ensures
        match r {
            Ok(doc) => projection(tree@) == Ok::<McStructureView, StructureError>(doc@),
            Err(e) => projection(tree@) == Err::<McStructureView, StructureError>(e),
        },
{
    if !is_recognised(tree) {
        return Err(StructureError::FormatMismatch);
    }
    let size = match tree.i32_list_under("size") {
        Some(s) => s,
        None => {
            return Err(StructureError::SchemaViolation(SchemaField::Size));
        },
    };
    if size.len() != 3 {
        return Err(StructureError::SchemaViolation(SchemaField::Size));
    }
    let origin = match tree.i32_list_under("structure_world_origin") {
        Some(s) => s,
        None => {
            return Err(StructureError::SchemaViolation(SchemaField::StructureWorldOrigin));
        },
    };
    if origin.len() != 3 {
        return Err(StructureError::SchemaViolation(SchemaField::StructureWorldOrigin));
    }
    let structure = match tree.compound_under("structure") {
        Some(t) => t,
        None => {
            return Err(StructureError::SchemaViolation(SchemaField::Structure));
        },
    };
    let entities = match structure.get("entities") {
        Some(e) => match e.sequence_length() {
            Some(n) => n,
            None => {
                return Err(StructureError::SchemaViolation(SchemaField::Entities));
            },
        },
        None => {
            return Err(StructureError::SchemaViolation(SchemaField::Entities));
        },
    };
    let palette = match structure.compound_under("palette") {
        Some(t) => t,
        None => {
            return Err(StructureError::SchemaViolation(SchemaField::Palette));
        },
    };
    let default = match palette.compound_under("default") {
        Some(t) => t,
        None => {
            return Err(StructureError::SchemaViolation(SchemaField::PaletteDefault));
        },
    };
    let entries = match default.list_under("block_palette") {
        Some(items) => items,
        None => {
            return Err(StructureError::SchemaViolation(SchemaField::BlockPalette));
        },
    };
    proof {
        lemma_tags_view(entries@);
    }
    let block_palette = match blocks_from(entries) {
        Ok(blocks) => blocks,
        Err(field) => {
            return Err(StructureError::SchemaViolation(field));
        },
    };
    let block_indices = match structure.list_under("block_indices") {
        Some(items) => match grids_from(items) {
            Some(grids) => grids,
            None => {
                return Err(StructureError::SchemaViolation(SchemaField::BlockIndices));
            },
        },
        None => {
            return Err(StructureError::SchemaViolation(SchemaField::BlockIndices));
        },
    };
    Ok(
        McStructure {
            format_version: SUPPORTED_FORMAT_VERSION,
            size,
            structure_world_origin: origin,
            structure: Structure {
                entities,
                palette: Palette { default: BlockPalette { block_palette } },
                block_indices,
            },
        },
    )
}

} // verus!
