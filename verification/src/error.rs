//! The ways in which a structure can fail to yield a materials list.

use vstd::prelude::*;

verus! {

/// The part of the typed layout that a tree failed to match.
#[derive(Clone, Copy, Debug, PartialEq, Eq, Structural)]
pub enum SchemaField {
    Size,
    StructureWorldOrigin,
    Structure,
    Entities,
    Palette,
    PaletteDefault,
    BlockPalette,
    BlockEntry,
    BlockName,
    BlockVersion,
    BlockStates,
    BlockIndices,
    VariantAttribute,
}

impl SchemaField {
    /// The path of the part in the tree, from the root; `[]` stands for an
    /// entry of a list.
    pub open spec fn path_of(self) -> Seq<char> {
        match self {
            SchemaField::Size => "size"@,
            SchemaField::StructureWorldOrigin => "structure_world_origin"@,
            SchemaField::Structure => "structure"@,
            SchemaField::Entities => "structure.entities"@,
            SchemaField::Palette => "structure.palette"@,
            SchemaField::PaletteDefault => "structure.palette.default"@,
            SchemaField::BlockPalette => "structure.palette.default.block_palette"@,
            SchemaField::BlockEntry => "structure.palette.default.block_palette[]"@,
            SchemaField::BlockName => "structure.palette.default.block_palette[].name"@,
            SchemaField::BlockVersion => "structure.palette.default.block_palette[].version"@,
            SchemaField::BlockStates => "structure.palette.default.block_palette[].states"@,
            SchemaField::BlockIndices => "structure.block_indices"@,
            SchemaField::VariantAttribute => "structure.palette.default.block_palette[].states[]"@,
        }
    }

    /// The path of the part in the tree.
    pub fn path(&self) -> (r: &'static str)
        ensures
            r@ == self.path_of(),
    {
        match self {
            SchemaField::Size => "size",
            SchemaField::StructureWorldOrigin => "structure_world_origin",
            SchemaField::Structure => "structure",
            SchemaField::Entities => "structure.entities",
            SchemaField::Palette => "structure.palette",
            SchemaField::PaletteDefault => "structure.palette.default",
            SchemaField::BlockPalette => "structure.palette.default.block_palette",
            SchemaField::BlockEntry => "structure.palette.default.block_palette[]",
            SchemaField::BlockName => "structure.palette.default.block_palette[].name",
            SchemaField::BlockVersion => "structure.palette.default.block_palette[].version",
            SchemaField::BlockStates => "structure.palette.default.block_palette[].states",
            SchemaField::BlockIndices => "structure.block_indices",
            SchemaField::VariantAttribute => "structure.palette.default.block_palette[].states[]",
        }
    }
}

/// Why no materials list was produced.
#[derive(Clone, Copy, Debug, PartialEq, Eq, Structural)]
pub enum StructureError {
    /// A required top-level key is absent, or the format version is not the
    /// supported one: the tree is not a structure at all.
    FormatMismatch,
    /// The tree is a structure, but the named part has the wrong shape.
    SchemaViolation(SchemaField),
    /// The voxel grid refers to a palette slot that does not exist.
    IndexOutOfRange,
    /// The name table is not a flat document of strings.
    LookupTableMalformed,
}

} // verus!
