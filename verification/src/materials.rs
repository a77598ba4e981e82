//! The materials list of a structure: from the decoded tree and the name
//! table to the count of each display name.

use vstd::prelude::*;
use crate::aggregate::{
    aggregate, entries_view, identities, identities_of, raw_counts_of, McBlock,
};
use crate::cli::StructureConfig;
use crate::counts::{in_range, total, Entry};
use crate::error::{SchemaField, StructureError};
use crate::names::{table_of, NameMap};
use crate::normalize::{normalize, normalized};
use crate::project::{project, projection};
use crate::rendering::string_table_of;
use crate::schema::{grids_view, McStructure, McStructureView};
use crate::tag::{Tag, TagView};
use crate::text::texts_view;

verus! {

/// The materials of a structure and its declared dimensions.
#[derive(Clone, Debug, PartialEq, Eq)]
pub struct MaterialsReport {
    pub width: i32,
    pub depth: i32,
    pub height: i32,
    pub materials: Vec<McBlock>,
}

/// A report as what it holds.
pub struct ReportView {
    pub width: i32,
    pub depth: i32,
    pub height: i32,
    pub materials: Seq<Entry>,
}

impl View for MaterialsReport {
    type V = ReportView;

    open spec fn view(&self) -> ReportView {
        ReportView {
            width: self.width,
            depth: self.depth,
            height: self.height,
            materials: entries_view(self.materials@),
        }
    }
}

/// The raw counts of a structure: its first grid counted against the
/// identities of its palette. A palette entry whose variant state cannot be
/// rendered, a structure without a grid, and a grid entry that is no slot of
/// the palette are errors, looked for in this order.
pub open spec fn raw_materials(doc: McStructureView) -> Result<Seq<Entry>, StructureError> {
    match identities_of(doc.block_palette, doc.block_palette.len() as int) {
        Err(e) => Err(e),
        Ok(ids) => if doc.block_indices.len() == 0 {
            Err(StructureError::SchemaViolation(SchemaField::BlockIndices))
        } else if !in_range(doc.block_indices[0], ids.len()) {
            Err(StructureError::IndexOutOfRange)
        } else {
            Ok(raw_counts_of(ids, doc.block_indices[0]))
        },
    }
}

/// What a tree and the text of a name table give: the failure of the
/// projection, else that of the counting, else that of the name table, else
/// the dimensions of the structure, as width, height and depth in the order
/// of its size, and its materials list.
pub open spec fn report_of(tree: TagView, table: Seq<char>) -> Result<ReportView, StructureError> {
    match projection(tree) {
        Err(e) => Err(e),
        Ok(doc) => match raw_materials(doc) {
            Err(e) => Err(e),
            Ok(raw) => match string_table_of(table) {
                None => Err(StructureError::LookupTableMalformed),
                Some(pairs) => Ok(
                    ReportView {
                        width: doc.size[0],
                        height: doc.size[1],
                        depth: doc.size[2],
                        materials: normalized(raw, table_of(pairs)),
                    },
                ),
            },
        },
    }
}

/// Whether a result is what a tree and the text of a name table give.
pub open spec fn is_report_of(
    r: Result<MaterialsReport, StructureError>,
    tree: TagView,
    table: Seq<char>,
) -> bool {
    match r {
        Ok(report) => report_of(tree, table) == Ok::<ReportView, StructureError>(report@),
        Err(e) => report_of(tree, table) == Err::<ReportView, StructureError>(e),
    }
}

/// The materials list of a grid counted against the identities of a
/// palette, under a name table.
pub open spec fn materials_of(
    ids: Seq<Seq<char>>,
    grid: Seq<i32>,
    names: Map<Seq<char>, Seq<char>>,
) -> Seq<Entry> {
    normalized(raw_counts_of(ids, grid), names)
}

/// The raw counts of a structure.
pub fn raw_counts(doc: &McStructure) -> (r: Result<Vec<McBlock>, StructureError>)
    ensures
        match r {
            Ok(raw) => raw_materials(doc@) == Ok::<Seq<Entry>, StructureError>(entries_view(raw@))
                && total(entries_view(raw@)) <= u64::MAX,
            Err(e) => raw_materials(doc@) == Err::<Seq<Entry>, StructureError>(e),
        },
{
    let ids = match identities(&doc.structure.palette.default.block_palette) {
        Ok(ids) => ids,
        Err(e) => {
            return Err(e);
        },
    };
    assert(texts_view(ids@).len() == ids@.len());
    if doc.structure.block_indices.len() == 0 {
        return Err(StructureError::SchemaViolation(SchemaField::BlockIndices));
    }
    assert(grids_view(doc.structure.block_indices@)[0] == doc.structure.block_indices@[0]@);
    let grid = &doc.structure.block_indices[0];
    let cells: usize = grid.len();
    aggregate(&ids, grid)
}

impl StructureConfig {
    /// The materials list of a decoded structure file under the name table
    /// that a text holds.
    pub fn run(&self, tree: &Tag, table: &str) -> (r: Result<MaterialsReport, StructureError>)
        ensures
            is_report_of(r, tree@, table@),
    {
        let doc = match project(tree) {
            Ok(doc) => doc,
            Err(e) => {
                return Err(e);
            },
        };
        let raw = match raw_counts(&doc) {
            Ok(raw) => raw,
            Err(e) => {
                return Err(e);
            },
        };
        let names = match NameMap::parse(table) {
            Ok(names) => names,
            Err(e) => {
                return Err(e);
            },
        };
        let materials = normalize(&raw, &names);
        assert(doc.size@.len() == 3);
        Ok(
            MaterialsReport {
                width: doc.size[0],
                height: doc.size[1],
                depth: doc.size[2],
                materials,
            },
        )
    }
}

} // verus!
