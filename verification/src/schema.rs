//! The typed layout of a structure, and the variant attribute of a palette
//! entry.

use vstd::prelude::*;
use crate::error::{SchemaField, StructureError};
use crate::rendering::{json_text, json_text_of, unescaped};
use crate::text::{is_plain, joined, lemma_quoted, same_text};

verus! {

/// A block state's value, where it is a string or an integer.
#[derive(Clone, Debug, PartialEq, Eq)]
pub enum Scalar {
    Text(String),
    Number(i64),
}

/// A scalar as what it holds.
pub enum ScalarView {
    Text(Seq<char>),
    Number(i64),
}

impl View for Scalar {
    type V = ScalarView;

    open spec fn view(&self) -> ScalarView {
        match self {
            Scalar::Text(s) => ScalarView::Text(s@),
            Scalar::Number(n) => ScalarView::Number(*n),
        }
    }
}

/// One block state: its key, and its value where that is a scalar.
pub type StateView = (Seq<char>, Option<ScalarView>);

/// What a state's value holds, where it is a scalar.
pub open spec fn scalar_view(value: Option<Scalar>) -> Option<ScalarView> {
    match value {
        Some(v) => Some(v@),
        None => None,
    }
}

/// The key of each state, and what its value holds.
pub open spec fn states_view(states: Seq<(String, Option<Scalar>)>) -> Seq<StateView> {
    Seq::new(states.len(), |i: int| (states[i].0@, scalar_view(states[i].1)))
}

/// One block type as the palette declares it. Its place in the palette is
/// what the voxel grid refers to.
#[derive(Clone, Debug, PartialEq, Eq)]
pub struct BlockPaletteItems {
    pub name: String,
    pub version: i32,
    pub states: Vec<(String, Option<Scalar>)>,
}

/// A palette entry as what it holds.
pub struct BlockView {
    pub name: Seq<char>,
    pub version: i32,
    pub states: Seq<StateView>,
}

impl View for BlockPaletteItems {
    type V = BlockView;

    open spec fn view(&self) -> BlockView {
        BlockView { name: self.name@, version: self.version, states: states_view(self.states@) }
    }
}

/// The palette that the voxel grid refers to.
#[derive(Clone, Debug, PartialEq, Eq)]
pub struct BlockPalette {
    pub block_palette: Vec<BlockPaletteItems>,
}

/// The palettes of a structure; only the default one is read.
#[derive(Clone, Debug, PartialEq, Eq)]
pub struct Palette {
    pub default: BlockPalette,
}

/// The payload of a structure: how many entities it holds, its palette, and
/// its layers of palette indices, of which only the first is counted.
#[derive(Clone, Debug, PartialEq, Eq)]
pub struct Structure {
    pub entities: usize,
    pub palette: Palette,
    pub block_indices: Vec<Vec<i32>>,
}

/// A decoded structure in its typed layout.
#[derive(Clone, Debug, PartialEq, Eq)]
pub struct McStructure {
    pub format_version: i32,
    pub size: Vec<i32>,
    pub structure_world_origin: Vec<i32>,
    pub structure: Structure,
}

/// A structure as what it holds: its declared size and origin, the number
/// of its entities, the entries of its default palette, and its grids.
pub struct McStructureView {
    pub format_version: i32,
    pub size: Seq<i32>,
    pub structure_world_origin: Seq<i32>,
    pub entities: nat,
    pub block_palette: Seq<BlockView>,
    pub block_indices: Seq<Seq<i32>>,
}

/// What each entry of a palette holds.
pub open spec fn blocks_view(blocks: Seq<BlockPaletteItems>) -> Seq<BlockView> {
    Seq::new(blocks.len(), |i: int| blocks[i]@)
}

/// The entries of each grid.
pub open spec fn grids_view(grids: Seq<Vec<i32>>) -> Seq<Seq<i32>> {
    Seq::new(grids.len(), |i: int| grids[i]@)
}

impl View for McStructure {
    type V = McStructureView;

    open spec fn view(&self) -> McStructureView {
        McStructureView {
            format_version: self.format_version,
            size: self.size@,
            structure_world_origin: self.structure_world_origin@,
            entities: self.structure.entities as nat,
            block_palette: blocks_view(self.structure.palette.default.block_palette@),
            block_indices: grids_view(self.structure.block_indices@),
        }
    }
}

/// The value of the first state named `key`, if there is one.
pub open spec fn find_state(states: Seq<StateView>, key: Seq<char>) -> Option<Option<ScalarView>>
    decreases states.len(),
{
    if states.len() == 0 {
        None
    } else if states[0].0 == key {
        Some(states[0].1)
    } else {
        find_state(states.skip(1), key)
    }
}

/// The state that tells variants of one block apart: the first that is
/// present of `color`, `sand_stone_type` and `stone_slab_type_2`.
pub open spec fn variant_state(states: Seq<StateView>) -> Option<Option<ScalarView>> {
    if find_state(states, "color"@) is Some {
        find_state(states, "color"@)
    } else if find_state(states, "sand_stone_type"@) is Some {
        find_state(states, "sand_stone_type"@)
    } else {
        find_state(states, "stone_slab_type_2"@)
    }
}

/// A state's value as it is written into an identity: its JSON text with the
/// quoting resolved. A value that is no scalar has none.
pub open spec fn rendering(value: Option<ScalarView>) -> Option<Seq<char>> {
    match value {
        Some(v) => unescaped(json_text_of(v)),
        None => None,
    }
}

/// The text of a state's value, where that value is a string in which
/// every character stands for itself between double quotes.
pub open spec fn plain_text(value: Option<ScalarView>) -> Option<Seq<char>> {
    match value {
        Some(ScalarView::Text(s)) => if is_plain(s) {
            Some(s)
        } else {
            None
        },
        _ => None,
    }
}

/// The text of the variant state, where that state is a plain string.
pub open spec fn plain_variant(states: Seq<StateView>) -> Option<Seq<char>> {
    match variant_state(states) {
        Some(value) => plain_text(value),
        None => None,
    }
}

/// The suffix for a rendered state: a colon, then the text.
pub open spec fn suffix_from(rendered: Option<Seq<char>>) -> Result<Seq<char>, StructureError> {
    match rendered {
        Some(t) => Ok(":"@ + t),
        None => Err(StructureError::SchemaViolation(SchemaField::VariantAttribute)),
    }
}

/// The variant suffix of a palette entry with these states: empty where no
/// variant state is present.
pub open spec fn suffix_of(states: Seq<StateView>) -> Result<Seq<char>, StructureError> {
    match variant_state(states) {
        None => Ok(Seq::empty()),
        Some(value) => suffix_from(rendering(value)),
    }
}

/// Whether a result is the variant suffix of an entry with these states.
pub open spec fn is_suffix_of(r: Result<String, StructureError>, states: Seq<StateView>) -> bool {
    &&& match r {
        Ok(s) => suffix_of(states) == Ok::<Seq<char>, StructureError>(s@),
        Err(e) => suffix_of(states) == Err::<Seq<char>, StructureError>(e),
    }
    &&& plain_variant(states) matches Some(text) ==> (r matches Ok(s) && s@ == ":"@ + text)
}

/// The suffix for a rendered variant state. A state that could not be
/// rendered is a schema violation.
pub fn variant_suffix(rendered: Option<&str>) -> (r: Result<String, StructureError>)
    ensures
        match r {
            Ok(s) => suffix_from(
                match rendered {
                    Some(t) => Some(t@),
                    None => None,
                },
            ) == Ok::<Seq<char>, StructureError>(s@),
            Err(e) => rendered is None && e == StructureError::SchemaViolation(
                SchemaField::VariantAttribute,
            ),
        },
{
    match rendered {
        Some(t) => Ok(joined(":", t)),
        None => Err(StructureError::SchemaViolation(SchemaField::VariantAttribute)),
    }
}

/// Renders a state's value as it is written into an identity. A string in
/// which every character stands for itself between double quotes is
/// rendered as it is.
pub fn render_state(value: &Option<Scalar>) -> (r: Option<String>)
    ensures
        match r {
            Some(s) => rendering(scalar_view(*value)) == Some(s@),
            None => rendering(scalar_view(*value)) is None,
        },
        plain_text(scalar_view(*value)) matches Some(s) ==> (r matches Some(t) && t@ == s),
{
    match value {
        Some(v) => {
            let json = json_text(v);
            proof {
                if plain_text(Some(v@)) is Some {
                    lemma_quoted(plain_text(Some(v@))->Some_0);
                }
            }
            match snailquote::unescape(json.as_str()) {
                Ok(s) => Some(s),
                Err(_) => None,
            }
        },
        None => None,
    }
}

impl BlockPaletteItems {
    /// The value of the first state named `key`.
    pub fn state(&self, key: &str) -> (r: Option<&Option<Scalar>>)
        ensures
            match r {
                Some(v) => find_state(self@.states, key@) == Some(scalar_view(*v)),
                None => find_state(self@.states, key@) is None,
            },
    {
        let mut i: usize = 0;
        assert(self@.states.skip(0) =~= self@.states);
        while i < self.states.len()
            invariant
                i <= self.states.len(),
                find_state(self@.states, key@) == find_state(self@.states.skip(i as int), key@),
            decreases self.states.len() - i,
        {
            assert(self@.states.skip(i as int)[0] == self@.states[i as int]);
            if same_text(self.states[i].0.as_str(), key) {
                return Some(&self.states[i].1);
            }
            assert(self@.states.skip(i as int).skip(1) =~= self@.states.skip(i as int + 1));
            i += 1;
        }
        None
    }

    /// The variant suffix of this entry: a colon and the rendered value of
    /// its variant state, or the empty string where it has none. A plain
    /// string is rendered as it is.
    pub fn get_attribute(&self) -> (r: Result<String, StructureError>)
        ensures
            is_suffix_of(r, self@.states),
    {
        let value = match self.state("color") {
            Some(v) => v,
            None => match self.state("sand_stone_type") {
                Some(v) => v,
                None => match self.state("stone_slab_type_2") {
                    Some(v) => v,
                    None => {
                        return Ok(String::new());
                    },
                },
            },
        };
        match render_state(value) {
            Some(s) => variant_suffix(Some(s.as_str())),
            None => variant_suffix(None),
        }
    }
}

} // verus!
