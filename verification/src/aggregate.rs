//! From the palette and the voxel grid to the raw count of each block
//! identity.

use vstd::prelude::*;
use crate::counts::{
    absorbed, in_range, lemma_merged_total, lemma_occurrences_bound, lemma_position,
    lemma_slot_total, lemma_total_holds, lemma_total_prefix, merged, occurrences, position, slot_entries, total,
    Entry,
};
use crate::error::StructureError;
use crate::schema::{blocks_view, plain_variant, suffix_of, BlockPaletteItems, BlockView};
use crate::text::{joined, same_text, texts_view};

verus! {

/// A block name and how many voxels hold it.
#[derive(Clone, Debug, PartialEq, Eq)]
pub struct McBlock {
    pub name: String,
    pub count: u64,
}

impl View for McBlock {
    type V = Entry;

    open spec fn view(&self) -> Entry {
        (self.name@, self.count as nat)
    }
}

/// The name and the count of each block of a list.
pub open spec fn entries_view(blocks: Seq<McBlock>) -> Seq<Entry> {
    Seq::new(blocks.len(), |i: int| blocks[i]@)
}

/// The identity of a palette entry: its name, then its variant suffix.
pub open spec fn identity_of(block: BlockView) -> Result<Seq<char>, StructureError> {
    match suffix_of(block.states) {
        Ok(suffix) => Ok(block.name + suffix),
        Err(e) => Err(e),
    }
}

/// The identities of the first `upto` palette entries, slot for slot, or the
/// failure of the first entry that has none.
pub open spec fn identities_of(blocks: Seq<BlockView>, upto: int) -> Result<
    Seq<Seq<char>>,
    StructureError,
>
    decreases upto,
{
    if upto <= 0 {
        Ok(Seq::empty())
    } else {
        match identities_of(blocks, upto - 1) {
            Err(e) => Err(e),
            Ok(ids) => match identity_of(blocks[upto - 1]) {
                Err(e) => Err(e),
                Ok(id) => Ok(ids.push(id)),
            },
        }
    }
}

/// A failure among the first entries is the failure of the whole palette.
proof fn lemma_identities_fail(blocks: Seq<BlockView>, at: int, upto: int)
    requires
        0 <= at <= upto,
        identities_of(blocks, at) is Err,
    ensures
        identities_of(blocks, upto) == identities_of(blocks, at),
    decreases upto - at,
{
    if at < upto {
        lemma_identities_fail(blocks, at, upto - 1);
    }
}

/// The identities of a whole palette are as many as its entries.
pub proof fn lemma_identities_len(blocks: Seq<BlockView>, upto: int)
    requires
        0 <= upto,
        identities_of(blocks, upto) is Ok,
    ensures
        identities_of(blocks, upto)->Ok_0.len() == upto,
        forall|i: int|
            0 <= i < upto ==> identity_of(#[trigger] blocks[i]) == Ok::<Seq<char>, StructureError>(
                identities_of(blocks, upto)->Ok_0[i],
            ),
    decreases upto,
{
    if upto > 0 {
        lemma_identities_len(blocks, upto - 1);
    }
}

/// The identity made of a block name and a variant suffix.
pub fn block_identity(name: &str, suffix: &str) -> (r: String)
    ensures
        r@ == name@ + suffix@,
{
    joined(name, suffix)
}

/// Whether a result is the identity of a palette entry.
pub open spec fn is_identity_of(r: Result<String, StructureError>, block: BlockView) -> bool {
    &&& match r {
        Ok(id) => identity_of(block) == Ok::<Seq<char>, StructureError>(id@),
        Err(e) => identity_of(block) == Err::<Seq<char>, StructureError>(e),
    }
    &&& plain_variant(block.states) matches Some(text) ==> (r matches Ok(id) && id@ == block.name
        + (":"@ + text))
}

/// The identity of a palette entry: its name, and behind a colon the
/// rendered value of its variant state, where it has one. A plain string is
/// rendered as it is.
pub fn identity(block: &BlockPaletteItems) -> (r: Result<String, StructureError>)
    ensures
        is_identity_of(r, block@),
{
    match block.get_attribute() {
        Ok(suffix) => Ok(block_identity(block.name.as_str(), suffix.as_str())),
        Err(e) => Err(e),
    }
}

/// The identities of a palette, slot for slot.
pub fn identities(palette: &Vec<BlockPaletteItems>) -> (r: Result<Vec<String>, StructureError>)
    ensures
        match r {
            Ok(ids) => identities_of(blocks_view(palette@), palette@.len() as int)
                == Ok::<Seq<Seq<char>>, StructureError>(texts_view(ids@)),
            Err(e) => identities_of(blocks_view(palette@), palette@.len() as int)
                == Err::<Seq<Seq<char>>, StructureError>(e),
        },
{
    let ghost blocks = blocks_view(palette@);
    let mut out: Vec<String> = Vec::new();
    let mut i: usize = 0;
    assert(texts_view(out@) =~= Seq::<Seq<char>>::empty());
    while i < palette.len()
        invariant
            i <= palette.len(),
            blocks == blocks_view(palette@),
            identities_of(blocks, i as int) == Ok::<Seq<Seq<char>>, StructureError>(
                texts_view(out@),
            ),
        decreases palette.len() - i,
    {
        let ghost before = out@;
        assert(blocks[i as int] == palette@[i as int]@);
        match identity(&palette[i]) {
            Ok(id) => {
                out.push(id);
                assert(texts_view(out@) =~= texts_view(before).push(id@));
            },
            Err(e) => {
                proof {
                    lemma_identities_fail(blocks, i as int + 1, palette@.len() as int);
                }
                return Err(e);
            },
        }
        i += 1;
    }
    Ok(out)
}

/// Counts the grid against the palette: one block per slot, with the slot's
/// identity and the number of grid entries that refer to the slot. A grid
/// entry that is no slot of the palette is an error.
pub fn tally_slots(ids: &Vec<String>, grid: &Vec<i32>) -> (r: Result<Vec<McBlock>, StructureError>)
    ensures
        match r {
            Ok(blocks) => in_range(grid@, ids@.len()) && entries_view(blocks@) == slot_entries(
                texts_view(ids@),
                grid@,
            ),
            Err(e) => !in_range(grid@, ids@.len()) && e == StructureError::IndexOutOfRange,
        },
{
    let slots = ids.len();
    let mut counts: Vec<u64> = Vec::new();
    let mut i: usize = 0;
    while i < slots
        invariant
            i <= slots,
            counts@.len() == i,
            forall|j: int| 0 <= j < i ==> counts@[j] == 0,
        decreases slots - i,
    {
        counts.push(0);
        i += 1;
    }
    let mut k: usize = 0;
    while k < grid.len()
        invariant
            k <= grid.len(),
            slots == ids@.len(),
            counts@.len() == slots,
            in_range(grid@.take(k as int), slots as nat),
            forall|j: int| 0 <= j < slots ==> counts@[j] == occurrences(grid@.take(k as int), j),
        decreases grid.len() - k,
    {
        let entry: i32 = grid[k];
        if entry < 0 || entry as usize >= slots {
            assert(!(0 <= grid@[k as int] < slots));
            return Err(StructureError::IndexOutOfRange);
        }
        let slot: usize = entry as usize;
        proof {
            lemma_occurrences_bound(grid@.take(k as int), slot as int);
            assert(grid@.take(k as int + 1).drop_last() =~= grid@.take(k as int));
        }
        counts.set(slot, counts[slot] + 1);
        assert(in_range(grid@.take(k as int + 1), slots as nat)) by {
            assert forall|j: int| 0 <= j < k + 1 implies 0 <= #[trigger] grid@.take(k as int + 1)[j]
                < slots by {
                if j < k {
                    assert(grid@.take(k as int)[j] == grid@[j]);
                }
            }
        }
        k += 1;
    }
    assert(grid@.take(k as int) =~= grid@);
    let mut blocks: Vec<McBlock> = Vec::new();
    let mut s: usize = 0;
    while s < slots
        invariant
            s <= slots,
            slots == ids@.len(),
            counts@.len() == slots,
            blocks@.len() == s,
            forall|j: int|
                0 <= j < s ==> (#[trigger] blocks@[j])@ == (
                    ids@[j]@,
                    counts@[j] as nat,
                ),
        decreases slots - s,
    {
        blocks.push(McBlock { name: ids[s].clone(), count: counts[s] });
        s += 1;
    }
    assert(entries_view(blocks@) =~= slot_entries(texts_view(ids@), grid@));
    Ok(blocks)
}

/// The place of the first block of the given name.
pub fn find_block(blocks: &Vec<McBlock>, name: &str) -> (r: Option<usize>)
    ensures
        match r {
            Some(i) => position(entries_view(blocks@), name@) == Some(i as int),
            None => position(entries_view(blocks@), name@) is None,
        },
{
    let mut i: usize = 0;
    proof {
        lemma_position(entries_view(blocks@), name@);
    }
    while i < blocks.len()
        invariant
            i <= blocks.len(),
            forall|j: int| 0 <= j < i ==> (#[trigger] entries_view(blocks@)[j]).0 != name@,
        decreases blocks.len() - i,
    {
        assert(entries_view(blocks@)[i as int] == blocks@[i as int]@);
        if same_text(blocks[i].name.as_str(), name) {
            proof {
                lemma_position(entries_view(blocks@), name@);
            }
            return Some(i);
        }
        i += 1;
    }
    proof {
        lemma_position(entries_view(blocks@), name@);
    }
    None
}

/// Merges the blocks of equal name: each name once, in the order of first
/// occurrence, with the sum of the counts that stood under it.
pub fn merge_counts(blocks: &Vec<McBlock>) -> (r: Vec<McBlock>)
    requires
        total(entries_view(blocks@)) <= u64::MAX,
    ensures
        entries_view(r@) == merged(entries_view(blocks@)),
{
    let ghost all = entries_view(blocks@);
    let mut out: Vec<McBlock> = Vec::new();
    let mut i: usize = 0;
    assert(all.take(0) =~= Seq::<Entry>::empty());
    assert(entries_view(out@) =~= Seq::<Entry>::empty());
    while i < blocks.len()
        invariant
            i <= blocks.len(),
            all == entries_view(blocks@),
            total(all) <= u64::MAX,
            entries_view(out@) == merged(all.take(i as int)),
        decreases blocks.len() - i,
    {
        let ghost before = entries_view(out@);
        let ghost entry = all[i as int];
        proof {
            assert(all.take(i as int + 1).drop_last() =~= all.take(i as int));
            assert(all.take(i as int + 1).last() == entry);
            assert(merged(all.take(i as int + 1)) == absorbed(before, entry));
            assert(entry == blocks@[i as int]@);
            lemma_merged_total(all.take(i as int));
            lemma_total_prefix(all, i as int + 1);
            lemma_position(before, entry.0);
        }
        match find_block(&out, blocks[i].name.as_str()) {
            Some(j) => {
                proof {
                    lemma_total_holds(before, j as int);
                    assert(before[j as int] == out@[j as int]@);
                }
                let sum: u64 = out[j].count + blocks[i].count;
                out.set(j, McBlock { name: blocks[i].name.clone(), count: sum });
                assert(entries_view(out@) =~= absorbed(before, entry));
            },
            None => {
                out.push(McBlock { name: blocks[i].name.clone(), count: blocks[i].count });
                assert(entries_view(out@) =~= absorbed(before, entry));
            },
        }
        i += 1;
    }
    assert(all.take(i as int) =~= all);
    out
}

/// The raw counts of a grid against a palette: each identity once, in the
/// order of the palette, with the number of grid entries that refer to a
/// slot of that identity.
pub open spec fn raw_counts_of(ids: Seq<Seq<char>>, grid: Seq<i32>) -> Seq<Entry> {
    merged(slot_entries(ids, grid))
}

/// Counts a grid against the identities of a palette. Slots of equal
/// identity are counted together; an identity that no grid entry refers to
/// is there with count zero. A grid entry that is no slot of the palette is
/// an error, and nothing is counted.
pub fn aggregate(ids: &Vec<String>, grid: &Vec<i32>) -> (r: Result<Vec<McBlock>, StructureError>)
    ensures
        match r {
            Ok(raw) => in_range(grid@, ids@.len()) && entries_view(raw@) == raw_counts_of(
                texts_view(ids@),
                grid@,
            ) && total(entries_view(raw@)) == grid@.len(),
            Err(e) => !in_range(grid@, ids@.len()) && e == StructureError::IndexOutOfRange,
        },
{
    let cells: usize = grid.len();
    match tally_slots(ids, grid) {
        Ok(blocks) => {
            proof {
                assert(grid@.len() == cells);
                assert(texts_view(ids@).len() == ids@.len());
                lemma_slot_total(texts_view(ids@), grid@);
                lemma_merged_total(entries_view(blocks@));
            }
            Ok(merge_counts(&blocks))
        },
        Err(e) => Err(e),
    }
}

} // verus!
