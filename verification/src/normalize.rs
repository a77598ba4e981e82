//! From raw counts to the materials list: placeholder blocks are removed,
//! identities are replaced by display names, and equal names are merged.

use vstd::prelude::*;
use crate::aggregate::{entries_view, merge_counts, McBlock};
use crate::counts::{
    kept, lemma_kept_selected, lemma_relabelled_selected, lemma_selected_wider,
    lemma_total_selected, merged, relabelled, total, Entry,
};
use crate::names::{display_name, NameMap};
use crate::text::same_text;

verus! {

/// Whether an identity is that of a block that is no material: air, the
/// collision volumes of pistons, and the structure and command blocks.
pub open spec fn is_placeholder(id: Seq<char>) -> bool {
    ||| id == "minecraft:air"@
    ||| id == "minecraft:stickyPistonArmCollision"@
    ||| id == "minecraft:pistonArmCollision"@
    ||| id == "minecraft:structure_block"@
    ||| id == "minecraft:command_block"@
    ||| id == "minecraft:repeating_command_block"@
    ||| id == "minecraft:chain_command_block"@
}

/// The entries whose label is no placeholder, in their order.
pub open spec fn without_placeholders(entries: Seq<Entry>) -> Seq<Entry>
    decreases entries.len(),
{
    if entries.len() == 0 {
        Seq::empty()
    } else if is_placeholder(entries.last().0) {
        without_placeholders(entries.drop_last())
    } else {
        without_placeholders(entries.drop_last()).push(entries.last())
    }
}

/// The entries with each identity replaced by its display name.
pub open spec fn displayed(entries: Seq<Entry>, names: Map<Seq<char>, Seq<char>>) -> Seq<Entry> {
    Seq::new(entries.len(), |i: int| (display_name(names, entries[i].0), entries[i].1))
}

/// The materials list of raw counts: without the placeholders, under display
/// names, each name once with the sum of the counts that map to it.
pub open spec fn normalized(raw: Seq<Entry>, names: Map<Seq<char>, Seq<char>>) -> Seq<Entry> {
    merged(displayed(without_placeholders(raw), names))
}

/// Removal of the placeholders is the keeping of every other label.
pub proof fn lemma_without_placeholders_kept(
    entries: Seq<Entry>,
    keep: spec_fn(Seq<char>) -> bool,
)
    requires
        forall|l: Seq<char>| #[trigger] keep(l) == !is_placeholder(l),
    ensures
        without_placeholders(entries) == kept(entries, keep),
    decreases entries.len(),
{
    if entries.len() > 0 {
        lemma_without_placeholders_kept(entries.drop_last(), keep);
    }
}

/// The display of entries is their relabelling by the display name.
pub proof fn lemma_displayed_relabelled(
    entries: Seq<Entry>,
    names: Map<Seq<char>, Seq<char>>,
    rename: spec_fn(Seq<char>) -> Seq<char>,
)
    requires
        forall|l: Seq<char>| #[trigger] rename(l) == display_name(names, l),
    ensures
        displayed(entries, names) == relabelled(entries, rename),
{
    assert(displayed(entries, names) =~= relabelled(entries, rename));
}

/// What is left after the placeholders are removed and the names replaced
/// adds up to no more than what was there.
pub proof fn lemma_displayed_total(entries: Seq<Entry>, names: Map<Seq<char>, Seq<char>>)
    ensures
        total(displayed(without_placeholders(entries), names)) <= total(entries),
{
    let all = |l: Seq<char>| true;
    let keep = |l: Seq<char>| !is_placeholder(l);
    let rename = |l: Seq<char>| display_name(names, l);
    let survivors = without_placeholders(entries);
    lemma_without_placeholders_kept(entries, keep);
    lemma_displayed_relabelled(survivors, names, rename);
    lemma_relabelled_selected(survivors, rename, all, all);
    lemma_kept_selected(entries, keep, all, keep);
    lemma_selected_wider(entries, keep, all);
    lemma_total_selected(entries, all);
    lemma_total_selected(survivors, all);
    lemma_total_selected(displayed(survivors, names), all);
}

/// Whether a name is that of a placeholder block.
pub fn is_placeholder_name(name: &str) -> (r: bool)
    ensures
        r == is_placeholder(name@),
{
    same_text(name, "minecraft:air") || same_text(name, "minecraft:stickyPistonArmCollision")
        || same_text(name, "minecraft:pistonArmCollision") || same_text(
        name,
        "minecraft:structure_block",
    ) || same_text(name, "minecraft:command_block") || same_text(
        name,
        "minecraft:repeating_command_block",
    ) || same_text(name, "minecraft:chain_command_block")
}

/// The blocks that are no placeholders, in their order.
pub fn remove_placeholders(blocks: &Vec<McBlock>) -> (r: Vec<McBlock>)
    ensures
        entries_view(r@) == without_placeholders(entries_view(blocks@)),
{
    let ghost all = entries_view(blocks@);
    let mut out: Vec<McBlock> = Vec::new();
    let mut i: usize = 0;
    assert(all.take(0) =~= Seq::<Entry>::empty());
    assert(entries_view(out@) =~= Seq::<Entry>::empty());
    while i < blocks.len()
        invariant
            i <= blocks.len(),
            all == entries_view(blocks@),
            entries_view(out@) == without_placeholders(all.take(i as int)),
        decreases blocks.len() - i,
    {
        let ghost before = entries_view(out@);
        proof {
            assert(all.take(i as int + 1).drop_last() =~= all.take(i as int));
            assert(all.take(i as int + 1).last() == blocks@[i as int]@);
        }
        if !is_placeholder_name(blocks[i].name.as_str()) {
            out.push(McBlock { name: blocks[i].name.clone(), count: blocks[i].count });
            assert(entries_view(out@) =~= before.push(blocks@[i as int]@));
        }
        i += 1;
    }
    assert(all.take(i as int) =~= all);
    out
}

/// The blocks under their display names.
pub fn rename_blocks(blocks: &Vec<McBlock>, names: &NameMap) -> (r: Vec<McBlock>)
    ensures
        entries_view(r@) == displayed(entries_view(blocks@), names@),
{
    let mut out: Vec<McBlock> = Vec::new();
    let mut i: usize = 0;
    while i < blocks.len()
        invariant
            i <= blocks.len(),
            out@.len() == i,
            forall|j: int|
                0 <= j < i ==> (#[trigger] out@[j])@ == (
                    display_name(names@, blocks@[j].name@),
                    blocks@[j].count as nat,
                ),
        decreases blocks.len() - i,
    {
        out.push(
            McBlock { name: names.display_name(blocks[i].name.as_str()), count: blocks[i].count },
        );
        i += 1;
    }
    assert(entries_view(out@) =~= displayed(entries_view(blocks@), names@));
    out
}

/// The materials list of raw counts under a name table.
pub fn normalize(raw: &Vec<McBlock>, names: &NameMap) -> (r: Vec<McBlock>)
    requires
        total(entries_view(raw@)) <= u64::MAX,
    ensures
        entries_view(r@) == normalized(entries_view(raw@), names@),
{
    let survivors = remove_placeholders(raw);
    let renamed = rename_blocks(&survivors, names);
    proof {
        lemma_displayed_total(entries_view(raw@), names@);
    }
    merge_counts(&renamed)
}

} // verus!
