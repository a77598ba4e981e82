//! The arithmetic of labelled counts: totals over a selection of labels,
//! merging of equal labels, and the counts that a voxel grid gives.

use vstd::prelude::*;

verus! {

/// A label and the count that goes with it.
pub type Entry = (Seq<char>, nat);

/// The sum of the counts of those entries whose label `pick` selects.
pub open spec fn selected_total(entries: Seq<Entry>, pick: spec_fn(Seq<char>) -> bool) -> nat
    decreases entries.len(),
{
    if entries.len() == 0 {
        0
    } else {
        selected_total(entries.drop_last(), pick) + if pick(entries.last().0) {
            entries.last().1
        } else {
            0
        }
    }
}

/// The sum of all counts.
pub open spec fn total(entries: Seq<Entry>) -> nat
    decreases entries.len(),
{
    if entries.len() == 0 {
        0
    } else {
        total(entries.drop_last()) + entries.last().1
    }
}

/// The sum of the counts that stand under one label.
pub open spec fn weight(entries: Seq<Entry>, label: Seq<char>) -> nat
    decreases entries.len(),
{
    if entries.len() == 0 {
        0
    } else {
        weight(entries.drop_last(), label) + if entries.last().0 == label {
            entries.last().1
        } else {
            0
        }
    }
}

/// The place of the first entry with the given label.
pub open spec fn position(entries: Seq<Entry>, label: Seq<char>) -> Option<int>
    decreases entries.len(),
{
    if entries.len() == 0 {
        None
    } else {
        match position(entries.drop_last(), label) {
            Some(i) => Some(i),
            None => if entries.last().0 == label {
                Some(entries.len() - 1)
            } else {
                None
            },
        }
    }
}

/// Whether some entry has the given label.
pub open spec fn has_label(entries: Seq<Entry>, label: Seq<char>) -> bool {
    position(entries, label) is Some
}

/// Whether no label occurs twice.
pub open spec fn distinct_labels(entries: Seq<Entry>) -> bool {
    forall|i: int, j: int| 0 <= i < j < entries.len() ==> entries[i].0 != entries[j].0
}

/// One more entry taken into a merged list: its count is added to the entry
/// of the same label, or it is appended where there is none.
pub open spec fn absorbed(merged: Seq<Entry>, entry: Entry) -> Seq<Entry> {
    match position(merged, entry.0) {
        Some(i) => merged.update(i, (entry.0, merged[i].1 + entry.1)),
        None => merged.push(entry),
    }
}

/// The entries with equal labels merged: each label once, in the order of
/// first occurrence, with the sum of the counts that stood under it.
pub open spec fn merged(entries: Seq<Entry>) -> Seq<Entry>
    decreases entries.len(),
{
    if entries.len() == 0 {
        Seq::empty()
    } else {
        absorbed(merged(entries.drop_last()), entries.last())
    }
}

/// The entries whose label `keep` accepts, in their order.
pub open spec fn kept(entries: Seq<Entry>, keep: spec_fn(Seq<char>) -> bool) -> Seq<Entry>
    decreases entries.len(),
{
    if entries.len() == 0 {
        Seq::empty()
    } else if keep(entries.last().0) {
        kept(entries.drop_last(), keep).push(entries.last())
    } else {
        kept(entries.drop_last(), keep)
    }
}

/// The entries with each label replaced by what `rename` makes of it.
pub open spec fn relabelled(entries: Seq<Entry>, rename: spec_fn(Seq<char>) -> Seq<char>) -> Seq<
    Entry,
> {
    Seq::new(entries.len(), |i: int| (rename(entries[i].0), entries[i].1))
}

/// How often a palette slot occurs in a grid.
pub open spec fn occurrences(grid: Seq<i32>, slot: int) -> nat
    decreases grid.len(),
{
    if grid.len() == 0 {
        0
    } else {
        occurrences(grid.drop_last(), slot) + if grid.last() == slot {
            1nat
        } else {
            0nat
        }
    }
}

/// Whether every entry of a grid is a slot of a palette with `slots` entries.
pub open spec fn in_range(grid: Seq<i32>, slots: nat) -> bool {
    forall|k: int| 0 <= k < grid.len() ==> 0 <= #[trigger] grid[k] < slots
}

/// One entry per palette slot: the slot's identity and how often the grid
/// refers to the slot.
pub open spec fn slot_entries(ids: Seq<Seq<char>>, grid: Seq<i32>) -> Seq<Entry> {
    Seq::new(ids.len(), |i: int| (ids[i], occurrences(grid, i)))
}

/// How many entries of a grid refer to a slot whose identity `pick` selects.
pub open spec fn hits(ids: Seq<Seq<char>>, grid: Seq<i32>, pick: spec_fn(Seq<char>) -> bool) -> nat
    decreases grid.len(),
{
    if grid.len() == 0 {
        0
    } else {
        hits(ids, grid.drop_last(), pick) + if pick(ids[grid.last() as int]) {
            1nat
        } else {
            0nat
        }
    }
}

/// The total is the total of the selection that takes every label.
pub proof fn lemma_total_selected(entries: Seq<Entry>, pick: spec_fn(Seq<char>) -> bool)
    requires
        forall|l: Seq<char>| #[trigger] pick(l),
    ensures
        selected_total(entries, pick) == total(entries),
    decreases entries.len(),
{
    if entries.len() > 0 {
        lemma_total_selected(entries.drop_last(), pick);
    }
}

/// The weight of a label is the total of the selection that takes it alone.
pub proof fn lemma_weight_selected(
    entries: Seq<Entry>,
    label: Seq<char>,
    pick: spec_fn(Seq<char>) -> bool,
)
    requires
        forall|l: Seq<char>| #[trigger] pick(l) == (l == label),
    ensures
        selected_total(entries, pick) == weight(entries, label),
    decreases entries.len(),
{
    if entries.len() > 0 {
        lemma_weight_selected(entries.drop_last(), label, pick);
    }
}

/// Each count is part of the total.
pub proof fn lemma_total_holds(entries: Seq<Entry>, at: int)
    requires
        0 <= at < entries.len(),
    ensures
        entries[at].1 <= total(entries),
    decreases entries.len(),
{
    if at < entries.len() - 1 {
        lemma_total_holds(entries.drop_last(), at);
    }
}

/// The total of a prefix is no more than the total of the whole.
pub proof fn lemma_total_prefix(entries: Seq<Entry>, upto: int)
    requires
        0 <= upto <= entries.len(),
    ensures
        total(entries.take(upto)) <= total(entries),
    decreases entries.len(),
{
    if upto == entries.len() {
        assert(entries.take(upto) =~= entries);
    } else {
        assert(entries.drop_last().take(upto) =~= entries.take(upto));
        lemma_total_prefix(entries.drop_last(), upto);
    }
}

/// A slot occurs in a grid no more often than the grid has entries.
pub proof fn lemma_occurrences_bound(grid: Seq<i32>, slot: int)
    ensures
        occurrences(grid, slot) <= grid.len(),
    decreases grid.len(),
{
    if grid.len() > 0 {
        lemma_occurrences_bound(grid.drop_last(), slot);
    }
}

/// The counts of all slots add up to the number of grid entries.
pub proof fn lemma_slot_total(ids: Seq<Seq<char>>, grid: Seq<i32>)
    requires
        in_range(grid, ids.len()),
    ensures
        total(slot_entries(ids, grid)) == grid.len(),
{
    let pick = |l: Seq<char>| true;
    lemma_slot_hits(ids, grid, pick);
    lemma_hits_all(ids, grid, pick);
    lemma_total_selected(slot_entries(ids, grid), pick);
}

/// A selection that takes no label present gives zero.
pub proof fn lemma_selected_none(entries: Seq<Entry>, pick: spec_fn(Seq<char>) -> bool)
    requires
        forall|i: int| 0 <= i < entries.len() ==> !pick(#[trigger] entries[i].0) || entries[i].1 == 0,
    ensures
        selected_total(entries, pick) == 0,
    decreases entries.len(),
{
    if entries.len() > 0 {
        assert(!pick(entries[entries.len() - 1].0) || entries[entries.len() - 1].1 == 0);
        lemma_selected_none(entries.drop_last(), pick);
    }
}

/// A wider selection gives no smaller a total.
pub proof fn lemma_selected_wider(
    entries: Seq<Entry>,
    narrow: spec_fn(Seq<char>) -> bool,
    wide: spec_fn(Seq<char>) -> bool,
)
    requires
        forall|l: Seq<char>| #[trigger] narrow(l) ==> wide(l),
    ensures
        selected_total(entries, narrow) <= selected_total(entries, wide),
    decreases entries.len(),
{
    if entries.len() > 0 {
        lemma_selected_wider(entries.drop_last(), narrow, wide);
    }
}

/// Replacing one entry moves the total by the difference of the two.
pub proof fn lemma_selected_update(
    entries: Seq<Entry>,
    at: int,
    entry: Entry,
    pick: spec_fn(Seq<char>) -> bool,
)
    requires
        0 <= at < entries.len(),
    ensures
        selected_total(entries.update(at, entry), pick) + (if pick(entries[at].0) {
            entries[at].1
        } else {
            0
        }) == selected_total(entries, pick) + (if pick(entry.0) {
            entry.1
        } else {
            0
        }),
    decreases entries.len(),
{
    let updated = entries.update(at, entry);
    if at == entries.len() - 1 {
        assert(updated.drop_last() =~= entries.drop_last());
    } else {
        assert(updated.drop_last() =~= entries.drop_last().update(at, entry));
        lemma_selected_update(entries.drop_last(), at, entry, pick);
    }
}

/// What `position` finds is the first entry of the label, and it finds one
/// wherever there is one.
pub proof fn lemma_position(entries: Seq<Entry>, label: Seq<char>)
    ensures
        match position(entries, label) {
            Some(i) => 0 <= i < entries.len() && entries[i].0 == label && forall|j: int|
                0 <= j < i ==> (#[trigger] entries[j]).0 != label,
            None => forall|j: int| 0 <= j < entries.len() ==> (#[trigger] entries[j]).0 != label,
        },
    decreases entries.len(),
{
    if entries.len() > 0 {
        lemma_position(entries.drop_last(), label);
        match position(entries.drop_last(), label) {
            Some(i) => {
                assert(entries.drop_last()[i] == entries[i]);
                assert forall|j: int| 0 <= j < i implies (#[trigger] entries[j]).0 != label by {
                    assert(entries.drop_last()[j] == entries[j]);
                }
            },
            None => {
                assert forall|j: int| 0 <= j < entries.len() - 1 implies (#[trigger] entries[j]).0
                    != label by {
                    assert(entries.drop_last()[j] == entries[j]);
                }
            },
        }
    }
}

/// Taking an entry in adds its count to every selection that takes its label.
pub proof fn lemma_absorbed_selected(
    merged: Seq<Entry>,
    entry: Entry,
    pick: spec_fn(Seq<char>) -> bool,
)
    ensures
        selected_total(absorbed(merged, entry), pick) == selected_total(merged, pick) + (if pick(
            entry.0,
        ) {
            entry.1
        } else {
            0
        }),
{
    lemma_position(merged, entry.0);
    match position(merged, entry.0) {
        Some(i) => {
            lemma_selected_update(merged, i, (entry.0, merged[i].1 + entry.1), pick);
        },
        None => {
            assert(merged.push(entry).drop_last() =~= merged);
        },
    }
}

/// Taking an entry in keeps the labels distinct and adds its label to them.
pub proof fn lemma_absorbed_labels(merged: Seq<Entry>, entry: Entry)
    requires
        distinct_labels(merged),
    ensures
        distinct_labels(absorbed(merged, entry)),
        forall|l: Seq<char>|
            has_label(absorbed(merged, entry), l) == (has_label(merged, l) || l == entry.0),
{
    lemma_position(merged, entry.0);
    let after = absorbed(merged, entry);
    assert forall|l: Seq<char>| has_label(after, l) == (has_label(merged, l) || l == entry.0) by {
        lemma_position(merged, l);
        lemma_position(after, l);
        match position(merged, entry.0) {
            Some(i) => {
                if has_label(merged, l) {
                    let k = position(merged, l).unwrap();
                    assert(after[k].0 == l);
                } else if l == entry.0 {
                    assert(after[i].0 == l);
                } else if has_label(after, l) {
                    let k = position(after, l).unwrap();
                    assert(merged[k].0 == l);
                }
            },
            None => {
                if has_label(merged, l) {
                    let k = position(merged, l).unwrap();
                    assert(after[k].0 == l);
                } else if l == entry.0 {
                    assert(after[merged.len() as int].0 == l);
                } else if has_label(after, l) {
                    let k = position(after, l).unwrap();
                    if k < merged.len() {
                        assert(merged[k].0 == l);
                    }
                }
            },
        }
    }
}

/// Merging keeps the total of every selection.
pub proof fn lemma_merged_selected(entries: Seq<Entry>, pick: spec_fn(Seq<char>) -> bool)
    ensures
        selected_total(merged(entries), pick) == selected_total(entries, pick),
    decreases entries.len(),
{
    if entries.len() > 0 {
        lemma_merged_selected(entries.drop_last(), pick);
        lemma_absorbed_selected(merged(entries.drop_last()), entries.last(), pick);
    }
}

/// A merged list holds each label of the list it was made from, once.
pub proof fn lemma_merged_labels(entries: Seq<Entry>)
    ensures
        distinct_labels(merged(entries)),
        forall|l: Seq<char>| has_label(merged(entries), l) == has_label(entries, l),
    decreases entries.len(),
{
    if entries.len() > 0 {
        let rest = entries.drop_last();
        lemma_merged_labels(rest);
        lemma_absorbed_labels(merged(rest), entries.last());
        assert forall|l: Seq<char>| has_label(merged(entries), l) == has_label(entries, l) by {
            assert(has_label(merged(entries), l) == (has_label(merged(rest), l) || l
                == entries.last().0));
            assert(has_label(merged(rest), l) == has_label(rest, l));
            assert(has_label(entries, l) == (position(rest, l) is Some || entries.last().0 == l));
        }
    }
}

/// Where no label occurs twice, the weight of a label is the count of its
/// one entry.
pub proof fn lemma_distinct_weight(entries: Seq<Entry>, at: int)
    requires
        distinct_labels(entries),
        0 <= at < entries.len(),
    ensures
        weight(entries, entries[at].0) == entries[at].1,
    decreases entries.len(),
{
    let label = entries[at].0;
    let rest = entries.drop_last();
    if at == entries.len() - 1 {
        let pick = |l: Seq<char>| l == label;
        assert forall|i: int| 0 <= i < rest.len() implies !pick(#[trigger] rest[i].0) || rest[i].1
            == 0 by {
            assert(rest[i] == entries[i]);
        }
        lemma_selected_none(rest, pick);
        lemma_weight_selected(rest, label, pick);
    } else {
        assert(rest[at] == entries[at]);
        assert(distinct_labels(rest)) by {
            assert forall|i: int, j: int| 0 <= i < j < rest.len() implies rest[i].0 != rest[j].0 by {
                assert(rest[i] == entries[i] && rest[j] == entries[j]);
            }
        }
        lemma_distinct_weight(rest, at);
        assert(entries.last().0 != label);
    }
}

/// In a merged list each count is the sum of the counts that stood under its
/// label.
pub proof fn lemma_merged_weight(entries: Seq<Entry>, at: int)
    requires
        0 <= at < merged(entries).len(),
    ensures
        merged(entries)[at].1 == weight(entries, merged(entries)[at].0),
{
    let label = merged(entries)[at].0;
    let pick = |l: Seq<char>| l == label;
    lemma_merged_labels(entries);
    lemma_distinct_weight(merged(entries), at);
    lemma_merged_selected(entries, pick);
    lemma_weight_selected(entries, label, pick);
    lemma_weight_selected(merged(entries), label, pick);
}

/// Merging keeps the total.
pub proof fn lemma_merged_total(entries: Seq<Entry>)
    ensures
        total(merged(entries)) == total(entries),
{
    let pick = |l: Seq<char>| true;
    lemma_merged_selected(entries, pick);
    lemma_total_selected(entries, pick);
    lemma_total_selected(merged(entries), pick);
}

/// Dropping entries leaves, of every selection, what the kept labels hold.
pub proof fn lemma_kept_selected(
    entries: Seq<Entry>,
    keep: spec_fn(Seq<char>) -> bool,
    pick: spec_fn(Seq<char>) -> bool,
    both: spec_fn(Seq<char>) -> bool,
)
    requires
        forall|l: Seq<char>| #[trigger] both(l) == (keep(l) && pick(l)),
    ensures
        selected_total(kept(entries, keep), pick) == selected_total(entries, both),
    decreases entries.len(),
{
    if entries.len() > 0 {
        lemma_kept_selected(entries.drop_last(), keep, pick, both);
        if keep(entries.last().0) {
            assert(kept(entries.drop_last(), keep).push(entries.last()).drop_last() =~= kept(
                entries.drop_last(),
                keep,
            ));
        }
    }
}

/// A selection of new labels is the selection of the old labels that are
/// renamed into it.
pub proof fn lemma_relabelled_selected(
    entries: Seq<Entry>,
    rename: spec_fn(Seq<char>) -> Seq<char>,
    pick: spec_fn(Seq<char>) -> bool,
    renamed: spec_fn(Seq<char>) -> bool,
)
    requires
        forall|l: Seq<char>| #[trigger] renamed(l) == pick(rename(l)),
    ensures
        selected_total(relabelled(entries, rename), pick) == selected_total(entries, renamed),
    decreases entries.len(),
{
    if entries.len() > 0 {
        assert(relabelled(entries, rename).drop_last() =~= relabelled(entries.drop_last(), rename));
        lemma_relabelled_selected(entries.drop_last(), rename, pick, renamed);
    }
}

/// One more grid entry adds one occurrence to its slot.
pub proof fn lemma_slot_entries_step(ids: Seq<Seq<char>>, grid: Seq<i32>)
    requires
        grid.len() > 0,
        0 <= grid.last() < ids.len(),
    ensures
        slot_entries(ids, grid) == slot_entries(ids, grid.drop_last()).update(
            grid.last() as int,
            (ids[grid.last() as int], occurrences(grid.drop_last(), grid.last() as int) + 1),
        ),
{
    assert(slot_entries(ids, grid) =~= slot_entries(ids, grid.drop_last()).update(
        grid.last() as int,
        (ids[grid.last() as int], occurrences(grid.drop_last(), grid.last() as int) + 1),
    ));
}

/// The counts of the slots whose identity is selected add up to the number
/// of grid entries that refer to such a slot.
pub proof fn lemma_slot_hits(ids: Seq<Seq<char>>, grid: Seq<i32>, pick: spec_fn(Seq<char>) -> bool)
    requires
        in_range(grid, ids.len()),
    ensures
        selected_total(slot_entries(ids, grid), pick) == hits(ids, grid, pick),
    decreases grid.len(),
{
    if grid.len() == 0 {
        lemma_selected_none(slot_entries(ids, grid), pick);
    } else {
        let rest = grid.drop_last();
        let slot = grid.last() as int;
        assert(0 <= grid[grid.len() - 1] < ids.len());
        assert(in_range(rest, ids.len())) by {
            assert forall|k: int| 0 <= k < rest.len() implies 0 <= #[trigger] rest[k] < ids.len() by {
                assert(rest[k] == grid[k]);
            }
        }
        lemma_slot_hits(ids, rest, pick);
        lemma_slot_entries_step(ids, grid);
        lemma_selected_update(
            slot_entries(ids, rest),
            slot,
            (ids[slot], occurrences(rest, slot) + 1),
            pick,
        );
    }
}

/// Every grid entry is a hit of the selection that takes every identity.
pub proof fn lemma_hits_all(ids: Seq<Seq<char>>, grid: Seq<i32>, pick: spec_fn(Seq<char>) -> bool)
    requires
        forall|l: Seq<char>| #[trigger] pick(l),
    ensures
        hits(ids, grid, pick) == grid.len(),
    decreases grid.len(),
{
    if grid.len() > 0 {
        lemma_hits_all(ids, grid.drop_last(), pick);
    }
}

/// A selection splits the grid entries in two.
pub proof fn lemma_hits_split(
    ids: Seq<Seq<char>>,
    grid: Seq<i32>,
    pick: spec_fn(Seq<char>) -> bool,
    rest: spec_fn(Seq<char>) -> bool,
)
    requires
        forall|l: Seq<char>| #[trigger] rest(l) == !pick(l),
    ensures
        hits(ids, grid, pick) + hits(ids, grid, rest) == grid.len(),
    decreases grid.len(),
{
    if grid.len() > 0 {
        lemma_hits_split(ids, grid.drop_last(), pick, rest);
    }
}

} // verus!
