//! What holds of every materials list, proved from the definitions.

use vstd::prelude::*;
use crate::aggregate::{
    identities_of, identity_of, is_identity_of, lemma_identities_len, raw_counts_of,
};
use crate::blockgen::{generated_name, generated_pairs, generated_table};
use crate::counts::{
    distinct_labels, has_label, hits, in_range, lemma_hits_split, lemma_kept_selected,
    lemma_merged_labels, lemma_merged_selected, lemma_merged_total, lemma_merged_weight,
    lemma_position, lemma_relabelled_selected, lemma_slot_hits, lemma_total_selected,
    lemma_weight_selected, merged, position, selected_total, slot_entries, total, Entry,
};
use crate::error::StructureError;
use crate::materials::{
    is_report_of, materials_of, raw_materials, report_of, MaterialsReport,
};
use crate::names::{display_name, table_of};
use crate::rendering::string_table_of;
use crate::normalize::{
    displayed, is_placeholder, lemma_displayed_relabelled, lemma_without_placeholders_kept,
    normalized, without_placeholders,
};
use crate::project::projection;
use crate::schema::{find_state, plain_text, rendering, BlockView, McStructureView};
use crate::tag::TagView;

verus! {

/// How many entries of a grid refer to a slot of the given identity.
pub open spec fn identity_entries(ids: Seq<Seq<char>>, grid: Seq<i32>, id: Seq<char>) -> nat
    decreases grid.len(),
{
    if grid.len() == 0 {
        0
    } else {
        identity_entries(ids, grid.drop_last(), id) + if ids[grid.last() as int] == id {
            1nat
        } else {
            0nat
        }
    }
}

proof fn lemma_identity_hits(
    ids: Seq<Seq<char>>,
    grid: Seq<i32>,
    id: Seq<char>,
    pick: spec_fn(Seq<char>) -> bool,
)
    requires
        forall|l: Seq<char>| #[trigger] pick(l) == (l == id),
    ensures
        hits(ids, grid, pick) == identity_entries(ids, grid, id),
    decreases grid.len(),
{
    if grid.len() > 0 {
        lemma_identity_hits(ids, grid.drop_last(), id, pick);
    }
}

/// Each identity of the palette stands once in the raw counts, whether or
/// not the grid refers to it, and nothing else stands there.
pub proof fn law_raw_identities(ids: Seq<Seq<char>>, grid: Seq<i32>)
    ensures
        distinct_labels(raw_counts_of(ids, grid)),
        forall|id: Seq<char>| has_label(raw_counts_of(ids, grid), id) == #[trigger] ids.contains(id),
{
    let slots = slot_entries(ids, grid);
    lemma_merged_labels(slots);
    assert forall|id: Seq<char>| has_label(raw_counts_of(ids, grid), id) == #[trigger] ids.contains(
        id,
    ) by {
        lemma_position(slots, id);
        assert(has_label(merged(slots), id) == has_label(slots, id));
        if ids.contains(id) {
            let k = choose|k: int| 0 <= k < ids.len() && ids[k] == id;
            assert(slots[k].0 == id);
        }
        if has_label(slots, id) {
            let k = position(slots, id)->Some_0;
            assert(ids[k] == id);
        }
    }
}

/// The raw count of an identity is the number of grid entries that refer to
/// a slot of that identity: slots of one identity are counted together.
pub proof fn law_raw_count_is_entries(ids: Seq<Seq<char>>, grid: Seq<i32>, at: int)
    requires
        in_range(grid, ids.len()),
        0 <= at < raw_counts_of(ids, grid).len(),
    ensures
        raw_counts_of(ids, grid)[at].1 == identity_entries(
            ids,
            grid,
            raw_counts_of(ids, grid)[at].0,
        ),
{
    let slots = slot_entries(ids, grid);
    let id = merged(slots)[at].0;
    let pick = |l: Seq<char>| l == id;
    lemma_merged_weight(slots, at);
    lemma_weight_selected(slots, id, pick);
    lemma_slot_hits(ids, grid, pick);
    lemma_identity_hits(ids, grid, id, pick);
}

/// How many entries of a grid refer to a placeholder block.
pub open spec fn placeholder_entries(ids: Seq<Seq<char>>, grid: Seq<i32>) -> nat
    decreases grid.len(),
{
    if grid.len() == 0 {
        0
    } else {
        placeholder_entries(ids, grid.drop_last()) + if is_placeholder(ids[grid.last() as int]) {
            1nat
        } else {
            0nat
        }
    }
}

/// Whether an identity is a material that is shown under the given name.
pub open spec fn shown_as(names: Map<Seq<char>, Seq<char>>, id: Seq<char>, name: Seq<char>) -> bool {
    !is_placeholder(id) && display_name(names, id) == name
}

/// How many entries of a grid refer to a material shown under the given
/// name.
pub open spec fn shown_entries(
    ids: Seq<Seq<char>>,
    grid: Seq<i32>,
    names: Map<Seq<char>, Seq<char>>,
    name: Seq<char>,
) -> nat
    decreases grid.len(),
{
    if grid.len() == 0 {
        0
    } else {
        shown_entries(ids, grid.drop_last(), names, name) + if shown_as(
            names,
            ids[grid.last() as int],
            name,
        ) {
            1nat
        } else {
            0nat
        }
    }
}

/// The sum of the raw counts of the materials shown under the given name.
pub open spec fn shown_weight(raw: Seq<Entry>, names: Map<Seq<char>, Seq<char>>, name: Seq<char>)
    -> nat
    decreases raw.len(),
{
    if raw.len() == 0 {
        0
    } else {
        shown_weight(raw.drop_last(), names, name) + if shown_as(names, raw.last().0, name) {
            raw.last().1
        } else {
            0
        }
    }
}

/// Whether some raw entry is a material shown under the given name.
pub open spec fn shown(raw: Seq<Entry>, names: Map<Seq<char>, Seq<char>>, name: Seq<char>) -> bool {
    exists|i: int| 0 <= i < raw.len() && shown_as(names, #[trigger] raw[i].0, name)
}

proof fn lemma_placeholder_hits(
    ids: Seq<Seq<char>>,
    grid: Seq<i32>,
    pick: spec_fn(Seq<char>) -> bool,
)
    requires
        forall|l: Seq<char>| #[trigger] pick(l) == is_placeholder(l),
    ensures
        hits(ids, grid, pick) == placeholder_entries(ids, grid),
    decreases grid.len(),
{
    if grid.len() > 0 {
        lemma_placeholder_hits(ids, grid.drop_last(), pick);
    }
}

proof fn lemma_shown_hits(
    ids: Seq<Seq<char>>,
    grid: Seq<i32>,
    names: Map<Seq<char>, Seq<char>>,
    name: Seq<char>,
    pick: spec_fn(Seq<char>) -> bool,
)
    requires
        forall|l: Seq<char>| #[trigger] pick(l) == shown_as(names, l, name),
    ensures
        hits(ids, grid, pick) == shown_entries(ids, grid, names, name),
    decreases grid.len(),
{
    if grid.len() > 0 {
        lemma_shown_hits(ids, grid.drop_last(), names, name, pick);
    }
}

proof fn lemma_shown_weight_selected(
    raw: Seq<Entry>,
    names: Map<Seq<char>, Seq<char>>,
    name: Seq<char>,
    pick: spec_fn(Seq<char>) -> bool,
)
    requires
        forall|l: Seq<char>| #[trigger] pick(l) == shown_as(names, l, name),
    ensures
        selected_total(raw, pick) == shown_weight(raw, names, name),
    decreases raw.len(),
{
    if raw.len() > 0 {
        lemma_shown_weight_selected(raw.drop_last(), names, name, pick);
    }
}

/// What stands under a name after the placeholders are removed and the
/// names replaced is the raw counts of the materials shown under it.
proof fn lemma_displayed_weight(
    raw: Seq<Entry>,
    names: Map<Seq<char>, Seq<char>>,
    name: Seq<char>,
    pick: spec_fn(Seq<char>) -> bool,
)
    requires
        forall|l: Seq<char>| #[trigger] pick(l) == (l == name),
    ensures
        selected_total(displayed(without_placeholders(raw), names), pick) == shown_weight(
            raw,
            names,
            name,
        ),
{
    let keep = |l: Seq<char>| !is_placeholder(l);
    let rename = |l: Seq<char>| display_name(names, l);
    let renamed = |l: Seq<char>| display_name(names, l) == name;
    let both = |l: Seq<char>| shown_as(names, l, name);
    let survivors = without_placeholders(raw);
    lemma_without_placeholders_kept(raw, keep);
    lemma_displayed_relabelled(survivors, names, rename);
    lemma_relabelled_selected(survivors, rename, pick, renamed);
    lemma_kept_selected(raw, keep, renamed, both);
    lemma_shown_weight_selected(raw, names, name, both);
}

/// A name is in the list exactly where some material is shown under it.
proof fn lemma_displayed_labels(raw: Seq<Entry>, names: Map<Seq<char>, Seq<char>>, name: Seq<char>)
    ensures
        has_label(displayed(without_placeholders(raw), names), name) == shown(raw, names, name),
    decreases raw.len(),
{
    let list = displayed(without_placeholders(raw), names);
    if raw.len() == 0 {
        assert(!shown(raw, names, name));
    } else {
        let rest = raw.drop_last();
        let before = displayed(without_placeholders(rest), names);
        lemma_displayed_labels(rest, names, name);
        if is_placeholder(raw.last().0) {
            assert(list == before);
        } else {
            assert(list =~= before.push((display_name(names, raw.last().0), raw.last().1)));
            assert(list.drop_last() =~= before);
        }
        if shown(rest, names, name) {
            let i = choose|i: int| 0 <= i < rest.len() && shown_as(names, #[trigger] rest[i].0, name);
            assert(rest[i] == raw[i]);
            assert(shown_as(names, raw[i].0, name));
        }
        if shown(raw, names, name) && !shown_as(names, raw.last().0, name) {
            let i = choose|i: int| 0 <= i < raw.len() && shown_as(names, #[trigger] raw[i].0, name);
            assert(i < raw.len() - 1);
            assert(rest[i] == raw[i]);
            assert(shown_as(names, rest[i].0, name));
        }
        if shown_as(names, raw.last().0, name) {
            assert(shown_as(names, raw[raw.len() - 1].0, name));
        }
    }
}

/// Each display name stands once in a materials list, and a name stands in
/// it exactly where some raw identity is a material shown under it.
pub proof fn law_names_once(raw: Seq<Entry>, names: Map<Seq<char>, Seq<char>>)
    ensures
        distinct_labels(normalized(raw, names)),
        forall|name: Seq<char>|
            has_label(normalized(raw, names), name) == #[trigger] shown(raw, names, name),
{
    let list = displayed(without_placeholders(raw), names);
    lemma_merged_labels(list);
    assert forall|name: Seq<char>|
        has_label(normalized(raw, names), name) == #[trigger] shown(raw, names, name) by {
        lemma_displayed_labels(raw, names, name);
        assert(has_label(merged(list), name) == has_label(list, name));
    }
}

/// The count of a display name is the sum of the raw counts of all the
/// materials that are shown under it: counts of identities that share a
/// name are added, none replaces another.
pub proof fn law_merge_sums(raw: Seq<Entry>, names: Map<Seq<char>, Seq<char>>, at: int)
    requires
        0 <= at < normalized(raw, names).len(),
    ensures
        normalized(raw, names)[at].1 == shown_weight(raw, names, normalized(raw, names)[at].0),
{
    let list = displayed(without_placeholders(raw), names);
    let name = merged(list)[at].0;
    let pick = |l: Seq<char>| l == name;
    lemma_merged_weight(list, at);
    lemma_weight_selected(list, name, pick);
    lemma_displayed_weight(raw, names, name, pick);
}

/// Where exactly two raw identities are materials shown under one display
/// name, that name stands in the materials list with the sum of their two
/// counts.
pub proof fn law_two_identities_sum(
    raw: Seq<Entry>,
    names: Map<Seq<char>, Seq<char>>,
    name: Seq<char>,
    i: int,
    j: int,
)
    requires
        0 <= i < j < raw.len(),
        forall|k: int| 0 <= k < raw.len() ==> (shown_as(names, #[trigger] raw[k].0, name) <==> k == i || k == j),
    ensures
        position(normalized(raw, names), name) matches Some(at) && normalized(raw, names)[at]
            == (name, raw[i].1 + raw[j].1),
{
    let list = normalized(raw, names);
    law_names_once(raw, names);
    assert(shown_as(names, raw[i].0, name));
    assert(shown(raw, names, name));
    lemma_position(list, name);
    let at = position(list, name).unwrap();
    law_merge_sums(raw, names, at);
    lemma_shown_weight_among(raw, names, name, i, j, raw.len() as int);
    assert(raw.take(raw.len() as int) =~= raw);
}

/// The shown weight of a prefix, where only the entries at `i` and `j` are
/// shown under the name.
proof fn lemma_shown_weight_among(
    raw: Seq<Entry>,
    names: Map<Seq<char>, Seq<char>>,
    name: Seq<char>,
    i: int,
    j: int,
    upto: int,
)
    requires
        0 <= i < j < raw.len(),
        0 <= upto <= raw.len(),
        forall|k: int| 0 <= k < raw.len() ==> (shown_as(names, #[trigger] raw[k].0, name) <==> k == i || k == j),
    ensures
        shown_weight(raw.take(upto), names, name) == (if i < upto {
            raw[i].1
        } else {
            0
        }) + (if j < upto {
            raw[j].1
        } else {
            0
        }),
    decreases upto,
{
    if upto > 0 {
        lemma_shown_weight_among(raw, names, name, i, j, upto - 1);
        assert(raw.take(upto).drop_last() =~= raw.take(upto - 1));
        assert(raw.take(upto).last() == raw[upto - 1]);
        assert(shown_as(names, raw[upto - 1].0, name) <==> upto - 1 == i || upto - 1 == j);
    }
}

/// The counts of a materials list add up to the number of grid entries
/// that refer to no placeholder block.
pub proof fn law_total_is_material_entries(
    ids: Seq<Seq<char>>,
    grid: Seq<i32>,
    names: Map<Seq<char>, Seq<char>>,
)
    requires
        in_range(grid, ids.len()),
    ensures
        total(materials_of(ids, grid, names)) == grid.len() - placeholder_entries(ids, grid),
{
    let all = |l: Seq<char>| true;
    let keep = |l: Seq<char>| !is_placeholder(l);
    let drop = |l: Seq<char>| is_placeholder(l);
    let rename = |l: Seq<char>| display_name(names, l);
    let slots = slot_entries(ids, grid);
    let raw = raw_counts_of(ids, grid);
    let survivors = without_placeholders(raw);
    let list = displayed(survivors, names);
    lemma_merged_total(list);
    lemma_total_selected(list, all);
    lemma_displayed_relabelled(survivors, names, rename);
    lemma_relabelled_selected(survivors, rename, all, all);
    lemma_without_placeholders_kept(raw, keep);
    lemma_kept_selected(raw, keep, all, keep);
    lemma_merged_selected(slots, keep);
    lemma_slot_hits(ids, grid, keep);
    lemma_hits_split(ids, grid, drop, keep);
    lemma_placeholder_hits(ids, grid, drop);
}

/// The counts of the materials list of a report add up to the number of
/// entries of the structure's first grid, less those that refer to a
/// placeholder block.
pub proof fn law_report_counts_material_entries(tree: TagView, table: Seq<char>)
    requires
        report_of(tree, table) is Ok,
    ensures
        ({
            let doc = projection(tree)->Ok_0;
            let ids = identities_of(doc.block_palette, doc.block_palette.len() as int)->Ok_0;
            let grid = doc.block_indices[0];
            total(report_of(tree, table)->Ok_0.materials) == grid.len() - placeholder_entries(
                ids,
                grid,
            )
        }),
{
    let doc = projection(tree)->Ok_0;
    let ids = identities_of(doc.block_palette, doc.block_palette.len() as int)->Ok_0;
    let grid = doc.block_indices[0];
    let pairs = string_table_of(table)->Some_0;
    law_total_is_material_entries(ids, grid, table_of(pairs));
}

/// The count of a display name is the number of grid entries that refer to
/// a material shown under it.
pub proof fn law_count_is_shown_entries(
    ids: Seq<Seq<char>>,
    grid: Seq<i32>,
    names: Map<Seq<char>, Seq<char>>,
    at: int,
)
    requires
        in_range(grid, ids.len()),
        0 <= at < materials_of(ids, grid, names).len(),
    ensures
        materials_of(ids, grid, names)[at].1 == shown_entries(
            ids,
            grid,
            names,
            materials_of(ids, grid, names)[at].0,
        ),
{
    let name = materials_of(ids, grid, names)[at].0;
    let both = |l: Seq<char>| shown_as(names, l, name);
    let slots = slot_entries(ids, grid);
    law_merge_sums(raw_counts_of(ids, grid), names, at);
    lemma_shown_weight_selected(merged(slots), names, name, both);
    lemma_merged_selected(slots, both);
    lemma_slot_hits(ids, grid, both);
    lemma_shown_hits(ids, grid, names, name, both);
}

/// The same tree and the same name table give the same report: two results
/// for them agree in whether they fail, in the failure, and in the
/// dimensions and the materials list.
pub proof fn law_same_inputs_same_list(
    tree: TagView,
    table: Seq<char>,
    first: Result<MaterialsReport, StructureError>,
    second: Result<MaterialsReport, StructureError>,
)
    requires
        is_report_of(first, tree, table),
        is_report_of(second, tree, table),
    ensures
        match (first, second) {
            (Ok(a), Ok(b)) => a@ == b@,
            (Err(a), Err(b)) => a == b,
            _ => false,
        },
{
}

/// Two palette entries of one name whose `color` states are rendered
/// differently have different identities.
pub proof fn law_variants_apart(a: BlockView, b: BlockView)
    requires
        a.name == b.name,
        find_state(a.states, "color"@) matches Some(x) && find_state(b.states, "color"@) matches Some(
            y,
        ) && rendering(x) != rendering(y),
    ensures
        identity_of(a) != identity_of(b),
{
    let x = find_state(a.states, "color"@)->Some_0;
    let y = find_state(b.states, "color"@)->Some_0;
    if rendering(x) is Some && rendering(y) is Some {
        let s = rendering(x)->Some_0;
        let t = rendering(y)->Some_0;
        let colon = ":"@;
        assert((colon + s).skip(colon.len() as int) =~= s);
        assert((colon + t).skip(colon.len() as int) =~= t);
        assert((a.name + (colon + s)).skip(a.name.len() as int) =~= colon + s);
        assert((a.name + (colon + t)).skip(a.name.len() as int) =~= colon + t);
    }
}

proof fn lemma_generated_pairs(ids: Seq<Seq<char>>, key: Seq<char>)
    ensures
        table_of(generated_pairs(ids)).contains_key(key) == ids.contains(key),
        ids.contains(key) ==> table_of(generated_pairs(ids))[key] == generated_name(key),
    decreases ids.len(),
{
    if ids.len() > 0 {
        let rest = ids.drop_last();
        assert(generated_pairs(ids).drop_last() =~= generated_pairs(rest));
        lemma_generated_pairs(rest, key);
        if rest.contains(key) {
            let k = choose|k: int| 0 <= k < rest.len() && rest[k] == key;
            assert(ids[k] == key);
        }
        if ids.contains(key) && ids.last() != key {
            let k = choose|k: int| 0 <= k < ids.len() && ids[k] == key;
            assert(rest[k] == key);
        }
        if ids.last() == key {
            assert(ids[ids.len() - 1] == key);
        }
    }
}

/// In the table made for a list of identities, a key has the name written
/// by hand where there is one, else the name made from it where it is one
/// of the identities, else none.
pub proof fn law_generated_names(
    ids: Seq<Seq<char>>,
    overrides: Map<Seq<char>, Seq<char>>,
    key: Seq<char>,
)
    ensures
        generated_table(ids, overrides).contains_key(key) == (overrides.contains_key(key)
            || ids.contains(key)),
        overrides.contains_key(key) ==> generated_table(ids, overrides)[key] == overrides[key],
        !overrides.contains_key(key) && ids.contains(key) ==> generated_table(ids, overrides)[key]
            == generated_name(key),
{
    lemma_generated_pairs(ids, key);
}

/// Two palette entries of one name whose `color` states are different plain
/// strings have identities, and the two identities differ.
pub proof fn law_plain_colors_apart(
    a: BlockView,
    b: BlockView,
    x: Seq<char>,
    y: Seq<char>,
    first: Result<String, StructureError>,
    second: Result<String, StructureError>,
)
    requires
        a.name == b.name,
        find_state(a.states, "color"@) matches Some(v) && plain_text(v) == Some(x),
        find_state(b.states, "color"@) matches Some(v) && plain_text(v) == Some(y),
        x != y,
        is_identity_of(first, a),
        is_identity_of(second, b),
    ensures
        first matches Ok(p) && second matches Ok(q) && p@ != q@,
        identity_of(a) != identity_of(b),
{
    let colon = ":"@;
    assert((colon + x).skip(colon.len() as int) =~= x);
    assert((colon + y).skip(colon.len() as int) =~= y);
    assert((a.name + (colon + x)).skip(a.name.len() as int) =~= colon + x);
    assert((a.name + (colon + y)).skip(a.name.len() as int) =~= colon + y);
}

/// A tree without the key `structure_world_origin` is a format mismatch,
/// whatever else it holds.
pub proof fn law_missing_origin_is_mismatch(tree: TagView, table: Seq<char>)
    requires
        tree.field("structure_world_origin"@) is None,
    ensures
        projection(tree) == Err::<McStructureView, StructureError>(StructureError::FormatMismatch),
        report_of(tree, table) is Err && report_of(tree, table)->Err_0
            == StructureError::FormatMismatch,
{
}

/// A grid entry that is the length of the palette, or more, or negative,
/// puts the grid out of range: the structure then has no raw counts, and the
/// failure says so.
pub proof fn law_index_past_palette(doc: McStructureView, at: int)
    requires
        identities_of(doc.block_palette, doc.block_palette.len() as int) is Ok,
        doc.block_indices.len() > 0,
        0 <= at < doc.block_indices[0].len(),
        doc.block_indices[0][at] >= doc.block_palette.len() || doc.block_indices[0][at] < 0,
    ensures
        raw_materials(doc) == Err::<Seq<Entry>, StructureError>(StructureError::IndexOutOfRange),
{
    lemma_identities_len(doc.block_palette, doc.block_palette.len() as int);
}

} // verus!
