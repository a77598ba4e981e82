//! The table of display names: a name made from each block identity, and
//! the entries of a table written by hand in place of them.

use vstd::prelude::*;
use crate::cli::BlockgenConfig;
use crate::error::StructureError;
use crate::names::{table_of, NameMap};
use crate::rendering::{string_table_of, title_case, title_cased};
use crate::text::{remove_all, removed, texts_view};

verus! {

/// The display name made from a block identity: the identity without its
/// namespace, in title case.
pub open spec fn generated_name(id: Seq<char>) -> Seq<char> {
    title_cased(removed(id, "minecraft:"@))
}

/// Each identity with the display name made from it.
pub open spec fn generated_pairs(ids: Seq<Seq<char>>) -> Seq<(Seq<char>, Seq<char>)> {
    Seq::new(ids.len(), |i: int| (ids[i], generated_name(ids[i])))
}

/// The table for a list of identities and a table written by hand: each
/// identity has the name made from it, unless the other table names it.
pub open spec fn generated_table(ids: Seq<Seq<char>>, overrides: Map<Seq<char>, Seq<char>>) -> Map<
    Seq<char>,
    Seq<char>,
> {
    table_of(generated_pairs(ids)).union_prefer_right(overrides)
}

/// The display name made from a block identity.
pub fn generate_name(id: &str) -> (r: String)
    ensures
        r@ == generated_name(id@),
{
    let bare = remove_all(id, "minecraft:");
    title_case(bare.as_str())
}

/// The table that gives each identity the name made from it.
pub fn generate_names(ids: &Vec<String>) -> (r: NameMap)
    ensures
        r@ == table_of(generated_pairs(texts_view(ids@))),
{
    let ghost pairs = generated_pairs(texts_view(ids@));
    let mut names = NameMap::new();
    let mut i: usize = 0;
    assert(pairs.take(0) =~= Seq::<(Seq<char>, Seq<char>)>::empty());
    while i < ids.len()
        invariant
            i <= ids.len(),
            pairs == generated_pairs(texts_view(ids@)),
            names@ == table_of(pairs.take(i as int)),
        decreases ids.len() - i,
    {
        proof {
            assert(pairs.take(i as int + 1).drop_last() =~= pairs.take(i as int));
            assert(pairs.take(i as int + 1).last() == (ids@[i as int]@, generated_name(ids@[i as int]@)));
        }
        names.insert(ids[i].clone(), generate_name(ids[i].as_str()));
        i += 1;
    }
    assert(pairs.take(i as int) =~= pairs);
    names
}

impl BlockgenConfig {
    /// The table of display names for a list of block identities, with the
    /// entries of the table that a text holds in place of the names made.
    pub fn run(&self, ids: &Vec<String>, overrides: &str) -> (r: Result<NameMap, StructureError>)
        ensures
            match r {
                Ok(names) => string_table_of(overrides@) matches Some(pairs) && names@
                    == generated_table(texts_view(ids@), table_of(pairs)),
                Err(e) => string_table_of(overrides@) is None && e
                    == StructureError::LookupTableMalformed,
            },
    {
        let mut names = generate_names(ids);
        match NameMap::parse(overrides) {
            Ok(table) => {
                names.extend(&table);
                Ok(names)
            },
            Err(e) => Err(e),
        }
    }
}

} // verus!
