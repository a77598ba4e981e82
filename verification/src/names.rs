//! The table from raw block identities to display names.

use vstd::prelude::*;
use crate::error::StructureError;
use crate::rendering::{parse_string_table, string_table_of};
use crate::text::same_text;
use vstd::string::StringExecFns;

verus! {

/// The characters of each pair of strings.
pub open spec fn pairs_view(pairs: Seq<(String, String)>) -> Seq<(Seq<char>, Seq<char>)> {
    Seq::new(pairs.len(), |i: int| (pairs[i].0@, pairs[i].1@))
}

/// The table that a list of pairs stands for: where a key occurs more than
/// once, its last pair holds.
pub open spec fn table_of(pairs: Seq<(Seq<char>, Seq<char>)>) -> Map<Seq<char>, Seq<char>>
    decreases pairs.len(),
{
    if pairs.len() == 0 {
        Map::empty()
    } else {
        table_of(pairs.drop_last()).insert(pairs.last().0, pairs.last().1)
    }
}

/// The display name of an identity: what the table holds for it, or the
/// identity itself where the table holds nothing.
pub open spec fn display_name(names: Map<Seq<char>, Seq<char>>, id: Seq<char>) -> Seq<char> {
    if names.contains_key(id) {
        names[id]
    } else {
        id
    }
}

/// The last pair of a key is what the table holds for it.
pub proof fn lemma_table_last(pairs: Seq<(Seq<char>, Seq<char>)>, key: Seq<char>, at: int)
    requires
        0 <= at < pairs.len(),
        pairs[at].0 == key,
        forall|j: int| at < j < pairs.len() ==> (#[trigger] pairs[j]).0 != key,
    ensures
        table_of(pairs).contains_key(key),
        table_of(pairs)[key] == pairs[at].1,
    decreases pairs.len(),
{
    if at < pairs.len() - 1 {
        assert(pairs[pairs.len() - 1].0 != key);
        assert(pairs.drop_last()[at] == pairs[at]);
        assert forall|j: int| at < j < pairs.drop_last().len() implies (
        #[trigger] pairs.drop_last()[j]).0 != key by {
            assert(pairs.drop_last()[j] == pairs[j]);
        }
        lemma_table_last(pairs.drop_last(), key, at);
    }
}

/// A key that no pair has is not in the table.
pub proof fn lemma_table_absent(pairs: Seq<(Seq<char>, Seq<char>)>, key: Seq<char>)
    requires
        forall|j: int| 0 <= j < pairs.len() ==> (#[trigger] pairs[j]).0 != key,
    ensures
        !table_of(pairs).contains_key(key),
    decreases pairs.len(),
{
    if pairs.len() > 0 {
        assert(pairs[pairs.len() - 1].0 != key);
        assert forall|j: int| 0 <= j < pairs.drop_last().len() implies (
        #[trigger] pairs.drop_last()[j]).0 != key by {
            assert(pairs.drop_last()[j] == pairs[j]);
        }
        lemma_table_absent(pairs.drop_last(), key);
    }
}

/// A table from raw block identities to display names.
#[derive(Clone, Debug)]
pub struct NameMap {
    entries: Vec<(String, String)>,
}

impl View for NameMap {
    type V = Map<Seq<char>, Seq<char>>;

    closed spec fn view(&self) -> Map<Seq<char>, Seq<char>> {
        table_of(pairs_view(self.entries@))
    }
}

impl NameMap {
    /// The empty table.
    pub fn new() -> (r: NameMap)
        ensures
            r@ == Map::<Seq<char>, Seq<char>>::empty(),
    {
        NameMap { entries: Vec::new() }
    }

    /// The table that a list of pairs stands for.
    pub fn from_pairs(pairs: Vec<(String, String)>) -> (r: NameMap)
        ensures
            r@ == table_of(pairs_view(pairs@)),
    {
        NameMap { entries: pairs }
    }

    /// The pairs of the table: a list that stands for it.
    pub fn pairs(&self) -> (r: &Vec<(String, String)>)
        ensures
            table_of(pairs_view(r@)) == self@,
    {
        &self.entries
    }

    /// Sets the display name of an identity, in place of an earlier one.
    pub fn insert(&mut self, key: String, value: String)
        ensures
            final(self)@ == old(self)@.insert(key@, value@),
    {
        let ghost before = pairs_view(self.entries@);
        self.entries.push((key, value));
        assert(pairs_view(self.entries@).drop_last() =~= before);
    }

    /// Takes in every pair of another table, in place of earlier ones.
    pub fn extend(&mut self, other: &NameMap)
        ensures
            final(self)@ == old(self)@.union_prefer_right(other@),
    {
        let ghost base = self@;
        let ghost pairs = pairs_view(other.entries@);
        let mut i: usize = 0;
        assert(pairs.take(0) =~= Seq::<(Seq<char>, Seq<char>)>::empty());
        assert(base.union_prefer_right(Map::<Seq<char>, Seq<char>>::empty()) =~= base);
        while i < other.entries.len()
            invariant
                i <= other.entries.len(),
                pairs == pairs_view(other.entries@),
                self@ == base.union_prefer_right(table_of(pairs.take(i as int))),
            decreases other.entries.len() - i,
        {
            let ghost so_far = table_of(pairs.take(i as int));
            self.insert(other.entries[i].0.clone(), other.entries[i].1.clone());
            proof {
                assert(pairs.take(i as int + 1).drop_last() =~= pairs.take(i as int));
                assert(pairs.take(i as int + 1).last() == pairs[i as int]);
                assert(base.union_prefer_right(so_far).insert(pairs[i as int].0, pairs[i as int].1)
                    =~= base.union_prefer_right(so_far.insert(pairs[i as int].0, pairs[i as int].1)));
            }
            i += 1;
        }
        assert(pairs.take(i as int) =~= pairs);
    }

    /// What the table holds for an identity.
    pub fn get(&self, key: &str) -> (r: Option<&String>)
        ensures
            match r {
                Some(v) => self@.contains_key(key@) && self@[key@] == v@,
                None => !self@.contains_key(key@),
            },
    {
        let ghost pairs = pairs_view(self.entries@);
        let mut i: usize = self.entries.len();
        while i > 0
            invariant
                i <= self.entries.len(),
                pairs == pairs_view(self.entries@),
                forall|j: int| i <= j < pairs.len() ==> (#[trigger] pairs[j]).0 != key@,
            decreases i,
        {
            i -= 1;
            assert(pairs[i as int].0 == self.entries@[i as int].0@);
            if same_text(self.entries[i].0.as_str(), key) {
                proof {
                    lemma_table_last(pairs, key@, i as int);
                }
                return Some(&self.entries[i].1);
            }
        }
        proof {
            lemma_table_absent(pairs, key@);
        }
        None
    }

    /// The display name of an identity: what the table holds for it, or the
    /// identity itself.
    pub fn display_name(&self, id: &str) -> (r: String)
        ensures
            r@ == display_name(self@, id@),
    {
        match self.get(id) {
            Some(name) => name.clone(),
            None => String::from_str(id),
        }
    }

    /// Reads a table from a JSON document that is one flat object of strings.
    pub fn parse(text: &str) -> (r: Result<NameMap, StructureError>)
        ensures
            match r {
                Ok(names) => string_table_of(text@) matches Some(pairs) && names@ == table_of(
                    pairs,
                ),
                Err(e) => string_table_of(text@) is None && e
                    == StructureError::LookupTableMalformed,
            },
    {
        match parse_string_table(text) {
            Ok(pairs) => Ok(NameMap::from_pairs(pairs)),
            Err(_) => Err(StructureError::LookupTableMalformed),
        }
    }
}

} // verus!
