//! The generic tree of tagged values that a structure file decodes to.

use vstd::prelude::*;
use crate::text::same_text;

verus! {

/// One tagged value. Floating-point payloads are held as their bit patterns.
#[derive(Debug, PartialEq, Eq)]
pub enum Tag {
    Byte(i8),
    Short(i16),
    Int(i32),
    Long(i64),
    Float(u32),
    Double(u64),
    ByteArray(Vec<i8>),
    Text(String),
    List(Vec<Tag>),
    Compound(Vec<(String, Tag)>),
    IntArray(Vec<i32>),
    LongArray(Vec<i64>),
}

/// A tagged value as what it holds.
pub enum TagView {
    Byte(i8),
    Short(i16),
    Int(i32),
    Long(i64),
    Float(u32),
    Double(u64),
    ByteArray(Seq<i8>),
    Text(Seq<char>),
    List(Seq<TagView>),
    Compound(Seq<(Seq<char>, TagView)>),
    IntArray(Seq<i32>),
    LongArray(Seq<i64>),
}

/// What each tag of a list holds.
pub open spec fn tags_view(items: Seq<Tag>) -> Seq<TagView>
    decreases items, 0nat,
    via tags_view_decreases
{
    if items.len() == 0 {
        Seq::empty()
    } else {
        tags_view(items.drop_last()).push(items.last().view())
    }
}

/// The key of each entry of a compound, and what its tag holds.
pub open spec fn fields_view(entries: Seq<(String, Tag)>) -> Seq<(Seq<char>, TagView)>
    decreases entries, 0nat,
    via fields_view_decreases
{
    if entries.len() == 0 {
        Seq::empty()
    } else {
        fields_view(entries.drop_last()).push((entries.last().0@, entries.last().1.view()))
    }
}

#[via_fn]
proof fn tags_view_decreases(items: Seq<Tag>) {
    broadcast use vstd::seq::group_seq_axioms;

    if items.len() > 0 {
        assert(items.drop_last() == items.subrange(0, items.len() - 1));
        assert(decreases_to!(items => items.subrange(0, items.len() - 1)));
        assert(decreases_to!(items => items[items.len() - 1]));
    }
}

#[via_fn]
proof fn fields_view_decreases(entries: Seq<(String, Tag)>) {
    broadcast use vstd::seq::group_seq_axioms;

    if entries.len() > 0 {
        assert(entries.drop_last() == entries.subrange(0, entries.len() - 1));
        assert(decreases_to!(entries => entries.subrange(0, entries.len() - 1)));
        assert(decreases_to!(entries => entries[entries.len() - 1]));
    }
}

impl View for Tag {
    type V = TagView;

    open spec fn view(&self) -> TagView
        decreases self, 1nat,
    {
        match self {
            Tag::Byte(v) => TagView::Byte(*v),
            Tag::Short(v) => TagView::Short(*v),
            Tag::Int(v) => TagView::Int(*v),
            Tag::Long(v) => TagView::Long(*v),
            Tag::Float(v) => TagView::Float(*v),
            Tag::Double(v) => TagView::Double(*v),
            Tag::ByteArray(v) => TagView::ByteArray(v@),
            Tag::Text(s) => TagView::Text(s@),
            Tag::List(items) => TagView::List(tags_view(items@)),
            Tag::Compound(entries) => TagView::Compound(fields_view(entries@)),
            Tag::IntArray(v) => TagView::IntArray(v@),
            Tag::LongArray(v) => TagView::LongArray(v@),
        }
    }
}

/// The view of a list of tags has, place for place, what the tags hold.
pub proof fn lemma_tags_view(items: Seq<Tag>)
    ensures
        tags_view(items).len() == items.len(),
        forall|i: int| 0 <= i < items.len() ==> #[trigger] tags_view(items)[i] == items[i]@,
    decreases items.len(),
{
    if items.len() > 0 {
        lemma_tags_view(items.drop_last());
        assert(tags_view(items) == tags_view(items.drop_last()).push(items.last().view()));
    } else {
        assert(tags_view(items) == Seq::<TagView>::empty());
    }
}

/// The view of the entries of a compound has, place for place, their keys
/// and what their tags hold.
pub proof fn lemma_fields_view(entries: Seq<(String, Tag)>)
    ensures
        fields_view(entries).len() == entries.len(),
        forall|i: int|
            0 <= i < entries.len() ==> #[trigger] fields_view(entries)[i] == (
                entries[i].0@,
                entries[i].1@,
            ),
    decreases entries.len(),
{
    if entries.len() > 0 {
        lemma_fields_view(entries.drop_last());
        assert(fields_view(entries) == fields_view(entries.drop_last()).push(
            (entries.last().0@, entries.last().1.view()),
        ));
    } else {
        assert(fields_view(entries) == Seq::<(Seq<char>, TagView)>::empty());
    }
}

/// The value under the first entry named `key`, if there is one.
pub open spec fn find_field(entries: Seq<(Seq<char>, TagView)>, key: Seq<char>) -> Option<TagView>
    decreases entries.len(),
{
    if entries.len() == 0 {
        None
    } else if entries[0].0 == key {
        Some(entries[0].1)
    } else {
        find_field(entries.skip(1), key)
    }
}

impl TagView {
    /// The named entries of a compound; no entries for any other tag.
    pub open spec fn entries(self) -> Seq<(Seq<char>, TagView)> {
        match self {
            TagView::Compound(e) => e,
            _ => Seq::empty(),
        }
    }

    /// The child of a compound under `key`: the first entry of that name.
    pub open spec fn field(self, key: Seq<char>) -> Option<TagView> {
        find_field(self.entries(), key)
    }

    /// The integer that an integer tag holds, where it fits in 32 bits.
    pub open spec fn int_value(self) -> Option<i32> {
        match self {
            TagView::Byte(v) => Some(v as i32),
            TagView::Short(v) => Some(v as i32),
            TagView::Int(v) => Some(v),
            TagView::Long(v) => if i32::MIN <= v <= i32::MAX {
                Some(v as i32)
            } else {
                None
            },
            _ => None,
        }
    }

    /// The characters of a text tag.
    pub open spec fn text_value(self) -> Option<Seq<char>> {
        match self {
            TagView::Text(s) => Some(s),
            _ => None,
        }
    }

    /// The elements of a list tag.
    pub open spec fn items(self) -> Option<Seq<TagView>> {
        match self {
            TagView::List(items) => Some(items),
            _ => None,
        }
    }

    /// The number of elements of a list or of an array of integers.
    pub open spec fn sequence_len(self) -> Option<nat> {
        match self {
            TagView::List(items) => Some(items.len()),
            TagView::ByteArray(v) => Some(v.len()),
            TagView::IntArray(v) => Some(v.len()),
            TagView::LongArray(v) => Some(v.len()),
            _ => None,
        }
    }

    /// The integers of a list of integer tags or of an array of integers,
    /// where each of them fits in 32 bits.
    pub open spec fn int_list(self) -> Option<Seq<i32>> {
        match self {
            TagView::List(items) => if forall|i: int|
                0 <= i < items.len() ==> (#[trigger] items[i]).int_value() is Some {
                Some(Seq::new(items.len(), |i: int| items[i].int_value().unwrap()))
            } else {
                None
            },
            TagView::ByteArray(v) => Some(Seq::new(v.len(), |i: int| v[i] as i32)),
            TagView::IntArray(v) => Some(v),
            TagView::LongArray(v) => if forall|i: int|
                0 <= i < v.len() ==> i32::MIN <= #[trigger] v[i] <= i32::MAX {
                Some(Seq::new(v.len(), |i: int| v[i] as i32))
            } else {
                None
            },
            _ => None,
        }
    }

    /// The text of the child under `key`, where that child is a text tag.
    pub open spec fn text_at(self, key: Seq<char>) -> Option<Seq<char>> {
        match self.field(key) {
            Some(t) => t.text_value(),
            None => None,
        }
    }

    /// The integer of the child under `key`, where that child is an integer
    /// tag that fits in 32 bits.
    pub open spec fn int_at(self, key: Seq<char>) -> Option<i32> {
        match self.field(key) {
            Some(t) => t.int_value(),
            None => None,
        }
    }

    /// The integers of the child under `key`, where that child is a list or
    /// an array of integers.
    pub open spec fn int_list_at(self, key: Seq<char>) -> Option<Seq<i32>> {
        match self.field(key) {
            Some(t) => t.int_list(),
            None => None,
        }
    }

    /// The elements of the child under `key`, where that child is a list.
    pub open spec fn items_at(self, key: Seq<char>) -> Option<Seq<TagView>> {
        match self.field(key) {
            Some(t) => t.items(),
            None => None,
        }
    }

    /// The child under `key`, where that child is a compound.
    pub open spec fn compound_at(self, key: Seq<char>) -> Option<TagView> {
        match self.field(key) {
            Some(t) => if t is Compound {
                Some(t)
            } else {
                None
            },
            None => None,
        }
    }
}

impl Tag {
    /// The child of a compound under `key`: the first entry of that name.
    pub fn get(&self, key: &str) -> (r: Option<&Tag>)
        ensures
            match r {
                Some(t) => self@.field(key@) == Some(t@),
                None => self@.field(key@) is None,
            },
    {
        match self {
            Tag::Compound(entries) => {
                let ghost fields = fields_view(entries@);
                let mut i: usize = 0;
                proof {
                    lemma_fields_view(entries@);
                    assert(fields.skip(0) =~= fields);
                }
                while i < entries.len()
                    invariant
                        i <= entries.len(),
                        fields == fields_view(entries@),
                        fields.len() == entries@.len(),
                        forall|j: int|
                            0 <= j < entries@.len() ==> #[trigger] fields[j] == (
                                entries@[j].0@,
                                entries@[j].1@,
                            ),
                        self@.entries() == fields,
                        find_field(fields, key@) == find_field(fields.skip(i as int), key@),
                    decreases entries.len() - i,
                {
                    assert(fields.skip(i as int)[0] == fields[i as int]);
                    if same_text(entries[i].0.as_str(), key) {
                        return Some(&entries[i].1);
                    }
                    assert(fields.skip(i as int).skip(1) =~= fields.skip(i as int + 1));
                    i += 1;
                }
                None
            },
            _ => None,
        }
    }

    /// The integer of an integer tag, where it fits in 32 bits.
    pub fn as_i32(&self) -> (r: Option<i32>)
        ensures
            r == self@.int_value(),
    {
        match self {
            Tag::Byte(v) => Some(*v as i32),
            Tag::Short(v) => Some(*v as i32),
            Tag::Int(v) => Some(*v),
            Tag::Long(v) => {
                if -2147483648 <= *v && *v <= 2147483647 {
                    Some(*v as i32)
                } else {
                    None
                }
            },
            _ => None,
        }
    }

    /// The text of a text tag.
    pub fn as_text(&self) -> (r: Option<&String>)
        ensures
            match r {
                Some(s) => self@.text_value() == Some(s@),
                None => self@.text_value() is None,
            },
    {
        match self {
            Tag::Text(s) => Some(s),
            _ => None,
        }
    }

    /// The elements of a list tag.
    pub fn as_list(&self) -> (r: Option<&Vec<Tag>>)
        ensures
            match r {
                Some(items) => self@.items() == Some(tags_view(items@)),
                None => self@.items() is None,
            },
    {
        match self {
            Tag::List(items) => Some(items),
            _ => None,
        }
    }

    /// The named entries of a compound.
    pub fn as_compound(&self) -> (r: Option<&Vec<(String, Tag)>>)
        ensures
            match r {
                Some(entries) => self@ == TagView::Compound(fields_view(entries@)),
                None => !(self@ is Compound),
            },
    {
        match self {
            Tag::Compound(entries) => Some(entries),
            _ => None,
        }
    }

    /// The child under `key`, where that child is a compound.
    pub fn compound_under(&self, key: &str) -> (r: Option<&Tag>)
        ensures
            match r {
                Some(t) => self@.compound_at(key@) == Some(t@),
                None => self@.compound_at(key@) is None,
            },
    {
        match self.get(key) {
            Some(t) => match t {
                Tag::Compound(_) => Some(t),
                _ => None,
            },
            None => None,
        }
    }

    /// The text of the child under `key`.
    pub fn text_under(&self, key: &str) -> (r: Option<&String>)
        ensures
            match r {
                Some(s) => self@.text_at(key@) == Some(s@),
                None => self@.text_at(key@) is None,
            },
    {
        match self.get(key) {
            Some(t) => t.as_text(),
            None => None,
        }
    }

    /// The integer of the child under `key`.
    pub fn i32_under(&self, key: &str) -> (r: Option<i32>)
        ensures
            r == self@.int_at(key@),
    {
        match self.get(key) {
            Some(t) => t.as_i32(),
            None => None,
        }
    }

    /// The integers of the child under `key`.
    pub fn i32_list_under(&self, key: &str) -> (r: Option<Vec<i32>>)
        ensures
            match r {
                Some(v) => self@.int_list_at(key@) == Some(v@),
                None => self@.int_list_at(key@) is None,
            },
    {
        match self.get(key) {
            Some(t) => t.as_i32_list(),
            None => None,
        }
    }

    /// The elements of the child under `key`.
    pub fn list_under(&self, key: &str) -> (r: Option<&Vec<Tag>>)
        ensures
            match r {
                Some(items) => self@.items_at(key@) == Some(tags_view(items@)),
                None => self@.items_at(key@) is None,
            },
    {
        match self.get(key) {
            Some(t) => t.as_list(),
            None => None,
        }
    }

    /// The number of elements of a list or of an array of integers.
    pub fn sequence_length(&self) -> (r: Option<usize>)
        ensures
            match r {
                Some(n) => self@.sequence_len() == Some(n as nat),
                None => self@.sequence_len() is None,
            },
    {
        match self {
            Tag::List(items) => {
                proof {
                    lemma_tags_view(items@);
                }
                Some(items.len())
            },
            Tag::ByteArray(v) => Some(v.len()),
            Tag::IntArray(v) => Some(v.len()),
            Tag::LongArray(v) => Some(v.len()),
            _ => None,
        }
    }

    /// The integers of a list of integer tags or of an array of integers.
    #[verifier::loop_isolation(false)]
    pub fn as_i32_list(&self) -> (r: Option<Vec<i32>>)
        ensures
            match r {
                Some(v) => self@.int_list() == Some(v@),
                None => self@.int_list() is None,
            },
    {
        let mut out: Vec<i32> = Vec::new();
        match self {
            Tag::List(items) => {
                let ghost views = tags_view(items@);
                proof {
                    lemma_tags_view(items@);
                }
                let mut i: usize = 0;
                while i < items.len()
                    invariant
                        i <= items.len(),
                        out@.len() == i,
                        forall|j: int| 0 <= j < i ==> (#[trigger] views[j]).int_value() == Some(out@[j]),
                    decreases items.len() - i,
                {
                    assert(views[i as int] == items@[i as int]@);
                    match items[i].as_i32() {
                        Some(v) => out.push(v),
                        None => {
                            assert(views[i as int].int_value() is None);
                            return None;
                        },
                    }
                    i += 1;
                }
                assert(out@ =~= Seq::new(views.len(), |i: int| views[i].int_value().unwrap()));
                Some(out)
            },
            Tag::ByteArray(v) => {
                let mut i: usize = 0;
                while i < v.len()
                    invariant
                        i <= v.len(),
                        out@.len() == i,
                        forall|j: int| 0 <= j < i ==> out@[j] == v@[j] as i32,
                    decreases v.len() - i,
                {
                    out.push(v[i] as i32);
                    i += 1;
                }
                assert(out@ =~= Seq::new(v@.len(), |i: int| v@[i] as i32));
                Some(out)
            },
            Tag::IntArray(v) => {
                let mut i: usize = 0;
                while i < v.len()
                    invariant
                        i <= v.len(),
                        out@.len() == i,
                        forall|j: int| 0 <= j < i ==> out@[j] == v@[j],
                    decreases v.len() - i,
                {
                    out.push(v[i]);
                    i += 1;
                }
                assert(out@ =~= v@);
                Some(out)
            },
            Tag::LongArray(v) => {
                let mut i: usize = 0;
                while i < v.len()
                    invariant
                        i <= v.len(),
                        out@.len() == i,
                        forall|j: int| 0 <= j < i ==> i32::MIN <= #[trigger] v@[j] <= i32::MAX,
                        forall|j: int| 0 <= j < i ==> out@[j] == v@[j] as i32,
                    decreases v.len() - i,
                {
                    let x: i64 = v[i];
                    if -2147483648 <= x && x <= 2147483647 {
                        out.push(x as i32);
                    } else {
                        assert(!(i32::MIN <= v@[i as int] <= i32::MAX));
                        return None;
                    }
                    i += 1;
                }
                assert(out@ =~= Seq::new(v@.len(), |i: int| v@[i] as i32));
                Some(out)
            },
            _ => None,
        }
    }
}

} // verus!
