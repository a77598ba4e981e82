//! Small operations on strings, stated over their characters.

use vstd::prelude::*;
use vstd::string::{StrSliceExecFns, StringExecFns};

verus! {

/// The characters of each string of a list.
pub open spec fn texts_view(texts: Seq<String>) -> Seq<Seq<char>> {
    Seq::new(texts.len(), |i: int| texts[i]@)
}

/// Whether a character stands for itself between double quotes: it is no
/// double quote, no backslash and no control character below the space.
pub open spec fn is_plain_char(c: char) -> bool {
    c != '"' && c != '\\' && c as u32 >= 0x20
}

/// Whether every character of a text stands for itself between double
/// quotes.
pub open spec fn is_plain(text: Seq<char>) -> bool {
    forall|i: int| 0 <= i < text.len() ==> is_plain_char(#[trigger] text[i])
}

/// A text between double quotes.
pub open spec fn quoted(text: Seq<char>) -> Seq<char> {
    seq!['"'] + text + seq!['"']
}

/// The text between the double quotes, where a text is a plain text between
/// double quotes.
pub open spec fn plainly_quoted(text: Seq<char>) -> Option<Seq<char>> {
    if text.len() >= 2 && text[0] == '"' && text[text.len() - 1] == '"' && is_plain(
        text.subrange(1, text.len() - 1),
    ) {
        Some(text.subrange(1, text.len() - 1))
    } else {
        None
    }
}

/// A plain text between double quotes is plainly quoted.
pub proof fn lemma_quoted(text: Seq<char>)
    requires
        is_plain(text),
    ensures
        plainly_quoted(quoted(text)) == Some(text),
{
    let q = quoted(text);
    assert(q.len() == text.len() + 2);
    assert(q[0] == '"');
    assert(q[q.len() - 1] == '"');
    assert(q.subrange(1, q.len() - 1) =~= text);
}

/// A text without the occurrences of a pattern: they are found from the
/// left, and none overlaps the one before it. The empty pattern occurs
/// nowhere.
pub open spec fn removed(text: Seq<char>, pattern: Seq<char>) -> Seq<char>
    decreases text.len(),
{
    if pattern.len() == 0 || text.len() < pattern.len() {
        text
    } else if text.take(pattern.len() as int) == pattern {
        removed(text.skip(pattern.len() as int), pattern)
    } else {
        seq![text[0]] + removed(text.skip(1), pattern)
    }
}

/// Whether two string slices hold the same characters.
pub fn same_text(a: &str, b: &str) -> (r: bool)
    ensures
        r == (a@ == b@),
{
    let x = String::from_str(a);
    let y = String::from_str(b);
    x == y
}

/// A fresh string with the characters of `a` followed by those of `b`.
pub fn joined(a: &str, b: &str) -> (r: String)
    ensures
        r@ == a@ + b@,
{
    let mut out = String::from_str(a);
    out.append(b);
    out
}

/// A text without the occurrences of a pattern.
pub fn remove_all(text: &str, pattern: &str) -> (r: String)
    ensures
        r@ == removed(text@, pattern@),
{
    let n = text.unicode_len();
    let m = pattern.unicode_len();
    if m == 0 {
        return String::from_str(text);
    }
    let mut out = String::new();
    let mut i: usize = 0;
    assert(text@.skip(0) =~= text@);
    assert(out@ + removed(text@, pattern@) =~= removed(text@, pattern@));
    while i < n && n - i >= m
        invariant
            i <= n,
            n == text@.len(),
            m == pattern@.len(),
            m > 0,
            out@ + removed(text@.skip(i as int), pattern@) == removed(text@, pattern@),
        decreases n - i,
    {
        let ghost tail = text@.skip(i as int);
        let ghost before = out@;
        if same_text(text.substring_char(i, i + m), pattern) {
            assert(tail.take(m as int) =~= text@.subrange(i as int, i + m));
            assert(tail.skip(m as int) =~= text@.skip(i + m));
            i += m;
        } else {
            assert(tail.take(m as int) =~= text@.subrange(i as int, i + m));
            out.append(text.substring_char(i, i + 1));
            assert(seq![tail[0]] =~= text@.subrange(i as int, i + 1));
            assert(tail.skip(1) =~= text@.skip(i + 1));
            assert(out@ + removed(tail.skip(1), pattern@) =~= before + (seq![tail[0]] + removed(
                tail.skip(1),
                pattern@,
            )));
            i += 1;
        }
    }
    let ghost before = out@;
    out.append(text.substring_char(i, n));
    assert(text@.subrange(i as int, n as int) =~= text@.skip(i as int));
    out
}

} // verus!
