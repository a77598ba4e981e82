//! The text operations that outside crates perform for this library. Their
//! contracts are taken on trust; each says which outside function it stands
//! for and what it claims of it.

use vstd::prelude::*;
use convert_case::{Case, Casing};
use crate::names::pairs_view;
use crate::schema::{plain_text, Scalar, ScalarView};
use crate::text::{plainly_quoted, quoted};
use std::collections::BTreeMap;

verus! {

#[verifier::external_type_specification]
#[verifier::external_body]
pub struct ExUnescapeError(snailquote::UnescapeError);

#[verifier::external_type_specification]
#[verifier::external_body]
pub struct ExJsonError(serde_json::Error);

/// The compact JSON text of a scalar, as `serde_json` writes it.
pub uninterp spec fn json_text_of(value: ScalarView) -> Seq<char>;

/// What `snailquote::unescape` makes of a text: the text with its shell-style
/// quoting and escapes resolved, or nothing where they are malformed.
pub uninterp spec fn unescaped(text: Seq<char>) -> Option<Seq<char>>;

/// What `convert_case` makes of a text in title case.
pub uninterp spec fn title_cased(text: Seq<char>) -> Seq<char>;

/// The entries of a JSON document that is one flat object of strings, as
/// `serde_json` reads it: one pair per distinct key, in the order of the keys;
/// nothing where the text is no such document.
pub uninterp spec fn string_table_of(text: Seq<char>) -> Option<Seq<(Seq<char>, Seq<char>)>>;

/// `serde_json::Value::to_string` on a JSON string or a JSON integer. Claims
/// that the text written depends on the value alone, and that a string
/// without double quote, backslash and control character below the space is
/// written as it is, between double quotes.
#[verifier::external_body]
pub(crate) fn json_text(value: &Scalar) -> (r: String)
    ensures
        r@ == json_text_of(value@),
        plain_text(Some(value@)) matches Some(s) ==> r@ == quoted(s),
{
    let json = match value {
        Scalar::Text(s) => serde_json::Value::String(s.clone()),
        Scalar::Number(n) => serde_json::Value::from(*n),
    };
    json.to_string()
}

/// `snailquote::unescape`. Claims that it returns on every input, that
/// whether it succeeds, and with which text, depends on the input alone, and
/// that of a text between double quotes, with neither double quote nor
/// backslash nor control character inside, it gives what is between the
/// quotes.
pub assume_specification[ snailquote::unescape ](s: &str) -> (r: Result<
    String,
    snailquote::UnescapeError,
>)
    ensures
        match r {
            Ok(t) => unescaped(s@) == Some(t@),
            Err(_) => unescaped(s@) is None,
        },
        plainly_quoted(s@) is Some ==> r is Ok && Some(r->Ok_0@) == plainly_quoted(s@),
;

/// `convert_case::Casing::to_case` with `Case::Title`. Claims that it returns
/// on every input and that the text returned depends on the input alone.
#[verifier::external_body]
pub(crate) fn title_case(text: &str) -> (r: String)
    ensures
        r@ == title_cased(text@),
{
    text.to_case(Case::Title)
}

/// `serde_json::from_str` into a map from strings to strings, ordered by key.
/// Claims that whether it succeeds, and with which entries, depends on the
/// text alone.
#[verifier::external_body]
pub(crate) fn parse_string_table(text: &str) -> (r: Result<Vec<(String, String)>, serde_json::Error>)
    ensures
        match r {
            Ok(pairs) => string_table_of(text@) == Some(pairs_view(pairs@)),
            Err(_) => string_table_of(text@) is None,
        },
{
    let table: BTreeMap<String, String> = serde_json::from_str(text)?;
    Ok(table.into_iter().collect())
}

} // verus!
