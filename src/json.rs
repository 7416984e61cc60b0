//! The JSON encoding that the library takes from serde_json.
use vstd::prelude::*;

verus! {

/// A JSON value, carried through the library as it is.
#[verifier::external_type_specification]
#[verifier::external_body]
pub struct ExJsonValue(serde_json::Value);

/// The compact JSON text of the string value `s`: quotes around it and the
/// characters that JSON requires escaped.
pub uninterp spec fn json_string_text(s: Seq<char>) -> Seq<char>;

/// Relies on serde_json's `Display` for `Value::String`, which writes the
/// compact JSON text of the string and cannot fail.
#[verifier::external_body]
pub(crate) fn quote_json(s: &str) -> (r: String)
    ensures
        r@ == json_string_text(s@),
{
    serde_json::Value::String(s.to_string()).to_string()
}

/// Relies on serde_json's alternate `Display` for `Value` (`{:#}`), which
/// writes the value as pretty-printed JSON and cannot fail.
#[verifier::external_body]
pub(crate) fn pretty_json(v: &serde_json::Value) -> (r: String) {
    format!("{:#}", v)
}

/// The JSON text of a text file's contents: the contents become one JSON
/// string, with no further interpretation.
pub fn text_file_value(contents: &str) -> (r: String)
    ensures
        r@ == json_string_text(contents@),
{
    quote_json(contents)
}

} // verus!
