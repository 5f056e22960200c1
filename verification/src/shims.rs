//! The library's trusted boundary: the two outside calls the key
//! heuristics make, each behind a contract that Verus believes.

use vstd::prelude::*;

verus! {

/// The value of the top-level string field named `field` in the JSON
/// document `text`, when `text` parses as an object holding one.
pub uninterp spec fn json_string_field_at(text: Seq<char>, field: Seq<char>) -> Option<Seq<char>>;

/// Relies on serde_json::from_str, serde_json::Value::get and
/// serde_json::Value::as_str: parses `text` as JSON and returns the
/// string value of the top-level field named `field`, when the document
/// is an object with such a string member. The result depends on the
/// two arguments alone.
#[verifier::external_body]
pub(crate) fn json_string_field(text: &str, field: &str) -> (r: Option<String>)
    ensures
        match r {
            Some(s) => json_string_field_at(text@, field@) == Some(s@),
            None => json_string_field_at(text@, field@) is None,
        },
{
    let value: serde_json::Value = serde_json::from_str(text).ok()?;
    let s = value.get(field)?.as_str()?;
    Some(s.to_string())
}

/// Relies on String::from_utf8: succeeds exactly on the byte sequences
/// that are valid UTF-8, and returns their decoding.
#[verifier::external_body]
pub(crate) fn utf8_string(data: &[u8]) -> (r: Option<String>)
    ensures
        match r {
            Some(s) => vstd::utf8::valid_utf8(data@) && s@ == vstd::utf8::decode_utf8(data@),
            None => !vstd::utf8::valid_utf8(data@),
        },
{
    String::from_utf8(data.to_vec()).ok()
}

} // verus!
