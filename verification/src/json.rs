//! JSON values as the store carries them, their size, and the text forms
//! that `serde_json` gives them.

use vstd::prelude::*;
use vstd::utf8::encode_utf8;
use serde_json::Value;

verus! {

/// A JSON value. Its content is not visible to proofs; contracts speak of
/// it through the names below.
#[verifier::external_type_specification]
#[verifier::external_body]
pub struct ExValue(serde_json::Value);

/// The compact JSON text of a value: what `serde_json::to_string` returns
/// for it, or the empty text where that fails.
pub uninterp spec fn compact_text(value: Value) -> Seq<char>;

/// The indented JSON text of a value: what `serde_json::to_string_pretty`
/// returns for it, or the message of its error.
pub uninterp spec fn pretty_text(value: Value) -> Result<Seq<char>, Seq<char>>;

/// The indented JSON text of a list of payloads, each an array of an
/// identifier and a value: what `serde_json::to_string_pretty` returns for
/// it, or the message of its error.
pub uninterp spec fn pretty_list_text(entries: Seq<(Seq<char>, Value)>) -> Result<
    Seq<char>,
    Seq<char>,
>;

/// The list of payloads that a JSON text holds, each an array of an
/// identifier and a value: what `serde_json::from_str` reads from it, if it
/// reads one.
pub uninterp spec fn parsed_list(text: Seq<char>) -> Option<Seq<(Seq<char>, Value)>>;

/// The list of payloads that a JSON text holds, each an array of an
/// identifier, a value and a size: what `serde_json::from_str` reads from it,
/// if it reads one.
pub uninterp spec fn parsed_sized_list(text: Seq<char>) -> Option<Seq<(Seq<char>, Value, u64)>>;

/// The views of a list of payloads.
pub open spec fn pair_views(v: Seq<(String, Value)>) -> Seq<(Seq<char>, Value)> {
    v.map_values(|p: (String, Value)| (p.0@, p.1))
}

/// The views of a list of payloads with sizes.
pub open spec fn triple_views(v: Seq<(String, Value, u64)>) -> Seq<(Seq<char>, Value, u64)> {
    v.map_values(|p: (String, Value, u64)| (p.0@, p.1, p.2))
}

/// `Value::clone` returns an equal value.
pub assume_specification[ <Value as Clone>::clone ](value: &Value) -> (out: Value)
    ensures
        out == *value,
;

/// Calls `serde_json::to_string` on a value, with the empty string for an
/// error. The contract names the result.
#[verifier::external_body]
pub(crate) fn to_compact(value: &Value) -> (out: String)
    ensures
        out@ == compact_text(*value),
{
    serde_json::to_string(value).unwrap_or_default()
}

/// Calls `serde_json::to_string_pretty` on a value, with the error's message
/// for an error. The contract names the result.
#[verifier::external_body]
pub(crate) fn to_pretty(value: &Value) -> (out: Result<String, String>)
    ensures
        match out {
            Ok(s) => pretty_text(*value) == Ok::<Seq<char>, Seq<char>>(s@),
            Err(e) => pretty_text(*value) == Err::<Seq<char>, Seq<char>>(e@),
        },
{
    serde_json::to_string_pretty(value).map_err(|e| e.to_string())
}

/// Calls `serde_json::to_string_pretty` on a list of payloads, with the
/// error's message for an error. The contract names the result.
#[verifier::external_body]
pub(crate) fn list_to_pretty(entries: &Vec<(String, Value)>) -> (out: Result<String, String>)
    ensures
        match out {
            Ok(s) => pretty_list_text(pair_views(entries@)) == Ok::<Seq<char>, Seq<char>>(s@),
            Err(e) => pretty_list_text(pair_views(entries@)) == Err::<Seq<char>, Seq<char>>(e@),
        },
{
    serde_json::to_string_pretty(entries).map_err(|e| e.to_string())
}

/// Calls `serde_json::from_str` for a list of payloads without sizes, with
/// `None` for an error. The contract names the result.
#[verifier::external_body]
pub(crate) fn parse_list(text: &str) -> (out: Option<Vec<(String, Value)>>)
    ensures
        match out {
            Some(v) => parsed_list(text@) == Some(pair_views(v@)),
            None => parsed_list(text@) is None,
        },
{
    serde_json::from_str::<Vec<(String, Value)>>(text).ok()
}

/// Calls `serde_json::from_str` for a list of payloads with sizes, with
/// `None` for an error. The contract names the result.
#[verifier::external_body]
pub(crate) fn parse_sized_list(text: &str) -> (out: Option<Vec<(String, Value, u64)>>)
    ensures
        match out {
            Some(v) => parsed_sized_list(text@) == Some(triple_views(v@)),
            None => parsed_sized_list(text@) is None,
        },
{
    serde_json::from_str::<Vec<(String, Value, u64)>>(text).ok()
}

/// The size of a payload: the number of bytes of its compact JSON text, as
/// the length of a string in memory.
pub open spec fn payload_size(value: Value) -> u64 {
    (encode_utf8(compact_text(value)).len() as usize) as u64
}

/// Estimates the size of a JSON value in bytes, as the length of its compact
/// text.
pub fn estimate_payload_size(value: &Value) -> (size: u64)
    ensures
        size == payload_size(*value),
{
    let text = to_compact(value);
    text.as_str().len() as u64
}

/// The text shown for a value in full: its indented JSON text, or a small
/// JSON object that reports why there is none.
pub open spec fn display_text(value: Value) -> Seq<char> {
    match pretty_text(value) {
        Ok(s) => s,
        Err(e) => "{ \"error\": \"Failed to render JSON: "@ + e + "\" }"@,
    }
}

/// Renders a value in full.
pub fn render_pretty(value: &Value) -> (out: String)
    ensures
        out@ == display_text(*value),
{
    match to_pretty(value) {
        Ok(s) => s,
        Err(e) => {
            let mut out = String::from_str("{ \"error\": \"Failed to render JSON: ");
            out.append(e.as_str());
            out.append("\" }");
            out
        },
    }
}

} // verus!
