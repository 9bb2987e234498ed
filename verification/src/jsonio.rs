//! Reading the two fields the core ever extracts from an engine output
//! line: the top-level `id` (for routing) and the top-level `error`
//! (for reporting).  The decoding itself is done by a JSON library; the
//! core names its results and reasons about them abstractly.

use vstd::prelude::*;

verus! {

/// The top-level `id` string field of a line, when the line parses as a
/// JSON object carrying one; what `line_id` returns.
pub uninterp spec fn json_line_id(s: Seq<char>) -> Option<Seq<char>>;

/// The rendered top-level `error` field of a line, when the line parses
/// as a JSON object carrying one; what `line_error_field` returns.
pub uninterp spec fn json_error_field(s: Seq<char>) -> Option<Seq<char>>;

/// Relies on `serde_json::from_str::<Value>`, `Value::get` and
/// `Value::as_str`: yields the top-level `id` string field of the line,
/// or nothing when the line is not a JSON object or carries no string
/// `id`.  The parse is a pure function of the line's text.
#[verifier::external_body]
pub fn line_id(line: &str) -> (r: Option<String>)
    ensures
        r is Some <==> json_line_id(line@) is Some,
        r matches Some(id) ==> json_line_id(line@) == Some(id@),
{
    match serde_json::from_str::<serde_json::Value>(line) {
        Ok(v) => v.get("id").and_then(|i| i.as_str()).map(|s| s.to_owned()),
        Err(_) => None,
    }
}

/// Relies on `serde_json::from_str::<Value>`, `Value::get` and
/// `Value::to_string`: yields the JSON rendering of the top-level
/// `error` field of the line, or nothing when the line is not a JSON
/// object or carries no `error`.  The parse is a pure function of the
/// line's text.
#[verifier::external_body]
pub fn line_error_field(line: &str) -> (r: Option<String>)
    ensures
        r is Some <==> json_error_field(line@) is Some,
        r matches Some(m) ==> json_error_field(line@) == Some(m@),
{
    match serde_json::from_str::<serde_json::Value>(line) {
        Ok(v) => v.get("error").map(|e| e.to_string()),
        Err(_) => None,
    }
}

} // verus!
