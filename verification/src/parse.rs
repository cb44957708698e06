//! The bridge from document text to the library's JSON model. Parsing is
//! the JSON parser's work, assumed, not proved; everything after it is
//! verified. A failed parse becomes the library's own error and is fatal
//! to the whole run, by design.

use vstd::prelude::*;
use crate::extract::{extract_mutuals, mutuals_of};
use crate::json::{Json, JsonV};
use crate::user::{MutualUser, users_model};

verus! {

/// serde_json's error type, declared so it can stand in signatures.
#[verifier::external_type_specification]
#[verifier::external_body]
pub struct ExError(serde_json::Error);

/// serde_json's value type, declared so it can stand in signatures.
#[verifier::external_type_specification]
#[verifier::external_body]
pub struct ExValue(serde_json::Value);

/// The document that parsing a given text yields, when the text is valid
/// JSON. Parsing is deterministic: the document is a function of the text
/// alone.
pub uninterp spec fn parsed_doc(text: Seq<char>) -> Option<JsonV>;

/// Relies on serde_json::from_str: it parses a valid JSON text into a
/// value determined by the text alone, and returns an error on anything
/// else. The parsed tree is handed over variant by variant by
/// `json_of_value`.
#[verifier::external_body]
fn parse_text(text: &str) -> (r: Result<Json, serde_json::Error>)
    ensures
        r matches Ok(doc) ==> parsed_doc(text@) == Some(doc@),
        r matches Err(_) ==> parsed_doc(text@) is None,
{
    match serde_json::from_str::<serde_json::Value>(text) {
        Ok(v) => Ok(json_of_value(v)),
        Err(e) => Err(e),
    }
}

/// The conversion half of `parse_text`: carries serde_json's value tree
/// into the library's, one variant to one variant, keeping array and
/// field order. Nothing is assumed of it beyond what `parse_text` states.
#[verifier::external_body]
fn json_of_value(v: serde_json::Value) -> Json {
    match v {
        serde_json::Value::Null => Json::Null,
        serde_json::Value::Bool(b) => Json::Bool(b),
        serde_json::Value::Number(n) => Json::Num(n.to_string()),
        serde_json::Value::String(s) => Json::Str(s),
        serde_json::Value::Array(a) => Json::Arr(a.into_iter().map(json_of_value).collect()),
        serde_json::Value::Object(o) => Json::Obj(
            o.into_iter().map(|(k, w)| (k, json_of_value(w))).collect(),
        ),
    }
}

/// Relies on serde_json::Error's text rendering for the failure line shown
/// to the user; nothing is assumed of its content.
#[verifier::external_body]
fn error_text(e: &serde_json::Error) -> String {
    e.to_string()
}

/// A file that could not be read as JSON. Fatal: it aborts the whole run
/// before any download starts.
#[derive(Debug)]
pub struct ParseError {
    pub message: String,
}

/// Parses one saved timeline text and extracts its mutual-follower
/// records: the per-file unit of work. Reading the file and printing the
/// count line stay with the caller.
pub fn process_followers_text(text: &str) -> (r: Result<Vec<MutualUser>, ParseError>)
    ensures
        parsed_doc(text@) matches Some(doc) ==> (r matches Ok(users) && users_model(users@)
            == mutuals_of(doc)),
        parsed_doc(text@) is None ==> r is Err,
{
    match parse_text(text) {
        Ok(doc) => Ok(extract_mutuals(&doc)),
        Err(e) => Err(ParseError { message: error_text(&e) }),
    }
}

} // verus!
