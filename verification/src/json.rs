//! Structured values are carried as opaque JSON documents; this module
//! declares the outside JSON type and puts its parser and serializer behind
//! trusted wrappers.

use vstd::prelude::*;

use crate::error::HibiscusError;

verus! {

#[verifier::external_type_specification]
#[verifier::external_body]
pub struct ExJsonValue(serde_json::Value);

#[verifier::external_type_specification]
#[verifier::external_body]
pub struct ExJsonError(serde_json::Error);

/// Whether a text is a well-formed JSON document, as serde_json's parser
/// accepts it; parsing success depends on the text alone.
pub uninterp spec fn json_wf(s: Seq<char>) -> bool;

/// The document serde_json's parser yields for a well-formed text; parsing
/// is deterministic in the text alone.
pub uninterp spec fn json_value_of(s: Seq<char>) -> serde_json::Value;

/// The pretty-printed text serde_json's serializer produces for a document;
/// serialization is deterministic in the document alone.
pub uninterp spec fn pretty_text_of(v: serde_json::Value) -> Seq<char>;

/// Relies on serde_json::from_str::<Value>: deterministic parsing whose
/// success and result depend only on the input text.
#[verifier::external_body]
fn json_from_str(s: &str) -> (r: Result<serde_json::Value, serde_json::Error>)
    ensures
        r is Ok <==> json_wf(s@),
        r is Ok ==> r->Ok_0 == json_value_of(s@),
{
    serde_json::from_str(s)
}

/// Relies on serde_json::to_string_pretty: pretty-printed serialization,
/// deterministic in the document alone. Serializing a document value cannot
/// fail: its own serialization never errors and its maps carry string keys,
/// the only two failure sources the serializer has. Nothing ties the output
/// to `json_wf`: the serializer has no depth limit while the parser refuses
/// nesting beyond its recursion limit, so the text of a deep enough document
/// is not itself re-parseable.
#[verifier::external_body]
fn json_to_pretty(v: &serde_json::Value) -> (r: Result<String, serde_json::Error>)
    ensures
        r is Ok,
        r is Ok ==> r->Ok_0@ == pretty_text_of(*v),
{
    serde_json::to_string_pretty(v)
}

/// Relies on serde_json::Error's message rendering.
#[verifier::external_body]
fn json_error_message(e: &serde_json::Error) -> (r: String) {
    e.to_string()
}

/// Parses a structured document from text. Succeeds exactly on well-formed
/// JSON, yielding the parser's document for that text; a malformed text
/// yields a serialization error.
pub fn parse_structured(text: &str) -> (r: Result<serde_json::Value, HibiscusError>)
    ensures
        r is Ok <==> json_wf(text@),
        r is Ok ==> r->Ok_0 == json_value_of(text@),
        r is Err ==> r->Err_0 is Serialization,
{
    match json_from_str(text) {
        Ok(v) => Ok(v),
        Err(e) => Err(HibiscusError::Serialization(json_error_message(&e))),
    }
}

/// Serializes a structured document: always succeeds for a document value,
/// yielding exactly the serializer's pretty-printed text for it.
pub fn serialize_structured(v: &serde_json::Value) -> (r: Result<String, HibiscusError>)
    ensures
        r is Ok,
        r->Ok_0@ == pretty_text_of(*v),
{
    match json_to_pretty(v) {
        Ok(s) => Ok(s),
        Err(e) => Err(HibiscusError::Serialization(json_error_message(&e))),
    }
}

} // verus!
