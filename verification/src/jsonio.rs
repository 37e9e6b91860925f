//! The decoding edge. An incoming payload line is handed to serde_json once,
//! here, and comes back as the crate's own document model; everything after
//! that point is verified code. Pretty-printing for display goes through the
//! same crate.

use vstd::prelude::*;

use crate::json::JsonValue;

verus! {

/// Declares serde_json::Value so the conversion below may take it; the
/// type stays opaque here.
#[verifier::external_type_specification]
#[verifier::external_body]
pub struct ExSerdeValue(serde_json::Value);

/// What decoding a payload line yields: the document model of the line when
/// it is well-formed JSON, and nothing otherwise. Decoding is a function of
/// the text alone.
pub uninterp spec fn spec_decoded_json(s: Seq<char>) -> Option<JsonValue>;

/// Relies on serde_json::Value's variant accessors: each arm moves one
/// variant of the decoded tree into the crate's own document model. Numbers
/// keep serde_json's decimal rendering as their lexeme; object member order
/// is kept as decoded.
#[verifier::external_body]
fn value_to_model(v: serde_json::Value) -> JsonValue {
    match v {
        serde_json::Value::Null => JsonValue::Null,
        serde_json::Value::Bool(b) => JsonValue::Bool(b),
        serde_json::Value::Number(n) => JsonValue::Num(n.to_string()),
        serde_json::Value::String(s) => JsonValue::Str(s),
        serde_json::Value::Array(items) => JsonValue::Arr(
            items.into_iter().map(value_to_model).collect(),
        ),
        serde_json::Value::Object(fields) => JsonValue::Obj(
            fields.into_iter().map(|p| (p.0, value_to_model(p.1))).collect(),
        ),
    }
}

/// Relies on serde_json::from_str::<serde_json::Value>: it returns `Ok`
/// exactly on well-formed JSON text within the parser's nesting limit, and
/// the value it returns depends on the text alone, so decoding is the fixed
/// function `spec_decoded_json`.
#[verifier::external_body]
pub fn decode_json(s: &str) -> (r: Option<JsonValue>)
    ensures
        r == spec_decoded_json(s@),
{
    match serde_json::from_str::<serde_json::Value>(s) {
        Ok(v) => Some(value_to_model(v)),
        Err(_) => None,
    }
}

/// What pretty-printing a JSON text yields: the multi-line rendering of the
/// document when the text is well-formed JSON, and nothing otherwise. The
/// result is a function of the text alone.
pub uninterp spec fn spec_pretty_json(s: Seq<char>) -> Option<Seq<char>>;

/// Relies on serde_json::from_str and serde_json::to_string_pretty: parsing
/// fails exactly on malformed text, and both are functions of the text
/// alone, so their composition is the fixed function `spec_pretty_json`.
#[verifier::external_body]
pub fn format_json(json_string: &str) -> (r: Option<String>)
    ensures
        match r {
            Some(p) => spec_pretty_json(json_string@) == Some(p@),
            None => spec_pretty_json(json_string@) is None,
        },
{
    let data: serde_json::Value = match serde_json::from_str(json_string) {
        Ok(v) => v,
        Err(_) => {
            return None;
        },
    };
    serde_json::to_string_pretty(&data).ok()
}

} // verus!
