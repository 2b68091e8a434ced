//! The bridge to `serde_json`: JSON text from values, and values from JSON text.

use vstd::prelude::*;

use crate::json::{Json, JsonView, Number};

verus! {

#[verifier::external_type_specification]
#[verifier::external_body]
pub struct ExValue(serde_json::Value);

/// The compact text of a JSON value.
pub uninterp spec fn json_text_of(value: JsonView) -> Seq<char>;

/// How Rust's debug format writes a string: quoted, with escapes.
pub uninterp spec fn quoted_text(text: Seq<char>) -> Seq<char>;

/// A number as `serde_json::Value`; one that is no integer is read from its notation with
/// `str::parse`, and made by `serde_json::Number::from_f64`. Nothing is claimed of the result.
#[verifier::external_body]
fn to_number(number: &Number) -> (r: serde_json::Value) {
    match number {
        Number::PosInt(n) => serde_json::Value::from(*n),
        Number::NegInt(n) => serde_json::Value::from(*n),
        Number::Float(t) => t.parse().ok().and_then(serde_json::Number::from_f64).map_or(
            serde_json::Value::Null,
            serde_json::Value::Number,
        ),
    }
}

/// A value as `serde_json::Value`, one for one. Nothing is claimed of the result.
#[verifier::external_body]
pub(crate) fn to_value(json: &Json) -> (r: serde_json::Value) {
    match json {
        Json::Null => serde_json::Value::Null,
        Json::Bool(b) => serde_json::Value::Bool(*b),
        Json::Number(n) => to_number(n),
        Json::String(s) => serde_json::Value::String(s.clone()),
        Json::Array(v) => serde_json::Value::Array(v.iter().map(to_value).collect()),
        Json::Object(e) => serde_json::Value::Object(
            e.iter().map(|(k, v)| (k.clone(), to_value(v))).collect(),
        ),
    }
}

/// A number of `serde_json::Value`; one that is no integer by its notation. Nothing is claimed of
/// the result.
#[verifier::external_body]
fn from_number(value: &serde_json::Value) -> (r: Number) {
    match (value.as_u64(), value.as_i64()) {
        (Some(u), _) => Number::PosInt(u),
        (None, Some(i)) => Number::NegInt(i),
        (None, None) => Number::Float(value.to_string()),
    }
}

/// A `serde_json::Value` as a value, one for one.
/// Nothing is claimed of the result.
#[verifier::external_body]
pub(crate) fn from_value(value: &serde_json::Value) -> (r: Json) {
    match value {
        serde_json::Value::Null => Json::Null,
        serde_json::Value::Bool(b) => Json::Bool(*b),
        serde_json::Value::Number(_) => Json::Number(from_number(value)),
        serde_json::Value::String(s) => Json::String(s.clone()),
        serde_json::Value::Array(v) => Json::Array(v.iter().map(from_value).collect()),
        serde_json::Value::Object(m) => Json::Object(
            m.iter().map(|(k, v)| (k.clone(), from_value(v))).collect(),
        ),
    }
}

/// The value that JSON text denotes, or what is wrong with it.
pub uninterp spec fn json_of(bytes: Seq<u8>) -> Result<JsonView, Seq<char>>;

/// Reads JSON text with `serde_json::from_slice`. The outcome is a function of the text:
/// [`json_of`].
#[verifier::external_body]
pub(crate) fn parse_json(bytes: &[u8]) -> (r: Result<Json, String>)
    ensures
        match r {
            Ok(value) => json_of(bytes@) == Ok::<JsonView, Seq<char>>(value@),
            Err(message) => json_of(bytes@) == Err::<JsonView, Seq<char>>(message@),
        },
{
    match serde_json::from_slice::<serde_json::Value>(bytes) {
        Ok(value) => Ok(from_value(&value)),
        Err(e) => Err(e.to_string()),
    }
}

/// How Rust's debug format writes a JSON value.
pub uninterp spec fn json_debug_of(value: JsonView) -> Seq<char>;

/// Writes a value with `serde_json::Value`'s `Debug`. The text is a function of the value:
/// [`json_debug_of`].
#[verifier::external_body]
pub(crate) fn json_debug(json: &Json) -> (text: String)
    ensures
        text@ == json_debug_of(json@),
{
    format!("{:?}", to_value(json))
}

/// Renders a value with `serde_json::Value`'s `Display`. The text is a function of the value:
/// [`json_text_of`].
#[verifier::external_body]
pub(crate) fn json_text(json: &Json) -> (text: String)
    ensures
        text@ == json_text_of(json@),
{
    to_value(json).to_string()
}

/// Writes a string in Rust's debug format. The result is a function of the string:
/// [`quoted_text`].
#[verifier::external_body]
pub(crate) fn quoted(text: &str) -> (r: String)
    ensures
        r@ == quoted_text(text@),
{
    format!("{:?}", text)
}

} // verus!
