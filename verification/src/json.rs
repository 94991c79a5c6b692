//! The JSON values that job payloads carry, and the calls that write, read and compare them.
use vstd::prelude::*;

verus! {

/// A JSON value, carried through unread.
#[verifier::external_type_specification]
#[verifier::external_body]
pub struct ExJsonValue(serde_json::Value);

/// A JSON error, carried through unread.
#[verifier::external_type_specification]
#[verifier::external_body]
pub struct ExJsonError(serde_json::Error);

/// Calls `serde_json::to_string` on a JSON value. Nothing is stated of the text.
#[verifier::external_body]
pub(crate) fn json_to_text(value: &serde_json::Value) -> (r: Result<String, serde_json::Error>) {
    serde_json::to_string(value)
}

/// Calls `serde_json::from_str` to read a JSON value. Nothing is stated of the value.
#[verifier::external_body]
pub(crate) fn json_from_text(text: &str) -> (r: Result<serde_json::Value, serde_json::Error>) {
    serde_json::from_str(text)
}

/// Calls the derived `PartialEq` of `serde_json::Value`, which compares two values structurally.
/// The values are opaque here, so only reflexivity is stated: a value equals itself (a `Value`
/// holds no NaN, since `Number` refuses non-finite floats). What it answers on two different
/// values is left unsaid.
#[verifier::external_body]
pub(crate) fn json_values_equal(a: &serde_json::Value, b: &serde_json::Value) -> (r: bool)
    ensures
        a == b ==> r,
{
    a == b
}

/// Calls `Display` of `serde_json::Error`.
#[verifier::external_body]
pub(crate) fn json_error_text(error: &serde_json::Error) -> (r: String) {
    error.to_string()
}

} // verus!
