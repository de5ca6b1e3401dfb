//! Thin access to the `serde_json` crate: parsing a JSON document and
//! reading values out of it. The values are opaque here; the catalog
//! module turns them into plain data and works on that.

use vstd::prelude::*;

verus! {

#[verifier::external_type_specification]
#[verifier::external_body]
pub struct ExValue(serde_json::Value);

#[verifier::external_type_specification]
#[verifier::external_body]
pub struct ExJsonError(serde_json::Error);

/// Relies on serde_json::from_str with Value: parses a JSON document.
#[verifier::external_body]
pub fn parse_json(s: &str) -> Result<serde_json::Value, serde_json::Error> {
    serde_json::from_str(s)
}

/// Relies on serde_json::Value::as_array: the elements when the value is an
/// array.
#[verifier::external_body]
pub fn value_as_array(v: &serde_json::Value) -> Option<Vec<serde_json::Value>> {
    v.as_array().cloned()
}

/// Relies on serde_json::Value::get: the named member when the value is an
/// object holding it.
#[verifier::external_body]
pub fn value_get(v: &serde_json::Value, key: &str) -> Option<serde_json::Value> {
    v.get(key).cloned()
}

/// Relies on serde_json::Value::as_str: the text when the value is a
/// string.
#[verifier::external_body]
pub fn value_as_str(v: &serde_json::Value) -> Option<String> {
    v.as_str().map(|s| s.to_string())
}

/// Relies on serde_json::Value::as_bool: the flag when the value is a
/// boolean.
#[verifier::external_body]
pub fn value_as_bool(v: &serde_json::Value) -> Option<bool> {
    v.as_bool()
}

/// Relies on serde_json::Value::is_string.
#[verifier::external_body]
pub fn value_is_string(v: &serde_json::Value) -> bool {
    v.is_string()
}

/// Relies on serde_json::Value::is_null.
#[verifier::external_body]
pub fn value_is_null(v: &serde_json::Value) -> bool {
    v.is_null()
}

} // verus!
