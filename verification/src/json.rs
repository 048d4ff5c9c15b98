//! The trusted surface over serde_json, which does the JSON text parsing.
//! A parsed document is an opaque `serde_json::Value`; the spec-level model
//! `Json` names what such a value holds, and `parsed_json` names what a given
//! string parses to. Every verified decoding step works against these names.

use vstd::prelude::*;
use serde_json::Value;

verus! {

#[verifier::external_type_specification]
#[verifier::external_body]
pub struct ExValue(Value);

/// Spec-level model of a JSON document.
///
/// `Int` stands for an integer number representable in a signed 64-bit word;
/// every other number — fractional, or out of that range — is `OtherNum`.
pub enum Json {
    Null,
    Bool(bool),
    Int(int),
    OtherNum,
    Str(Seq<char>),
    Arr(Seq<Json>),
    Obj(Map<Seq<char>, Json>),
}

/// What a parsed `serde_json::Value` holds.
pub uninterp spec fn json_of(v: Value) -> Json;

/// What a string parses to: `None` when it is not valid JSON. Parsing is a
/// function of the text alone.
pub uninterp spec fn parsed_json(s: Seq<char>) -> Option<Json>;

/// Relies on `serde_json::from_str::<Value>`: parses the text as one JSON
/// document, or fails; the outcome depends on the text alone.
#[verifier::external_body]
pub(crate) fn parse_value(s: &str) -> (r: Option<Value>)
    ensures
        match r {
            Some(v) => parsed_json(s@) == Some(json_of(v)),
            None => parsed_json(s@) is None,
        },
{
    serde_json::from_str(s).ok()
}

/// Relies on `serde_json::Value::get` with a string index: looks the key up
/// when the value is an object, and is `None` otherwise.
#[verifier::external_body]
pub(crate) fn value_get<'a>(v: &'a Value, key: &str) -> (r: Option<&'a Value>)
    ensures
        match json_of(*v) {
            Json::Obj(m) => {
                if m.contains_key(key@) {
                    r matches Some(w) && json_of(*w) == m[key@]
                } else {
                    r is None
                }
            },
            _ => r is None,
        },
{
    v.get(key)
}

/// Relies on `serde_json::Value::as_str`: the borrowed text when the value
/// is a string, `None` otherwise.
#[verifier::external_body]
pub(crate) fn value_as_str<'a>(v: &'a Value) -> (r: Option<&'a str>)
    ensures
        match json_of(*v) {
            Json::Str(s) => r matches Some(t) && t@ == s,
            _ => r is None,
        },
{
    v.as_str()
}

/// Relies on `serde_json::Value::as_i64`: the number when the value is an
/// integer in the signed 64-bit range, `None` otherwise.
#[verifier::external_body]
pub(crate) fn value_as_i64(v: &Value) -> (r: Option<i64>)
    ensures
        match json_of(*v) {
            Json::Int(n) => r matches Some(m) && m as int == n,
            _ => r is None,
        },
{
    v.as_i64()
}

/// Relies on `serde_json::Value::as_array`: the element vector when the
/// value is an array, `None` otherwise.
#[verifier::external_body]
pub(crate) fn value_as_array<'a>(v: &'a Value) -> (r: Option<&'a Vec<Value>>)
    ensures
        match json_of(*v) {
            Json::Arr(elems) => r matches Some(a) && a@.map_values(|x: Value| json_of(x))
                == elems,
            _ => r is None,
        },
{
    v.as_array()
}

} // verus!
