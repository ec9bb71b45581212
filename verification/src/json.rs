//! JSON documents as plain values.
//!
//! Parsing is serde_json's; the parsed document is handed to the library as
//! a [`JsonValue`], which the verified code then inspects.
use vstd::prelude::*;

use crate::text::str_eq;

verus! {

/// A parsed JSON value.
///
/// `Number` holds the number as serde_json prints it. `Array` and `Object`
/// hold their elements and, last, the compact text serde_json prints for the
/// whole value. Object entries come in serde_json's iteration order and no
/// key occurs twice.
pub enum JsonValue {
    Null,
    Bool(bool),
    Number(String),
    Str(String),
    Array(Vec<JsonValue>, String),
    Object(Vec<(String, JsonValue)>, String),
}

/// The document serde_json parses from `text`, or `None` when `text` is not
/// valid JSON.
pub uninterp spec fn serde_json_document(text: Seq<char>) -> Option<JsonValue>;

/// Calls `serde_json::from_str::<serde_json::Value>` and converts the
/// document into a [`JsonValue`]. The contract claims only that the result
/// is the named document `serde_json_document(text)`.
#[verifier::external_body]
pub(crate) fn parse_json(text: &str) -> (r: Option<JsonValue>)
    ensures
        r == serde_json_document(text@),
{
    match serde_json::from_str::<serde_json::Value>(text) {
        Ok(value) => Some(from_serde(&value)),
        Err(_) => None,
    }
}

/// serde_json's parsed document type, carried through opaque.
#[verifier::external_type_specification]
#[verifier::external_body]
pub struct ExSerdeJsonValue(serde_json::Value);

/// Converts a serde_json value variant by variant; arrays and objects also
/// keep serde_json's compact text of the whole value.
#[verifier::external_body]
fn from_serde(value: &serde_json::Value) -> JsonValue {
    match value {
        serde_json::Value::Null => JsonValue::Null,
        serde_json::Value::Bool(b) => JsonValue::Bool(*b),
        serde_json::Value::Number(n) => JsonValue::Number(n.to_string()),
        serde_json::Value::String(s) => JsonValue::Str(s.clone()),
        serde_json::Value::Array(items) => JsonValue::Array(items.iter().map(from_serde).collect(), value.to_string()),
        serde_json::Value::Object(map) => JsonValue::Object(
            map.iter().map(|(k, v)| (k.clone(), from_serde(v))).collect(),
            value.to_string(),
        ),
    }
}

/// The first entry for `key` among object entries.
pub open spec fn entry_for(es: Seq<(String, JsonValue)>, key: Seq<char>) -> Option<JsonValue>
    decreases es.len(),
{
    if es.len() == 0 {
        None
    } else if es[0].0@ == key {
        Some(es[0].1)
    } else {
        entry_for(es.drop_first(), key)
    }
}

/// `value[key]` for an object, `None` for any other value (serde_json
/// `Value::get` with a string index).
pub open spec fn json_get(value: JsonValue, key: Seq<char>) -> Option<JsonValue> {
    match value {
        JsonValue::Object(es, _) => entry_for(es@, key),
        _ => None,
    }
}

/// The text of a string value (serde_json `Value::as_str`).
pub open spec fn json_as_str(value: Option<JsonValue>) -> Option<Seq<char>> {
    match value {
        Some(JsonValue::Str(s)) => Some(s@),
        _ => None,
    }
}

/// `value[key]`, as serde_json `Value::get` with a string index.
pub fn get<'a>(value: &'a JsonValue, key: &str) -> (r: Option<&'a JsonValue>)
    ensures
        match r {
            Some(v) => json_get(*value, key@) == Some(*v),
            None => json_get(*value, key@) is None,
        },
{
    match value {
        JsonValue::Object(es, _) => {
            assert(json_get(*value, key@) == entry_for(es@, key@));
            let mut i: usize = 0;
            assert(es@.skip(0) =~= es@);
            while i < es.len()
                invariant
                    0 <= i <= es.len(),
                    entry_for(es@, key@) == entry_for(es@.skip(i as int), key@),
                    json_get(*value, key@) == entry_for(es@, key@),
                decreases es.len() - i,
            {
                assert(es@.skip(i as int).drop_first() =~= es@.skip(i + 1));
                assert(es@.skip(i as int)[0] == es@[i as int]);
                if str_eq(es[i].0.as_str(), key) {
                    assert(entry_for(es@.skip(i as int), key@) == Some(es@[i as int].1));
                    return Some(&es[i].1);
                }
                i += 1;
            }
            None
        },
        _ => None,
    }
}

/// The text of a string value.
pub fn as_str(value: Option<&JsonValue>) -> (r: Option<&String>)
    ensures
        match r {
            Some(s) => json_as_str(crate::export::deref_opt(value)) == Some(s@),
            None => json_as_str(crate::export::deref_opt(value)) is None,
        },
{
    match value {
        Some(JsonValue::Str(s)) => Some(s),
        _ => None,
    }
}

} // verus!
