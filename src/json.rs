//! The record document, read and written through serde_json. Its values are
//! carried through opaquely; the redaction works on the plain fields read from it.

use vstd::prelude::*;

use serde_json::Value;

use crate::input_log::views;

verus! {

#[verifier::external_type_specification]
#[verifier::external_body]
pub struct ExValue(serde_json::Value);

#[verifier::external_type_specification]
#[verifier::external_body]
#[verifier::reject_recursive_types(K)]
#[verifier::reject_recursive_types(V)]
pub struct ExMap<K, V>(serde_json::Map<K, V>);

#[verifier::external_type_specification]
#[verifier::external_body]
pub struct ExError(serde_json::Error);

/// What a JSON object holds, by key.
pub uninterp spec fn entries(m: serde_json::Map<String, Value>) -> Map<Seq<char>, Value>;

/// What serde_json reads from a text as an object, where the text is one.
pub uninterp spec fn parsed_entries(raw: Seq<char>) -> Option<Map<Seq<char>, Value>>;

/// The JSON text serde_json writes for an object.
pub uninterp spec fn json_text(m: serde_json::Map<String, Value>) -> Seq<char>;

/// The text of a JSON string value.
pub uninterp spec fn text_of(v: Value) -> Option<Seq<char>>;

/// The elements of a JSON array value.
pub uninterp spec fn items_of(v: Value) -> Option<Seq<Value>>;

/// The value is JSON null.
pub uninterp spec fn is_json_null(v: Value) -> bool;

/// The texts of a sequence of values, where each is a string.
pub open spec fn texts(items: Seq<Value>) -> Option<Seq<Seq<char>>>
    decreases items.len(),
{
    if items.len() == 0 {
        Some(Seq::empty())
    } else {
        match (texts(items.drop_last()), text_of(items.last())) {
            (Some(p), Some(s)) => Some(p.push(s)),
            _ => None,
        }
    }
}

/// Relies on serde_json::from_str: reads a JSON object, or fails on text that is
/// not one.
#[verifier::external_body]
pub(crate) fn parse_object(raw: &str) -> (r: Result<serde_json::Map<String, Value>, serde_json::Error>)
    ensures
        match r {
            Ok(m) => parsed_entries(raw@) == Some(entries(m)),
            Err(_) => parsed_entries(raw@).is_none(),
        },
{
    serde_json::from_str(raw)
}

/// Relies on serde_json::to_string, which cannot fail on an object whose keys
/// are strings.
#[verifier::external_body]
pub(crate) fn object_text(rec: &serde_json::Map<String, Value>) -> (r: String)
    ensures
        r@ == json_text(*rec),
{
    serde_json::to_string(rec).unwrap_or_default()
}

/// Relies on serde_json::Map::get: the value under `key`, if there is one.
#[verifier::external_body]
pub(crate) fn field<'a>(rec: &'a serde_json::Map<String, Value>, key: &str) -> (r: Option<&'a Value>)
    ensures
        match r {
            Some(v) => entries(*rec).contains_key(key@) && entries(*rec)[key@] == *v,
            None => !entries(*rec).contains_key(key@),
        },
{
    rec.get(key)
}

/// Relies on serde_json::Map::insert: puts `v` under `key`, replacing what was there.
#[verifier::external_body]
pub(crate) fn set_field(rec: &mut serde_json::Map<String, Value>, key: &str, v: Value)
    ensures
        entries(*final(rec)) == entries(*old(rec)).insert(key@, v),
{
    rec.insert(key.to_string(), v);
}

/// Relies on serde_json::Value::as_str: the text of a string value.
#[verifier::external_body]
pub(crate) fn value_str(v: &Value) -> (r: Option<String>)
    ensures
        match r {
            Some(s) => text_of(*v) == Some(s@),
            None => text_of(*v).is_none(),
        },
{
    v.as_str().map(String::from)
}

/// Relies on serde_json::Value::as_array: the elements of an array value.
#[verifier::external_body]
pub(crate) fn value_list(v: &Value) -> (r: Option<&Vec<Value>>)
    ensures
        match r {
            Some(l) => items_of(*v) == Some(l@),
            None => items_of(*v).is_none(),
        },
{
    v.as_array()
}

/// Relies on serde_json::Value::String: a JSON string holding `s`.
#[verifier::external_body]
pub(crate) fn string_value(s: String) -> (r: Value)
    ensures
        text_of(r) == Some(s@),
{
    Value::String(s)
}

/// Relies on serde_json::Value::Array and Value::String: a JSON array of the strings, in order.
#[verifier::external_body]
pub(crate) fn strings_value(v: Vec<String>) -> (r: Value)
    ensures
        items_of(r).is_some(),
        texts(items_of(r).unwrap()) == Some(views(v@)),
{
    Value::Array(v.into_iter().map(Value::String).collect())
}

/// Relies on serde_json::Value::Null: JSON null.
#[verifier::external_body]
pub(crate) fn null_value() -> (r: Value)
    ensures
        is_json_null(r),
{
    Value::Null
}

} // verus!
