//! JSON values as the library reads and writes them. The values themselves are
//! `serde_json` values: parsing, serialising and the value operations are calls into
//! `serde_json`, each stated over `JsonModel`, the mathematical JSON value a
//! `serde_json::Value` holds.
use vstd::prelude::*;
use serde_json::{Number, Value};

verus! {

#[verifier::external_type_specification]
#[verifier::external_body]
pub struct ExValue(serde_json::Value);

#[verifier::external_type_specification]
#[verifier::external_body]
pub struct ExNumber(serde_json::Number);

#[verifier::external_type_specification]
#[verifier::external_body]
#[verifier::reject_recursive_types(K)]
#[verifier::reject_recursive_types(V)]
pub struct ExJsonMap<K, V>(serde_json::Map<K, V>);

/// A `serde_json` object map.
pub type JsonObject = serde_json::Map<String, Value>;

/// A JSON value: numbers stay `serde_json` numbers, objects map member names to values.
pub enum JsonModel {
    Null,
    Bool(bool),
    Number(Number),
    Str(Seq<char>),
    Array(Seq<JsonModel>),
    Object(Map<Seq<char>, JsonModel>),
}

/// The JSON value that a `serde_json::Value` holds.
pub uninterp spec fn json_value_model(value: Value) -> JsonModel;

/// The members of a `serde_json` object map.
pub uninterp spec fn json_map_model(map: JsonObject) -> Map<Seq<char>, JsonModel>;

/// The JSON value `serde_json::from_str` reads from a text, or `None` when it refuses the text.
pub uninterp spec fn json_text_value(text: Seq<char>) -> Option<JsonModel>;

/// The text `serde_json::to_string_pretty` writes for a JSON value. (Object members are
/// written in the order of their names: `serde_json`'s map keeps them sorted unless its
/// `preserve_order` feature is on, which this crate does not turn on.)
pub uninterp spec fn json_pretty_text(value: JsonModel) -> Seq<char>;

/// The integer `serde_json::Number::as_i64` reads from a number, if it is one that fits.
pub uninterp spec fn json_number_i64(number: Number) -> Option<i64>;

/// The members of an empty object.
pub open spec fn no_members() -> Map<Seq<char>, JsonModel> {
    Map::empty()
}

/// The number `From<i64> for serde_json::Number` gives for an integer.
pub uninterp spec fn json_number_from(n: i64) -> Number;

/// The member `key` of an object, as `serde_json::Value::get` finds it.
pub open spec fn json_member(value: JsonModel, key: Seq<char>) -> Option<JsonModel> {
    match value {
        JsonModel::Object(members) => if members.dom().contains(key) {
            Some(members[key])
        } else {
            None
        },
        _ => None,
    }
}

/// The text of a string value.
pub open spec fn json_text(value: Option<JsonModel>) -> Option<Seq<char>> {
    match value {
        Some(JsonModel::Str(text)) => Some(text),
        _ => None,
    }
}

/// The integer of a number value that fits in `i64`.
pub open spec fn json_i64(value: Option<JsonModel>) -> Option<i64> {
    match value {
        Some(JsonModel::Number(n)) => json_number_i64(n),
        _ => None,
    }
}

/// The models of a vector of values.
pub open spec fn json_values_model(values: Seq<Value>) -> Seq<JsonModel> {
    Seq::new(values.len(), |i: int| json_value_model(values[i]))
}

/// A `serde_json::Value` taken apart into its variant and its contents.
pub enum JsonParts {
    Null,
    Bool(bool),
    Number(Number),
    Str(String),
    Array(Vec<Value>),
    Object(JsonObject),
}

/// The JSON value that parts make up.
pub open spec fn json_parts_model(parts: JsonParts) -> JsonModel {
    match parts {
        JsonParts::Null => JsonModel::Null,
        JsonParts::Bool(b) => JsonModel::Bool(b),
        JsonParts::Number(n) => JsonModel::Number(n),
        JsonParts::Str(s) => JsonModel::Str(s@),
        JsonParts::Array(items) => JsonModel::Array(json_values_model(items@)),
        JsonParts::Object(members) => JsonModel::Object(json_map_model(members)),
    }
}

/// Parses a JSON text.
/// Calls `serde_json::from_str::<Value>`: the value is the one the text holds, and
/// the call fails exactly when `json_text_value` gives none; the error message is
/// `serde_json`'s and is not stated.
#[verifier::external_body]
pub(crate) fn parse_json(text: &str) -> (r: Result<Value, String>)
    ensures
        r is Ok <==> json_text_value(text@) is Some,
        r matches Ok(v) ==> json_text_value(text@) == Some(json_value_model(v)),
{
    match serde_json::from_str::<Value>(text) {
        Ok(value) => Ok(value),
        Err(error) => Err(error.to_string()),
    }
}

/// Writes a JSON value as indented text.
/// Calls `serde_json::to_string_pretty`, which fails only when a `Serialize` impl fails
/// or a map has keys that are not strings; neither happens for a `Value`, so the call
/// succeeds, with the text `json_pretty_text` of the value.
#[verifier::external_body]
pub(crate) fn json_to_pretty_text(value: &Value) -> (r: Result<String, String>)
    ensures
        r is Ok,
        r matches Ok(text) ==> text@ == json_pretty_text(json_value_model(*value)),
{
    match serde_json::to_string_pretty(value) {
        Ok(text) => Ok(text),
        Err(error) => Err(error.to_string()),
    }
}

/// The member `key` of an object value.
/// Calls `serde_json::Value::get` with a string key: the member when the value is an
/// object that has it, else nothing.
#[verifier::external_body]
pub(crate) fn json_get<'a>(value: &'a Value, key: &str) -> (r: Option<&'a Value>)
    ensures
        match r {
            Some(member) => json_member(json_value_model(*value), key@) == Some(
                json_value_model(*member),
            ),
            None => json_member(json_value_model(*value), key@) is None,
        },
{
    value.get(key)
}

/// The text of a string value.
/// Calls `serde_json::Value::as_str`: the text when the value is a string, else nothing.
#[verifier::external_body]
pub(crate) fn json_as_str(value: &Value) -> (r: Option<&str>)
    ensures
        match r {
            Some(text) => json_value_model(*value) == JsonModel::Str(text@),
            None => !(json_value_model(*value) is Str),
        },
{
    value.as_str()
}

/// The integer of a number value.
/// Calls `serde_json::Value::as_i64`: for a number, what `Number::as_i64` reads from it;
/// for any other value, nothing.
#[verifier::external_body]
pub(crate) fn json_as_i64(value: &Value) -> (r: Option<i64>)
    ensures
        r == json_i64(Some(json_value_model(*value))),
{
    value.as_i64()
}

/// The items of an array value.
/// Calls `serde_json::Value::as_array`: the items when the value is an array, else nothing.
#[verifier::external_body]
pub(crate) fn json_as_array(value: &Value) -> (r: Option<&Vec<Value>>)
    ensures
        match r {
            Some(items) => json_value_model(*value) == JsonModel::Array(json_values_model(items@)),
            None => !(json_value_model(*value) is Array),
        },
{
    value.as_array()
}

/// The members of an object value.
/// Calls `serde_json::Value::as_object`: the map when the value is an object (a
/// finite map), else nothing.
#[verifier::external_body]
pub(crate) fn json_as_object(value: &Value) -> (r: Option<&JsonObject>)
    ensures
        match r {
            Some(members) => json_value_model(*value) == JsonModel::Object(json_map_model(*members))
                && json_map_model(*members).dom().finite(),
            None => !(json_value_model(*value) is Object),
        },
{
    value.as_object()
}

/// The members of an object map, each as its name and its value.
/// Calls `serde_json::Map::iter`, which yields every member once, under its own name.
#[verifier::external_body]
pub(crate) fn json_map_entries(members: &JsonObject) -> (r: Vec<(&String, &Value)>)
    ensures
        forall|i: int|
            0 <= i < r@.len() ==> json_map_model(*members).dom().contains((#[trigger] r@[i]).0@)
                && json_map_model(*members)[r@[i].0@] == json_value_model(*r@[i].1),
        forall|k: Seq<char>|
            #[trigger] json_map_model(*members).dom().contains(k) ==> exists|i: int|
                0 <= i < r@.len() && (#[trigger] r@[i]).0@ == k,
{
    members.iter().collect()
}

/// The member `key` of an object map.
/// Calls `serde_json::Map::get`: the member when the map has one of that name, else nothing.
#[verifier::external_body]
pub(crate) fn json_map_get<'a>(members: &'a JsonObject, key: &str) -> (r: Option<&'a Value>)
    ensures
        match r {
            Some(member) => json_map_model(*members).dom().contains(key@)
                && json_map_model(*members)[key@] == json_value_model(*member),
            None => !json_map_model(*members).dom().contains(key@),
        },
{
    members.get(key)
}

/// Takes a value apart.
/// Matches on the `serde_json::Value` variants and moves their contents out.
#[verifier::external_body]
pub(crate) fn json_into_parts(value: Value) -> (r: JsonParts)
    ensures
        json_parts_model(r) == json_value_model(value),
        r matches JsonParts::Object(members) ==> json_map_model(members).dom().finite(),
{
    match value {
        Value::Null => JsonParts::Null,
        Value::Bool(b) => JsonParts::Bool(b),
        Value::Number(n) => JsonParts::Number(n),
        Value::String(s) => JsonParts::Str(s),
        Value::Array(items) => JsonParts::Array(items),
        Value::Object(members) => JsonParts::Object(members),
    }
}

/// Puts a value together.
/// Builds the `serde_json::Value` variant that holds the parts.
#[verifier::external_body]
pub(crate) fn json_from_parts(parts: JsonParts) -> (r: Value)
    ensures
        json_value_model(r) == json_parts_model(parts),
{
    match parts {
        JsonParts::Null => Value::Null,
        JsonParts::Bool(b) => Value::Bool(b),
        JsonParts::Number(n) => Value::Number(n),
        JsonParts::Str(s) => Value::String(s),
        JsonParts::Array(items) => Value::Array(items),
        JsonParts::Object(members) => Value::Object(members),
    }
}

/// An empty object map.
/// Calls `serde_json::Map::new`.
#[verifier::external_body]
pub(crate) fn json_map_new() -> (r: JsonObject)
    ensures
        json_map_model(r) == no_members(),
{
    serde_json::Map::new()
}

/// Sets the member `key` of an object map.
/// Calls `serde_json::Map::insert`, which replaces a member of that name.
#[verifier::external_body]
pub(crate) fn json_map_insert(members: &mut JsonObject, key: String, value: Value)
    ensures
        json_map_model(*final(members)) == json_map_model(*old(members)).insert(
            key@,
            json_value_model(value),
        ),
{
    members.insert(key, value);
}

/// Removes the member `key` of an object map and gives it back.
/// Calls `serde_json::Map::remove`.
#[verifier::external_body]
pub(crate) fn json_map_remove(members: &mut JsonObject, key: &str) -> (r: Option<Value>)
    ensures
        json_map_model(*final(members)) == json_map_model(*old(members)).remove(key@),
        match r {
            Some(v) => json_map_model(*old(members)).dom().contains(key@) && json_map_model(
                *old(members),
            )[key@] == json_value_model(v),
            None => !json_map_model(*old(members)).dom().contains(key@),
        },
{
    members.remove(key)
}

/// A JSON number for an integer.
/// Calls `From<i64> for serde_json::Number`; `Number::as_i64` gives the integer back.
#[verifier::external_body]
pub(crate) fn json_number_from_i64(n: i64) -> (r: Number)
    ensures
        r == json_number_from(n),
        json_number_i64(r) == Some(n),
{
    Number::from(n)
}

} // verus!
