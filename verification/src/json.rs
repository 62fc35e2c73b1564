//! JSON values: what they hold, and the operations of `serde_json` that the library builds on.

use vstd::prelude::*;

verus! {

/// What a JSON value is.
pub ghost enum Json {
    Null,
    Bool(bool),
    /// A number without a fraction and without an exponent.
    Integer(int),
    /// Any other number, as it is written out.
    Real(Seq<char>),
    Text(Seq<char>),
    Array(Seq<Json>),
    Object(Map<Seq<char>, Json>),
}

/// A JSON value of `serde_json`.
#[verifier::external_type_specification]
#[verifier::external_body]
pub struct ExValue(serde_json::Value);

/// The collection of keys and values behind a JSON object of `serde_json`.
#[verifier::external_type_specification]
#[verifier::external_body]
#[verifier::reject_recursive_types(K)]
#[verifier::reject_recursive_types(V)]
pub struct ExMap<K, V>(serde_json::Map<K, V>);

/// What a `serde_json` value holds.
pub uninterp spec fn json_model(value: serde_json::Value) -> Json;

/// The entries of a `serde_json` object.
pub uninterp spec fn object_entries(
    map: serde_json::Map<String, serde_json::Value>,
) -> Map<Seq<char>, Json>;

/// What each of a list of `serde_json` values holds.
pub open spec fn json_models(values: Seq<serde_json::Value>) -> Seq<Json> {
    Seq::new(values.len(), |i: int| json_model(values[i]))
}

/// `serde_json::Map::new` makes a collection without entries.
pub assume_specification[ serde_json::Map::<String, serde_json::Value>::new ]() -> (r:
    serde_json::Map<String, serde_json::Value>)
    ensures
        (object_entries(r) == Map::<Seq<char>, Json>::empty()),
;

/// `serde_json::Map::insert` gives a key its value, in the place of one that it had, and leaves
/// the other entries as they are.
pub assume_specification[ serde_json::Map::<String, serde_json::Value>::insert ](
    map: &mut serde_json::Map<String, serde_json::Value>,
    k: String,
    v: serde_json::Value,
) -> (r: Option<serde_json::Value>)
    ensures
        object_entries(*final(map)) == object_entries(*old(map)).insert(k@, json_model(v)),
        r is Some <==> object_entries(*old(map)).dom().contains(k@),
        r matches Some(previous) ==> json_model(previous) == object_entries(*old(map))[k@],
;

/// `serde_json::Value::as_str` gives the text of a JSON string, and nothing for another value.
pub assume_specification[ serde_json::Value::as_str ](value: &serde_json::Value) -> (r: Option<
    &str,
>)
    ensures
        match json_model(*value) {
            Json::Text(text) => r matches Some(s) && s@ == text,
            _ => r is None,
        },
;

/// `serde_json::Value::get` with a key gives the value under it, and nothing where the value is
/// not an object or has no such key.
#[verifier::external_body]
fn json_get<'a>(value: &'a serde_json::Value, key: &str) -> (r: Option<&'a serde_json::Value>)
    ensures
        match json_model(*value) {
            Json::Object(entries) => {
                &&& r is Some <==> entries.dom().contains(key@)
                &&& r matches Some(found) ==> json_model(*found) == entries[key@]
            },
            _ => r is None,
        },
{
    value.get(key)
}

/// `serde_json::Value::Null` is the JSON `null`.
#[verifier::external_body]
pub(crate) fn json_null() -> (r: serde_json::Value)
    ensures
        json_model(r) == Json::Null,
{
    serde_json::Value::Null
}

/// `serde_json::Value::Bool` is a JSON boolean.
#[verifier::external_body]
pub(crate) fn json_bool(b: bool) -> (r: serde_json::Value)
    ensures
        json_model(r) == Json::Bool(b),
{
    serde_json::Value::Bool(b)
}

/// `serde_json::Value::from` of a `u64` is that number.
#[verifier::external_body]
pub(crate) fn json_unsigned(n: u64) -> (r: serde_json::Value)
    ensures
        json_model(r) == Json::Integer(n as int),
{
    serde_json::Value::from(n)
}

/// `serde_json::Value::from` of an `i32` is that number.
#[verifier::external_body]
pub(crate) fn json_signed(n: i32) -> (r: serde_json::Value)
    ensures
        json_model(r) == Json::Integer(n as int),
{
    serde_json::Value::from(n)
}

/// `serde_json::Value::String` is a JSON string.
#[verifier::external_body]
pub(crate) fn json_text(text: String) -> (r: serde_json::Value)
    ensures
        json_model(r) == Json::Text(text@),
{
    serde_json::Value::String(text)
}

/// `serde_json::Value::Array` is a JSON array of the given values.
#[verifier::external_body]
pub(crate) fn json_array(values: Vec<serde_json::Value>) -> (r: serde_json::Value)
    ensures
        json_model(r) == Json::Array(json_models(values@)),
{
    serde_json::Value::Array(values)
}

/// `serde_json::Value::Object` is a JSON object with the given entries.
#[verifier::external_body]
pub(crate) fn json_object(map: serde_json::Map<String, serde_json::Value>) -> (r:
    serde_json::Value)
    ensures
        json_model(r) == Json::Object(object_entries(map)),
{
    serde_json::Value::Object(map)
}

/// The text that `serde_json::to_string_pretty` writes for a JSON value.
pub uninterp spec fn pretty_json(json: Json) -> Seq<char>;

/// `serde_json::to_string_pretty`: the value written out over several lines. It cannot fail on a
/// `serde_json::Value`, whose keys are strings; the entries of an object are written in the order
/// of their keys, so that the text depends on what the value holds alone. It is JSON, so that what
/// the value holds can be told from it: no other value is written in the same way.
#[verifier::external_body]
pub(crate) fn json_pretty(value: &serde_json::Value) -> (r: String)
    ensures
        r@ == pretty_json(json_model(*value)),
        forall|other: Json| #[trigger] pretty_json(other) == r@ ==> other == json_model(*value),
{
    serde_json::to_string_pretty(value).unwrap_or_else(|_| value.to_string())
}

/// Gives a key its value.
pub(crate) fn put(
    map: &mut serde_json::Map<String, serde_json::Value>,
    key: &str,
    value: serde_json::Value,
)
    ensures
        object_entries(*final(map)) == object_entries(*old(map)).insert(key@, json_model(value)),
{
    let _ = map.insert(key.to_string(), value);
}

/// The text under a key of a JSON object, if there is one.
pub open spec fn text_under(json: Json, key: Seq<char>) -> Option<Seq<char>> {
    match json {
        Json::Object(entries) => if entries.dom().contains(key) {
            match entries[key] {
                Json::Text(text) => Some(text),
                _ => None,
            }
        } else {
            None
        },
        _ => None,
    }
}

/// The text under a key of a JSON object, if there is one.
pub fn text_field<'a>(value: &'a serde_json::Value, key: &str) -> (r: Option<&'a str>)
    ensures
        r.deep_view() == text_under(json_model(*value), key@),
{
    match json_get(value, key) {
        Some(found) => found.as_str(),
        None => None,
    }
}

/// A text as a JSON string, or `null` where there is none.
pub open spec fn text_or_null(text: Option<Seq<char>>) -> Json {
    match text {
        Some(text) => Json::Text(text),
        None => Json::Null,
    }
}

/// A number as a JSON number, or `null` where there is none.
pub open spec fn integer_or_null(n: Option<int>) -> Json {
    match n {
        Some(n) => Json::Integer(n),
        None => Json::Null,
    }
}

/// A text as a JSON string, or `null` where there is none.
pub(crate) fn optional_text(text: Option<String>) -> (r: serde_json::Value)
    ensures
        json_model(r) == text_or_null(text.deep_view()),
{
    match text {
        Some(text) => json_text(text),
        None => json_null(),
    }
}

/// The text under a key is what a JSON object holds there, where that is a text; no other value has
/// a text under a key.
pub proof fn texts_are_found_by_key(
    json: Json,
    entries: Map<Seq<char>, Json>,
    key: Seq<char>,
    text: Seq<char>,
)
    ensures
        entries.dom().contains(key) && entries[key] == Json::Text(text) <==> text_under(
            Json::Object(entries),
            key,
        ) == Some(text),
        !(json is Object) ==> text_under(json, key) is None,
{
}

} // verus!
