//! JSON values, carried as `serde_json::Value` and described by a model.

use vstd::prelude::*;

verus! {

/// The JSON value type of `serde_json`.
#[verifier::external_type_specification]
#[verifier::external_body]
pub struct ExValue(serde_json::Value);

/// The JSON object type of `serde_json`: members by key.
#[verifier::external_type_specification]
#[verifier::external_body]
#[verifier::reject_recursive_types(K)]
#[verifier::reject_recursive_types(V)]
pub struct ExMembers<K, V>(serde_json::Map<K, V>);

/// What a JSON value holds.
pub enum Json {
    Null,
    Bool(bool),
    Integer(int),
    /// A number that is no integer, by its printed form.
    Fraction(Seq<char>),
    Text(Seq<char>),
    Array(Seq<Json>),
    Object(Members),
}

/// The members of an object: their keys, in the order in which they are
/// written, and what stands under each.
pub struct Members {
    pub keys: Seq<Seq<char>>,
    pub values: Map<Seq<char>, Json>,
}

impl Members {
    /// These members with a value under a key: in place of what was there, or
    /// last.
    pub open spec fn insert(self, key: Seq<char>, value: Json) -> Members {
        Members {
            keys: if self.values.dom().contains(key) {
                self.keys
            } else {
                self.keys.push(key)
            },
            values: self.values.insert(key, value),
        }
    }
}

/// What a `serde_json::Value` holds.
pub uninterp spec fn json(value: serde_json::Value) -> Json;

/// What a `serde_json::Map` holds.
pub uninterp spec fn members(map: serde_json::Map<String, serde_json::Value>) -> Members;

/// The compact text of a `serde_json::Value`.
pub uninterp spec fn json_text(value: serde_json::Value) -> Seq<char>;

/// The value that `serde_json` reads from a byte sequence, if it reads one.
pub uninterp spec fn parsed_json(bytes: Seq<u8>) -> Option<Json>;

/// The contents of the elements of an array.
pub open spec fn elements(values: Seq<serde_json::Value>) -> Seq<Json> {
    values.map_values(|v: serde_json::Value| json(v))
}

/// The member of an object under a key. Other values have no members.
pub open spec fn member(value: Json, key: Seq<char>) -> Option<Json> {
    match value {
        Json::Object(map) => if map.values.dom().contains(key) {
            Some(map.values[key])
        } else {
            None
        },
        _ => None,
    }
}

/// No members.
pub open spec fn no_members() -> Members {
    Members { keys: Seq::empty(), values: Map::empty() }
}

/// `map` with a member added where there is something to add.
pub open spec fn with_some(map: Members, key: Seq<char>, value: Option<Json>) -> Members {
    match value {
        Some(v) => map.insert(key, v),
        None => map,
    }
}

/// `Value::as_str` gives the text of a JSON string, and nothing for other
/// values.
pub assume_specification[ serde_json::Value::as_str ](value: &serde_json::Value) -> (r: Option<
    &str,
>)
    ensures
        match r {
            Some(s) => json(*value) == Json::Text(s@),
            None => !(json(*value) is Text),
        },
;

/// `Value::as_array` gives the elements of a JSON array, and nothing for
/// other values.
pub assume_specification[ serde_json::Value::as_array ](value: &serde_json::Value) -> (r: Option<
    &Vec<serde_json::Value>,
>)
    ensures
        match r {
            Some(items) => json(*value) == Json::Array(elements(items@)),
            None => !(json(*value) is Array),
        },
;

/// A clone of a `Value` holds the same and prints the same.
pub assume_specification[ <serde_json::Value as Clone>::clone ](value: &serde_json::Value) -> (r:
    serde_json::Value)
    ensures
        json(r) == json(*value),
        json_text(r) == json_text(*value),
;

/// `Value::get` with a string key gives the member of an object under that
/// key, and nothing where there is none or the value is no object.
#[verifier::external_body]
pub(crate) fn get<'a>(value: &'a serde_json::Value, key: &str) -> (r: Option<&'a serde_json::Value>)
    ensures
        match r {
            Some(v) => member(json(*value), key@) == Some(json(*v)),
            None => member(json(*value), key@) is None,
        },
{
    value.get(key)
}

/// `serde_json::to_string` gives the compact text of a value. It does not fail
/// on a `Value`, whose keys are strings.
#[verifier::external_body]
pub(crate) fn text_of(value: &serde_json::Value) -> (r: String)
    ensures
        r@ == json_text(*value),
{
    serde_json::to_string(value).unwrap_or_default()
}

/// `serde_json::from_slice` reads one value from all of the bytes, or fails.
#[verifier::external_body]
pub(crate) fn parse(bytes: &[u8]) -> (r: Option<serde_json::Value>)
    ensures
        match r {
            Some(value) => parsed_json(bytes@) == Some(json(value)),
            None => parsed_json(bytes@) is None,
        },
{
    serde_json::from_slice(bytes).ok()
}

/// `Value::Null`.
#[verifier::external_body]
pub(crate) fn null() -> (r: serde_json::Value)
    ensures
        json(r) == Json::Null,
{
    serde_json::Value::Null
}

/// `Value::Bool` holds the flag.
#[verifier::external_body]
pub(crate) fn boolean(b: bool) -> (r: serde_json::Value)
    ensures
        json(r) == Json::Bool(b),
{
    serde_json::Value::Bool(b)
}

/// `Value::String` holds the characters of the string.
#[verifier::external_body]
pub(crate) fn string(s: String) -> (r: serde_json::Value)
    ensures
        json(r) == Json::Text(s@),
{
    serde_json::Value::String(s)
}

/// `Value::from` on an unsigned integer holds that integer.
#[verifier::external_body]
pub(crate) fn unsigned(n: u64) -> (r: serde_json::Value)
    ensures
        json(r) == Json::Integer(n as int),
{
    serde_json::Value::from(n)
}

/// `Value::from` on a signed integer holds that integer.
#[verifier::external_body]
pub(crate) fn signed(n: i64) -> (r: serde_json::Value)
    ensures
        json(r) == Json::Integer(n as int),
{
    serde_json::Value::from(n)
}

/// `Value::Array` holds its elements in order.
#[verifier::external_body]
pub(crate) fn array(items: Vec<serde_json::Value>) -> (r: serde_json::Value)
    ensures
        json(r) == Json::Array(elements(items@)),
{
    serde_json::Value::Array(items)
}

/// `Value::Object` holds the members of the map, in their order.
#[verifier::external_body]
pub(crate) fn object(map: serde_json::Map<String, serde_json::Value>) -> (r: serde_json::Value)
    ensures
        json(r) == Json::Object(members(map)),
{
    serde_json::Value::Object(map)
}

/// `serde_json::Map::new` holds nothing.
#[verifier::external_body]
pub(crate) fn empty() -> (r: serde_json::Map<String, serde_json::Value>)
    ensures
        members(r) == no_members(),
{
    serde_json::Map::new()
}

/// `serde_json::Map::insert` puts a value under a key, in place of what was
/// there. The map keeps the order of insertion (`serde_json` is built with
/// `preserve_order`): a new key comes last, and one that is there keeps its
/// place.
#[verifier::external_body]
pub(crate) fn put(
    map: &mut serde_json::Map<String, serde_json::Value>,
    key: &str,
    value: serde_json::Value,
)
    ensures
        members(*final(map)) == members(*old(map)).insert(key@, json(value)),
{
    map.insert(key.to_string(), value);
}

// ---- Laws ----

/// Putting a value under a key changes what stands under that key and nothing
/// else; a new key comes last, and one that is there keeps its place.
pub proof fn a_member_is_put_under_its_key(
    map: Members,
    key: Seq<char>,
    value: Json,
    other: Seq<char>,
)
    ensures
        member(Json::Object(map.insert(key, value)), key) == Some(value),
        other != key ==> member(Json::Object(map.insert(key, value)), other) == member(
            Json::Object(map),
            other,
        ),
        member(Json::Object(map), key) is None ==> map.insert(key, value).keys == map.keys + seq![
            key,
        ],
        member(Json::Object(map), key) is Some ==> map.insert(key, value).keys == map.keys,
        member(Json::Object(no_members()), key) is None,
        no_members().keys.len() == 0,
        with_some(map, key, Some(value)) == map.insert(key, value),
        with_some(map, key, None) == map,
{
    assert(map.keys.push(key) =~= map.keys + seq![key]);
}

/// Only an object has members.
pub proof fn only_objects_have_members(value: Json, key: Seq<char>)
    requires
        member(value, key) is Some,
    ensures
        value is Object,
{
}
/// The elements of an array are described in their order.
pub proof fn elements_keep_their_order(values: Seq<serde_json::Value>, i: int)
    ensures
        elements(values).len() == values.len(),
        0 <= i < values.len() ==> elements(values)[i] == json(values[i]),
{
}

} // verus!
