//! JSON values: `serde_json` holds, reads and writes them; [`Json`] says what they hold.

use vstd::prelude::*;

use crate::text;

verus! {

/// What a JSON value holds. A number is a non-negative integer, a negative integer, or the
/// bits of a double.
#[verifier::ext_equal]
pub enum Json {
    Null,
    Bool(bool),
    Unsigned(u64),
    Negative(i64),
    Double(u64),
    Text(Seq<char>),
    Array(Seq<Json>),
    Object(Map<Seq<char>, Json>),
}

/// A value of `serde_json`.
#[verifier::external_type_specification]
#[verifier::external_body]
pub struct ExValue(serde_json::Value);

/// An object of `serde_json`, with its members.
#[verifier::external_type_specification]
#[verifier::external_body]
#[verifier::reject_recursive_types(K)]
#[verifier::reject_recursive_types(V)]
pub struct ExMembers<K, V>(serde_json::Map<K, V>);

/// What a value of `serde_json` holds.
pub uninterp spec fn json_of(value: serde_json::Value) -> Json;

/// The members that an object of `serde_json` holds.
pub uninterp spec fn members_of(map: serde_json::Map<String, serde_json::Value>) -> Map<
    Seq<char>,
    Json,
>;

/// What `serde_json::from_str` reads out of a text; `None` where it fails.
pub uninterp spec fn parsed(text: Seq<char>) -> Option<Json>;

/// What `serde_json::from_slice` reads out of bytes, or the text of its error where it fails.
pub uninterp spec fn parsed_bytes(bytes: Seq<u8>) -> Result<Json, Seq<char>>;

/// The compact text that `serde_json` writes for a value.
pub uninterp spec fn written(json: Json) -> Seq<char>;

/// A member of an object. Null where there is none, or where `json` is no object.
pub open spec fn member(json: Json, key: Seq<char>) -> Json {
    match json {
        Json::Object(members) => if members.contains_key(key) {
            members[key]
        } else {
            Json::Null
        },
        _ => Json::Null,
    }
}

/// The object without members.
pub open spec fn empty_object() -> Json {
    Json::Object(Map::<Seq<char>, Json>::empty())
}

/// The text, if `json` is one.
pub open spec fn text_in(json: Json) -> Option<Seq<char>> {
    match json {
        Json::Text(s) => Some(s),
        _ => None,
    }
}

/// The number, if `json` is a non-negative integer.
pub open spec fn unsigned_in(json: Json) -> Option<u64> {
    match json {
        Json::Unsigned(n) => Some(n),
        _ => None,
    }
}

/// The items, if `json` is an array.
pub open spec fn items_in(json: Json) -> Option<Seq<Json>> {
    match json {
        Json::Array(items) => Some(items),
        _ => None,
    }
}

/// `serde_json::from_str` into a value: the name [`parsed`] says what it reads and where it
/// fails.
#[verifier::external_body]
pub(crate) fn parse(text: &str) -> (r: Option<serde_json::Value>)
    ensures
        parsed(text@) == (match r {
            Some(value) => Some(json_of(value)),
            None => None,
        }),
{
    serde_json::from_str::<serde_json::Value>(text).ok()
}

/// `serde_json::from_slice` into a value: the name [`parsed_bytes`] says what it reads, and where
/// it fails with which text. The text of the error is a message with a line and a column.
#[verifier::external_body]
pub(crate) fn parse_bytes(bytes: &[u8]) -> (r: Result<serde_json::Value, String>)
    ensures
        parsed_bytes(bytes@) == (match r {
            Ok(value) => Ok(json_of(value)),
            Err(error) => Err(error@),
        }),
{
    serde_json::from_slice::<serde_json::Value>(bytes).map_err(|error| error.to_string())
}

/// `Value` indexed by a key: the member, or null where the value is no object or has no such
/// member.
#[verifier::external_body]
pub(crate) fn at<'a>(value: &'a serde_json::Value, key: &str) -> (r: &'a serde_json::Value)
    ensures
        json_of(*r) == member(json_of(*value), key@),
{
    &value[key]
}

/// `Value::as_str`: the text, if the value is one.
#[verifier::external_body]
pub(crate) fn as_str(value: &serde_json::Value) -> (r: Option<&str>)
    ensures
        text_in(json_of(*value)) == (match r {
            Some(s) => Some(s@),
            None => None,
        }),
{
    value.as_str()
}

/// `Value::as_u64`: the number, if the value is a non-negative integer.
#[verifier::external_body]
pub(crate) fn as_u64(value: &serde_json::Value) -> (r: Option<u64>)
    ensures
        r == unsigned_in(json_of(*value)),
{
    value.as_u64()
}

/// `Value::as_array`: the items, if the value is an array.
#[verifier::external_body]
pub(crate) fn as_array(value: &serde_json::Value) -> (r: Option<&Vec<serde_json::Value>>)
    ensures
        match r {
            Some(items) => {
                &&& items_in(json_of(*value)) matches Some(held)
                &&& held.len() == items@.len()
                &&& forall|i: int| 0 <= i < held.len() ==> held[i] == json_of(#[trigger] items@[i])
            },
            None => items_in(json_of(*value)) is None,
        },
{
    value.as_array()
}

/// `Value::is_object`.
#[verifier::external_body]
pub(crate) fn is_object(value: &serde_json::Value) -> (r: bool)
    ensures
        r == (json_of(*value) is Object),
{
    value.is_object()
}

/// The members of a value that is an object, moved out of the variant `Value::Object`; `None`
/// for the other variants.
#[verifier::external_body]
pub(crate) fn into_members(value: serde_json::Value) -> (r: Option<
    serde_json::Map<String, serde_json::Value>,
>)
    ensures
        match r {
            Some(map) => json_of(value) == Json::Object(members_of(map)),
            None => !(json_of(value) is Object),
        },
{
    match value {
        serde_json::Value::Object(map) => Some(map),
        _ => None,
    }
}

/// The variant `Value::Object` of the members.
#[verifier::external_body]
pub(crate) fn object(map: serde_json::Map<String, serde_json::Value>) -> (r: serde_json::Value)
    ensures
        json_of(r) == Json::Object(members_of(map)),
{
    serde_json::Value::Object(map)
}

/// `Map::new`: no members.
#[verifier::external_body]
pub(crate) fn no_members() -> (r: serde_json::Map<String, serde_json::Value>)
    ensures
        Json::Object(members_of(r)) == empty_object(),
{
    serde_json::Map::new()
}

/// `Map::insert`: sets one member.
#[verifier::external_body]
pub(crate) fn insert(
    map: &mut serde_json::Map<String, serde_json::Value>,
    key: &str,
    value: serde_json::Value,
)
    ensures
        members_of(*final(map)) == members_of(*old(map)).insert(key@, json_of(value)),
{
    map.insert(key.to_owned(), value);
}

/// `Map::entry` with `Entry::or_insert`: sets one member unless it is there already.
#[verifier::external_body]
pub(crate) fn insert_if_absent(
    map: &mut serde_json::Map<String, serde_json::Value>,
    key: &str,
    value: serde_json::Value,
)
    ensures
        members_of(*final(map)) == (if members_of(*old(map)).contains_key(key@) {
            members_of(*old(map))
        } else {
            members_of(*old(map)).insert(key@, json_of(value))
        }),
{
    map.entry(key).or_insert(value);
}

/// `Value::from` a text.
#[verifier::external_body]
pub(crate) fn string(s: &str) -> (r: serde_json::Value)
    ensures
        json_of(r) == Json::Text(s@),
{
    serde_json::Value::from(s)
}

/// `Value::from` a number.
#[verifier::external_body]
pub(crate) fn number(n: u64) -> (r: serde_json::Value)
    ensures
        json_of(r) == Json::Unsigned(n),
{
    serde_json::Value::from(n)
}

/// The variant `Value::Array` of the items.
#[verifier::external_body]
pub(crate) fn array(items: Vec<serde_json::Value>) -> (r: serde_json::Value)
    ensures
        json_of(r) == Json::Array(
            Seq::new(items@.len(), |i: int| json_of(items@[i])),
        ),
{
    serde_json::Value::Array(items)
}

/// `Value` displayed: the compact text, by the name [`written`].
#[verifier::external_body]
pub(crate) fn write(value: &serde_json::Value) -> (r: String)
    ensures
        r@ == written(json_of(*value)),
{
    value.to_string()
}

/// The JSON array of the texts.
pub open spec fn texts_json(items: Seq<Seq<char>>) -> Json {
    Json::Array(Seq::new(items.len(), |i: int| Json::Text(items[i])))
}

/// An array of texts.
pub fn texts(items: &[String]) -> (r: serde_json::Value)
    ensures
        json_of(r) == texts_json(text::views(items@)),
{
    let mut values: Vec<serde_json::Value> = Vec::new();
    for i in 0..items.len()
        invariant
            values@.len() == i,
            forall|k: int|
                0 <= k < i ==> json_of(#[trigger] values@[k]) == Json::Text(items@[k]@),
    {
        values.push(string(items[i].as_str()));
    }
    let r = array(values);
    proof {
        let held = Seq::new(values@.len(), |i: int| json_of(values@[i]));
        assert(held =~= Seq::new(
            text::views(items@).len(),
            |i: int| Json::Text(text::views(items@)[i]),
        ));
    }
    r
}

} // verus!
