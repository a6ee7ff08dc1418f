//! JSON documents, as `serde_json` holds them.
//!
//! A [`serde_json::Value`] stays what it is; [`Json`] says what one holds. The functions here
//! are the only places that touch such a value, and each states what it does to that content.

use vstd::prelude::*;

verus! {

/// A JSON document.
#[verifier::external_type_specification]
#[verifier::external_body]
pub struct ExValue(serde_json::Value);

/// Why bytes are no JSON document.
#[verifier::external_type_specification]
#[verifier::external_body]
pub struct ExError(serde_json::Error);

/// The members of an object.
#[verifier::external_type_specification]
#[verifier::external_body]
#[verifier::reject_recursive_types(K)]
#[verifier::reject_recursive_types(V)]
pub struct ExMap<K, V>(serde_json::Map<K, V>);

/// What a JSON document holds.
pub enum Json {
    Null,
    Bool(bool),
    /// A number: how it is written, and its value where that is a whole number of 64 bits
    /// without a sign.
    Number { written: Seq<char>, whole: Option<u64> },
    Text(Seq<char>),
    Array(Seq<Json>),
    Object(Map<Seq<char>, Json>),
}

/// The content of a `serde_json::Value`.
pub uninterp spec fn json_of(v: serde_json::Value) -> Json;

/// The content of a `serde_json::Map`.
pub uninterp spec fn members_of(m: serde_json::Map<String, serde_json::Value>) -> Map<
    Seq<char>,
    Json,
>;

/// What `serde_json::from_slice` reads into a `Value`, or `None` where it reports an error.
pub uninterp spec fn parsed(bytes: Seq<u8>) -> Option<Json>;

/// The compact text that `serde_json::Value` displays as.
pub uninterp spec fn shown(doc: Json) -> Seq<char>;

/// The contents of several documents.
pub open spec fn all_of(list: Seq<serde_json::Value>) -> Seq<Json> {
    list.map_values(|v: serde_json::Value| json_of(v))
}

/// The member of an object that has a given key.
pub open spec fn member(doc: Json, key: Seq<char>) -> Option<Json> {
    match doc {
        Json::Object(m) => if m.contains_key(key) {
            Some(m[key])
        } else {
            None
        },
        _ => None,
    }
}

/// The whole number that a document is.
pub open spec fn whole(doc: Json) -> Option<u64> {
    match doc {
        Json::Number { whole, .. } => whole,
        _ => None,
    }
}

/// A document with a member taken out. Only an object has any.
pub open spec fn without(doc: Json, key: Seq<char>) -> Json {
    match doc {
        Json::Object(m) => Json::Object(m.remove(key)),
        other => other,
    }
}

/// A document with a text as one of its members. Only an object can take one.
pub open spec fn with_text(doc: Json, key: Seq<char>, text: Seq<char>) -> Json {
    match doc {
        Json::Object(m) => Json::Object(m.insert(key, Json::Text(text))),
        other => other,
    }
}

/// `serde_json::from_slice` into a `Value`: what it reads depends on the bytes alone.
#[verifier::external_body]
pub(crate) fn parse(bytes: &[u8]) -> (r: Result<serde_json::Value, serde_json::Error>)
    ensures
        match r {
            Ok(v) => parsed(bytes@) == Some(json_of(v)),
            Err(_) => parsed(bytes@) is None,
        },
{
    serde_json::from_slice(bytes)
}

/// `Value::get` with a text: the member of that key, where the value is an object that has it.
#[verifier::external_body]
pub(crate) fn get<'a>(v: &'a serde_json::Value, key: &str) -> (r: Option<&'a serde_json::Value>)
    ensures
        match r {
            Some(x) => member(json_of(*v), key@) == Some(json_of(*x)),
            None => member(json_of(*v), key@) is None,
        },
{
    v.get(key)
}

/// `Value::as_array`: the elements, where the value is an array.
#[verifier::external_body]
pub(crate) fn elements<'a>(v: &'a serde_json::Value) -> (r: Option<&'a Vec<serde_json::Value>>)
    ensures
        match r {
            Some(list) => json_of(*v) == Json::Array(all_of(list@)),
            None => json_of(*v) !is Array,
        },
{
    v.as_array()
}

/// `Value::as_u64`: the number, where the value is a whole one of 64 bits without a sign.
#[verifier::external_body]
pub(crate) fn as_whole(v: &serde_json::Value) -> (r: Option<u64>)
    ensures
        r == whole(json_of(*v)),
{
    v.as_u64()
}

/// `Value::as_str`: the text, where the value is one.
#[verifier::external_body]
pub(crate) fn as_text<'a>(v: &'a serde_json::Value) -> (r: Option<&'a str>)
    ensures
        match r {
            Some(s) => json_of(*v) == Json::Text(s@),
            None => json_of(*v) !is Text,
        },
{
    v.as_str()
}

/// `Value::is_null`.
#[verifier::external_body]
pub(crate) fn is_null(v: &serde_json::Value) -> (r: bool)
    ensures
        r == (json_of(*v) is Null),
{
    v.is_null()
}

/// `Value::as_object`: the members, where the value is an object.
#[verifier::external_body]
pub(crate) fn as_object<'a>(v: &'a serde_json::Value) -> (r: Option<
    &'a serde_json::Map<String, serde_json::Value>,
>)
    ensures
        match r {
            Some(m) => json_of(*v) == Json::Object(members_of(*m)),
            None => json_of(*v) !is Object,
        },
{
    v.as_object()
}

/// `Map::is_empty`: whether there are no members.
#[verifier::external_body]
pub(crate) fn is_empty(m: &serde_json::Map<String, serde_json::Value>) -> (r: bool)
    ensures
        r == (members_of(*m) == Map::<Seq<char>, Json>::empty()),
{
    m.is_empty()
}

/// `Map::remove` on an object: takes the member of a key out of it and returns it. Any other
/// value has no members, and stays as it is.
#[verifier::external_body]
pub(crate) fn take_member(v: &mut serde_json::Value, key: &str) -> (r: Option<serde_json::Value>)
    ensures
        json_of(*final(v)) == without(json_of(*old(v)), key@),
        match r {
            Some(x) => member(json_of(*old(v)), key@) == Some(json_of(x)),
            None => member(json_of(*old(v)), key@) is None,
        },
{
    match v {
        serde_json::Value::Object(o) => o.remove(key),
        _ => None,
    }
}

/// `Map::insert` on an object: puts a text into it, in place of an earlier member of that key.
/// Any other value stays as it is.
#[verifier::external_body]
pub(crate) fn put_text(v: &mut serde_json::Value, key: &str, text: &str)
    ensures
        json_of(*final(v)) == with_text(json_of(*old(v)), key@, text@),
{
    if let serde_json::Value::Object(o) = v {
        o.insert(key.to_owned(), serde_json::Value::String(text.to_owned()));
    }
}

/// `Value::clone`: a document with the same content.
#[verifier::external_body]
pub(crate) fn copy(v: &serde_json::Value) -> (r: serde_json::Value)
    ensures
        json_of(r) == json_of(*v),
{
    v.clone()
}

/// `Value::to_string`: the compact text of a document.
#[verifier::external_body]
pub(crate) fn show(v: &serde_json::Value) -> (r: String)
    ensures
        r@ == shown(json_of(*v)),
{
    v.to_string()
}

} // verus!
