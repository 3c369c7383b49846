//! A plain model of JSON documents, and the parser that fills it.
use vstd::prelude::*;

verus! {

/// `serde_json::Value`, carried through the parser only.
#[verifier::external_type_specification]
#[verifier::external_body]
pub struct ExSerdeJsonValue(serde_json::Value);

/// A parsed JSON document. Numbers keep their textual form; an object keeps
/// its members as (key, value) pairs with distinct keys.
#[derive(Debug)]
pub enum JsonValue {
    Null,
    Bool(bool),
    Number(String),
    Str(String),
    Array(Vec<JsonValue>),
    Object(Vec<(String, JsonValue)>),
}

/// The first member of `entries` whose key is `key`.
pub open spec fn member(entries: Seq<(String, JsonValue)>, key: Seq<char>) -> Option<JsonValue>
    decreases entries.len(),
{
    if entries.len() == 0 {
        None
    } else if entries[0].0@ == key {
        Some(entries[0].1)
    } else {
        member(entries.drop_first(), key)
    }
}

/// The member `key` of `v`, when `v` is an object that has one.
pub open spec fn json_get(v: JsonValue, key: Seq<char>) -> Option<JsonValue> {
    match v {
        JsonValue::Object(entries) => member(entries@, key),
        _ => None,
    }
}

/// The text of the member `key` of `v`, when it is a string.
pub open spec fn str_at(v: JsonValue, key: Seq<char>) -> Option<Seq<char>> {
    match json_get(v, key) {
        Some(JsonValue::Str(s)) => Some(s@),
        _ => None,
    }
}

/// The elements of the member `key` of `v`, when it is an array.
pub open spec fn array_at(v: JsonValue, key: Seq<char>) -> Option<Seq<JsonValue>> {
    match json_get(v, key) {
        Some(JsonValue::Array(items)) => Some(items@),
        _ => None,
    }
}

/// The document that `serde_json` reads from the bytes, with `None` where it
/// refuses them.
pub uninterp spec fn json_parsed(b: Seq<u8>) -> Option<JsonValue>;

/// Relies on `serde_json::from_slice::<serde_json::Value>`: parses one JSON
/// document from bytes; the result is carried over into `JsonValue` member
/// by member.
#[verifier::external_body]
pub(crate) fn parse_json(b: &[u8]) -> (r: Option<JsonValue>)
    ensures
        r == json_parsed(b@),
{
    serde_json::from_slice::<serde_json::Value>(b).ok().map(json_from_serde)
}

/// Carries a `serde_json::Value` over into `JsonValue`, variant by variant;
/// part of `parse_json`. Relies on `serde_json::Number`'s `Display` for the
/// text of a number and on `serde_json::Map::into_iter` for the members of
/// an object.
#[verifier::external_body]
fn json_from_serde(v: serde_json::Value) -> JsonValue {
    match v {
        serde_json::Value::Null => JsonValue::Null,
        serde_json::Value::Bool(b) => JsonValue::Bool(b),
        serde_json::Value::Number(n) => JsonValue::Number(n.to_string()),
        serde_json::Value::String(s) => JsonValue::Str(s),
        serde_json::Value::Array(a) => JsonValue::Array(a.into_iter().map(json_from_serde).collect()),
        serde_json::Value::Object(o) => JsonValue::Object(
            o.into_iter().map(|(k, x)| (k, json_from_serde(x))).collect(),
        ),
    }
}

/// Looks up the member `key` of `v`.
pub fn get_member<'a>(v: &'a JsonValue, key: &String) -> (r: Option<&'a JsonValue>)
    ensures
        match r {
            Some(x) => json_get(*v, key@) == Some(*x),
            None => json_get(*v, key@) is None,
        },
{
    match v {
        JsonValue::Object(entries) => {
            let mut i: usize = 0;
            assert(entries@.skip(0) =~= entries@);
            while i < entries.len()
                invariant
                    0 <= i <= entries.len(),
                    json_get(*v, key@) == member(entries@, key@),
                    member(entries@, key@) == member(entries@.skip(i as int), key@),
                decreases entries.len() - i,
            {
                proof {
                    let rest = entries@.skip(i as int);
                    assert(rest[0] == entries@[i as int]);
                    assert(rest.drop_first() =~= entries@.skip(i + 1));
                }
                if entries[i].0 == *key {
                    assert(member(entries@.skip(i as int), key@) == Some(entries@[i as int].1));
                    let found = &entries[i].1;
                    return Some(found);
                }
                i = i + 1;
            }
            None
        },
        _ => None,
    }
}

/// Looks up the member `key` of `v`, when it is a string.
pub fn get_str<'a>(v: &'a JsonValue, key: &String) -> (r: Option<&'a String>)
    ensures
        match r {
            Some(s) => str_at(*v, key@) == Some(s@),
            None => str_at(*v, key@) is None,
        },
{
    match get_member(v, key) {
        Some(JsonValue::Str(s)) => Some(s),
        _ => None,
    }
}

/// Looks up the member `key` of `v`, when it is an array.
pub fn get_array<'a>(v: &'a JsonValue, key: &String) -> (r: Option<&'a Vec<JsonValue>>)
    ensures
        match r {
            Some(a) => array_at(*v, key@) == Some(a@),
            None => array_at(*v, key@) is None,
        },
{
    match get_member(v, key) {
        Some(JsonValue::Array(a)) => Some(a),
        _ => None,
    }
}

} // verus!
