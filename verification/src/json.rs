//! The JSON values that this crate reads, as plain data.
//!
//! Text is parsed by `serde_json` and its `Value` tree is carried over one
//! node for one node into `Json`, on which the crate's own logic works.

use vstd::prelude::*;
use crate::text::{chars_of, chars_eq};

verus! {

/// A JSON number, as the logic reads it.
#[derive(Debug, Clone, PartialEq, Eq)]
pub struct JsonNumber {
    /// The number, when it is an integer within the `i64` range
    /// (`serde_json::Number::as_i64`).
    pub int: Option<i64>,
    /// The number as an `f64`, truncated to an `i64` with Rust's saturating
    /// `as` conversion.
    pub float_truncated: i64,
}

/// A JSON value. Object members keep the order in which `serde_json`'s map
/// yields them; their keys are distinct.
#[derive(Debug)]
pub enum Json {
    Null,
    Bool(bool),
    Number(JsonNumber),
    Str(String),
    Array(Vec<Json>),
    Object(Vec<(String, Json)>),
}

/// The value stored under `key` among object members.
pub open spec fn field_lookup(fields: Seq<(String, Json)>, key: Seq<char>) -> Option<Json>
    decreases fields.len(),
{
    if fields.len() == 0 {
        None
    } else if fields[0].0@ == key {
        Some(fields[0].1)
    } else {
        field_lookup(fields.drop_first(), key)
    }
}

/// `value.get(key)`: the member `key` of an object, `None` for anything else.
pub open spec fn json_get(j: Json, key: Seq<char>) -> Option<Json> {
    match j {
        Json::Object(fields) => field_lookup(fields@, key),
        _ => None,
    }
}

/// `json_get` lifted over an absent value.
pub open spec fn opt_get(j: Option<Json>, key: Seq<char>) -> Option<Json> {
    match j {
        Some(v) => json_get(v, key),
        None => None,
    }
}

/// `value.as_str()`.
pub open spec fn json_str(j: Json) -> Option<Seq<char>> {
    match j {
        Json::Str(s) => Some(s@),
        _ => None,
    }
}

/// `as_str` lifted over an absent value.
pub open spec fn opt_str(j: Option<Json>) -> Option<Seq<char>> {
    match j {
        Some(v) => json_str(v),
        None => None,
    }
}

/// `value.as_i64()`.
pub open spec fn json_i64(j: Json) -> Option<i64> {
    match j {
        Json::Number(n) => n.int,
        _ => None,
    }
}

/// `as_i64` lifted over an absent value.
pub open spec fn opt_i64(j: Option<Json>) -> Option<i64> {
    match j {
        Some(v) => json_i64(v),
        None => None,
    }
}

/// What `serde_json::from_str::<serde_json::Value>` yields for a text, carried
/// over into `Json`; `None` where it reports an error.
pub uninterp spec fn spec_parse_json(text: Seq<char>) -> Option<Json>;

/// What `serde_json::from_slice::<serde_json::Value>` yields for bytes,
/// carried over into `Json`; `None` where it reports an error.
pub uninterp spec fn spec_parse_json_bytes(bytes: Seq<u8>) -> Option<Json>;

#[verifier::external_type_specification]
#[verifier::external_body]
pub struct ExJsonValue(serde_json::Value);

/// Carries a `serde_json::Value` over into `Json`, node for node.
#[verifier::external_body]
fn json_of_value(v: serde_json::Value) -> Json {
    match v {
        serde_json::Value::Null => Json::Null,
        serde_json::Value::Bool(b) => Json::Bool(b),
        serde_json::Value::Number(n) => Json::Number(
            JsonNumber { int: n.as_i64(), float_truncated: n.as_f64().map_or(0, |x| x as i64) },
        ),
        serde_json::Value::String(s) => Json::Str(s),
        serde_json::Value::Array(a) => Json::Array(a.into_iter().map(json_of_value).collect()),
        serde_json::Value::Object(m) => Json::Object(
            m.into_iter().map(|(k, v)| (k, json_of_value(v))).collect(),
        ),
    }
}

/// Calls `serde_json::from_str::<serde_json::Value>` on `text`; a parse error
/// becomes `None`.
#[verifier::external_body]
pub(crate) fn parse_json(text: &str) -> (r: Option<Json>)
    ensures
        r == spec_parse_json(text@),
{
    serde_json::from_str::<serde_json::Value>(text).ok().map(json_of_value)
}

/// Calls `serde_json::from_slice::<serde_json::Value>` on `bytes`; a parse
/// error becomes `None`.
#[verifier::external_body]
pub(crate) fn parse_json_bytes(bytes: &[u8]) -> (r: Option<Json>)
    ensures
        r == spec_parse_json_bytes(bytes@),
{
    serde_json::from_slice::<serde_json::Value>(bytes).ok().map(json_of_value)
}

impl Json {
    /// The member `key` of an object; `None` for a missing key or a value
    /// that is not an object.
    pub fn get(&self, key: &str) -> (r: Option<&Json>)
        ensures
            r matches Some(v) ==> json_get(*self, key@) == Some(*v),
            r is None <==> json_get(*self, key@) is None,
    {
        match self {
            Json::Object(fields) => {
                let k = chars_of(key);
                let mut i: usize = 0;
                assert(fields@.skip(0) =~= fields@);
                while i < fields.len()
                    invariant
                        i <= fields.len(),
                        k@ == key@,
                        json_get(*self, key@) == field_lookup(fields@, key@),
                        field_lookup(fields@, key@) == field_lookup(fields@.skip(i as int), key@),
                    decreases fields.len() - i,
                {
                    let name = chars_of(fields[i].0.as_str());
                    assert(fields@.skip(i as int)[0] == fields@[i as int]);
                    if chars_eq(&name, &k) {
                        return Some(&fields[i].1);
                    }
                    assert(fields@.skip(i as int).drop_first() =~= fields@.skip(i + 1));
                    i = i + 1;
                }
                None
            },
            _ => None,
        }
    }

    /// The text of a string value.
    pub fn as_str(&self) -> (r: Option<&str>)
        ensures
            r matches Some(s) ==> json_str(*self) == Some(s@),
            r is None <==> json_str(*self) is None,
    {
        match self {
            Json::Str(s) => Some(s.as_str()),
            _ => None,
        }
    }

    /// The value of an integer number within the `i64` range.
    pub fn as_i64(&self) -> (r: Option<i64>)
        ensures
            r == json_i64(*self),
    {
        match self {
            Json::Number(n) => n.int,
            _ => None,
        }
    }
}

/// The member `key` of a value that may be absent.
pub fn get_opt<'a>(j: Option<&'a Json>, key: &str) -> (r: Option<&'a Json>)
    ensures
        r matches Some(v) ==> opt_get(opt_deref(j), key@) == Some(*v),
        r is None <==> opt_get(opt_deref(j), key@) is None,
{
    match j {
        Some(v) => v.get(key),
        None => None,
    }
}

/// An optional reference read as an optional value.
pub open spec fn opt_deref(j: Option<&Json>) -> Option<Json> {
    match j {
        Some(v) => Some(*v),
        None => None,
    }
}

/// The text of a string value that may be absent, as an owned `String`.
pub fn str_opt(j: Option<&Json>) -> (r: Option<String>)
    ensures
        r matches Some(s) ==> opt_str(opt_deref(j)) == Some(s@),
        r is None <==> opt_str(opt_deref(j)) is None,
{
    match j {
        Some(v) => match v.as_str() {
            Some(s) => Some(s.to_owned()),
            None => None,
        },
        None => None,
    }
}

} // verus!
