//! JSON, as `serde_json` reads and writes it: a plain model of JSON values,
//! the calls that parse and print them, and the lookups the library makes.

use vstd::prelude::*;
use crate::text::opt_view;

verus! {

/// A JSON value. Numbers keep the text `serde_json` prints for them; the
/// members of an object come in the order `serde_json` keeps them (sorted by
/// key).
#[derive(Debug)]
pub enum JsonValue {
    Null,
    Bool(bool),
    Number(String),
    Str(String),
    Array(Vec<JsonValue>),
    Object(Vec<(String, JsonValue)>),
}

/// The value `serde_json::from_str` reads from `text`, if `text` is JSON.
pub uninterp spec fn json_parse(text: Seq<char>) -> Option<JsonValue>;

/// The compact text `serde_json::to_string` prints for `value`.
pub uninterp spec fn json_compact(value: JsonValue) -> Seq<char>;

/// The indented text `serde_json::to_string_pretty` prints for `value`.
pub uninterp spec fn json_pretty(value: JsonValue) -> Seq<char>;

/// `serde_json`'s JSON value.
#[verifier::external_type_specification]
#[verifier::external_body]
pub struct ExSerdeValue(serde_json::Value);

#[verifier::external_body]
fn from_serde(value: &serde_json::Value) -> (r: JsonValue) {
    match value {
        serde_json::Value::Null => JsonValue::Null,
        serde_json::Value::Bool(b) => JsonValue::Bool(*b),
        serde_json::Value::Number(n) => JsonValue::Number(n.to_string()),
        serde_json::Value::String(s) => JsonValue::Str(s.clone()),
        serde_json::Value::Array(items) => JsonValue::Array(items.iter().map(from_serde).collect()),
        serde_json::Value::Object(members) => {
            JsonValue::Object(members.iter().map(|(k, v)| (k.clone(), from_serde(v))).collect())
        },
    }
}

#[verifier::external_body]
fn to_serde(value: &JsonValue) -> (r: serde_json::Value) {
    match value {
        JsonValue::Null => serde_json::Value::Null,
        JsonValue::Bool(b) => serde_json::Value::Bool(*b),
        JsonValue::Number(n) => serde_json::from_str(n).unwrap_or(serde_json::Value::Null),
        JsonValue::Str(s) => serde_json::Value::String(s.clone()),
        JsonValue::Array(items) => serde_json::Value::Array(items.iter().map(to_serde).collect()),
        JsonValue::Object(members) => {
            serde_json::Value::Object(members.iter().map(|(k, v)| (k.clone(), to_serde(v))).collect())
        },
    }
}

/// Parses `text` with `serde_json::from_str` into a `serde_json::Value`.
/// The contract names the result and says nothing more of it.
#[verifier::external_body]
pub fn parse_json(text: &str) -> (r: Option<JsonValue>)
    ensures
        r == json_parse(text@),
{
    let value: serde_json::Value = serde_json::from_str(text).ok()?;
    Some(from_serde(&value))
}

/// Prints `value` with `serde_json::to_string`. The contract names the result
/// and says nothing more of it.
#[verifier::external_body]
pub fn compact_text(value: &JsonValue) -> (r: String)
    ensures
        r@ == json_compact(*value),
{
    serde_json::to_string(&to_serde(value)).unwrap_or_default()
}

/// Prints `value` with `serde_json::to_string_pretty`. The contract names
/// the result and says nothing more of it.
#[verifier::external_body]
pub fn pretty_text(value: &JsonValue) -> (r: String)
    ensures
        r@ == json_pretty(*value),
{
    serde_json::to_string_pretty(&to_serde(value)).unwrap_or_default()
}

/// The first index of a member of `ms` with key `key`, from `i` on, or the
/// length of `ms`.
pub open spec fn member_index(ms: Seq<(String, JsonValue)>, key: Seq<char>, i: int) -> int
    decreases ms.len() - i,
{
    if i < 0 || i >= ms.len() {
        ms.len() as int
    } else if ms[i].0@ == key {
        i
    } else {
        member_index(ms, key, i + 1)
    }
}

/// The value under `key` in the object `v`: the first member with that key.
pub open spec fn get_spec(v: JsonValue, key: Seq<char>) -> Option<JsonValue> {
    match v {
        JsonValue::Object(members) => {
            let k = member_index(members@, key, 0);
            if k < members@.len() {
                Some(members@[k].1)
            } else {
                None
            }
        },
        _ => None,
    }
}

/// The string under `key` in the JSON object `text`; `None` when `text` is
/// not JSON, is not an object, has no such key, or holds no string there.
pub open spec fn string_field_spec(text: Seq<char>, key: Seq<char>) -> Option<Seq<char>> {
    match json_parse(text) {
        Some(v) => match get_spec(v, key) {
            Some(JsonValue::Str(s)) => Some(s@),
            _ => None,
        },
        None => None,
    }
}

/// The string under `key` in the JSON object `text` (see
/// `string_field_spec`).
pub fn string_field(text: &str, key: &str) -> (r: Option<String>)
    ensures
        opt_view(r) == string_field_spec(text@, key@),
{
    match parse_json(text) {
        Some(v) => match v.get(key) {
            Some(x) => match x.as_str() {
                Some(s) => Some(s.to_owned()),
                None => None,
            },
            None => None,
        },
        None => None,
    }
}

impl JsonValue {
    /// The value under `key`, when this is an object that has one.
    pub fn get(&self, key: &str) -> (r: Option<&JsonValue>)
        ensures
            match r {
                Some(v) => get_spec(*self, key@) == Some(*v),
                None => get_spec(*self, key@) is None,
            },
    {
        match self {
            JsonValue::Object(members) => {
                let wanted = key.to_owned();
                let mut i: usize = 0;
                while i < members.len()
                    invariant
                        i <= members.len(),
                        *self == JsonValue::Object(*members),
                        wanted@ == key@,
                        member_index(members@, key@, 0) == member_index(members@, key@, i as int),
                    decreases members.len() - i,
                {
                    if members[i].0 == wanted {
                        return Some(&members[i].1);
                    }
                    i = i + 1;
                }
                None
            },
            _ => None,
        }
    }

    /// The text, when this is a string.
    pub fn as_str(&self) -> (r: Option<&str>)
        ensures
            match r {
                Some(s) => *self matches JsonValue::Str(t) && s@ == t@,
                None => !(*self is Str),
            },
    {
        match self {
            JsonValue::Str(s) => Some(s.as_str()),
            _ => None,
        }
    }

    /// The items, when this is an array.
    pub fn as_array(&self) -> (r: Option<&Vec<JsonValue>>)
        ensures
            match r {
                Some(items) => *self == JsonValue::Array(*items),
                None => !(*self is Array),
            },
    {
        match self {
            JsonValue::Array(items) => Some(items),
            _ => None,
        }
    }

    /// Whether this is an object.
    pub fn is_object(&self) -> (r: bool)
        ensures
            r == (*self is Object),
    {
        match self {
            JsonValue::Object(_) => true,
            _ => false,
        }
    }
}

} // verus!
