//! A JSON document tree as the library reads it, with the lookups that the
//! scanning code makes on it.

use vstd::prelude::*;

verus! {

/// A JSON number: its text, and its value where it is an integer that fits
/// an `i64`.
pub struct JsonNumber {
    pub text: String,
    pub int: Option<i64>,
}

/// A JSON value. The entries of an object keep the order in which the
/// document's map yields them, each key once.
pub enum JsonValue {
    Null,
    Bool(bool),
    Number(JsonNumber),
    String(String),
    Array(Vec<JsonValue>),
    Object(Vec<(String, JsonValue)>),
}

/// The value of the first entry named `key`.
pub open spec fn entry_get(entries: Seq<(String, JsonValue)>, key: Seq<char>) -> Option<JsonValue>
    decreases entries.len(),
{
    if entries.len() == 0 {
        None
    } else if entries[0].0@ == key {
        Some(entries[0].1)
    } else {
        entry_get(entries.drop_first(), key)
    }
}

/// `Value::get` with a string key: the member of an object, nothing else.
pub open spec fn get_spec(v: JsonValue, key: Seq<char>) -> Option<JsonValue> {
    match v {
        JsonValue::Object(entries) => entry_get(entries@, key),
        _ => None,
    }
}

/// `v.and_then(|v| v.get(key))`.
pub open spec fn opt_get(v: Option<JsonValue>, key: Seq<char>) -> Option<JsonValue> {
    match v {
        Some(x) => get_spec(x, key),
        None => None,
    }
}

/// `v.and_then(|v| v.as_str())`.
pub open spec fn opt_str(v: Option<JsonValue>) -> Option<Seq<char>> {
    match v {
        Some(JsonValue::String(s)) => Some(s@),
        _ => None,
    }
}

/// `v.and_then(|v| v.as_str()).unwrap_or_default()`.
pub open spec fn str_or_empty(v: Option<JsonValue>) -> Seq<char> {
    match opt_str(v) {
        Some(s) => s,
        None => Seq::empty(),
    }
}

/// `v.and_then(|v| v.as_array()).cloned().unwrap_or_default()`.
pub open spec fn array_or_empty(v: Option<JsonValue>) -> Seq<JsonValue> {
    match v {
        Some(JsonValue::Array(items)) => items@,
        _ => Seq::empty(),
    }
}

/// `v.and_then(|v| v.as_i64())`.
pub open spec fn opt_i64(v: Option<JsonValue>) -> Option<i64> {
    match v {
        Some(JsonValue::Number(n)) => n.int,
        _ => None,
    }
}

impl JsonValue {
    /// The member named `key` of an object.
    pub fn get(&self, key: &str) -> (r: Option<&JsonValue>)
        ensures
            match r {
                Some(x) => get_spec(*self, key@) == Some(*x),
                None => get_spec(*self, key@) is None,
            },
    {
        match self {
            JsonValue::Object(entries) => entries_get(entries, key),
            _ => None,
        }
    }

    /// The text of a string value.
    pub fn as_str(&self) -> (r: Option<&String>)
        ensures
            match r {
                Some(s) => *self == JsonValue::String(*s),
                None => !(*self is String),
            },
    {
        match self {
            JsonValue::String(s) => Some(s),
            _ => None,
        }
    }

    /// The value of an integer number that fits an `i64`.
    pub fn as_i64(&self) -> (r: Option<i64>)
        ensures
            r == opt_i64(Some(*self)),
    {
        match self {
            JsonValue::Number(n) => n.int,
            _ => None,
        }
    }
}

/// The value of the first entry named `key`.
pub fn entries_get<'a>(entries: &'a Vec<(String, JsonValue)>, key: &str) -> (r: Option<&'a JsonValue>)
    ensures
        match r {
            Some(x) => entry_get(entries@, key@) == Some(*x),
            None => entry_get(entries@, key@) is None,
        },
{
    let wanted = key.to_owned();
    let n = entries.len();
    let mut i: usize = 0;
    assert(entries@.skip(0) =~= entries@);
    while i < n
        invariant
            n == entries.len(),
            i <= n,
            wanted@ == key@,
            entry_get(entries@, key@) == entry_get(entries@.skip(i as int), key@),
        decreases n - i,
    {
        let ghost rest = entries@.skip(i as int);
        assert(rest.drop_first() =~= entries@.skip(i + 1));
        if entries[i].0 == wanted {
            return Some(&entries[i].1);
        }
        i = i + 1;
    }
    None
}

/// A copy of a string.
pub fn copy_string(s: &String) -> (r: String)
    ensures
        r@ == s@,
{
    s.clone()
}

/// The text of `v` where it is a string, else the empty string.
pub fn str_or_empty_of(v: Option<&JsonValue>) -> (r: String)
    ensures
        r@ == str_or_empty(match v {
            Some(x) => Some(*x),
            None => None,
        }),
{
    match v {
        Some(JsonValue::String(s)) => s.clone(),
        _ => String::new(),
    }
}

#[verifier::external_type_specification]
#[verifier::external_body]
pub struct ExSerdeJsonValue(serde_json::Value);

/// The JSON document that a text holds, as `serde_json` reads it, where it
/// holds one.
pub uninterp spec fn json_of_text(text: Seq<char>) -> Option<JsonValue>;

/// Calls `serde_json::from_str::<serde_json::Value>` on `text` and converts
/// what it reads, value for value, into a `JsonValue`. The contract claims
/// only that the result is the named function of the text.
#[verifier::external_body]
pub(crate) fn parse_json_text(text: &str) -> (r: Option<JsonValue>)
    ensures
        r == json_of_text(text@),
{
    match serde_json::from_str::<serde_json::Value>(text) {
        Ok(value) => Some(json_from_serde(&value)),
        Err(_) => None,
    }
}

/// The conversion step of `parse_json_text`: each `serde_json` value
/// becomes the `JsonValue` of the same kind, a number keeping its text and
/// `as_i64`, an object its members in the map's order.
#[verifier::external_body]
fn json_from_serde(value: &serde_json::Value) -> JsonValue {
    match value {
        serde_json::Value::Null => JsonValue::Null,
        serde_json::Value::Bool(b) => JsonValue::Bool(*b),
        serde_json::Value::Number(n) => JsonValue::Number(
            JsonNumber { text: n.to_string(), int: n.as_i64() },
        ),
        serde_json::Value::String(s) => JsonValue::String(s.clone()),
        serde_json::Value::Array(items) => JsonValue::Array(items.iter().map(json_from_serde).collect()),
        serde_json::Value::Object(map) => JsonValue::Object(
            map.iter().map(|(k, v)| (k.clone(), json_from_serde(v))).collect(),
        ),
    }
}

} // verus!
