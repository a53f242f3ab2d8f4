//! A JSON document as the library reads it, and its parsing by `serde_json`.
use vstd::prelude::*;
use crate::text::string_of;
use serde_json::Value;

verus! {

/// A JSON value. Numbers are kept as their text; the entries of an object
/// come in the order in which `serde_json`'s map yields them.
#[derive(Debug)]
pub enum Json {
    Null,
    Bool(bool),
    Number(String),
    Str(String),
    Array(Vec<Json>),
    Object(Vec<(String, Json)>),
}

/// The value of the first entry named `key`.
pub open spec fn entries_lookup(entries: Seq<(String, Json)>, key: Seq<char>) -> Option<Json>
    decreases entries.len(),
{
    if entries.len() == 0 {
        None
    } else if entries[0].0@ == key {
        Some(entries[0].1)
    } else {
        entries_lookup(entries.drop_first(), key)
    }
}

/// The member `key` of an object; `None` for a missing member or a value
/// that is no object.
pub open spec fn json_field(j: Json, key: Seq<char>) -> Option<Json> {
    match j {
        Json::Object(entries) => entries_lookup(entries@, key),
        _ => None,
    }
}

/// The element `i` of an array; `None` out of bounds or for a value that is
/// no array.
pub open spec fn json_index(j: Json, i: int) -> Option<Json> {
    match j {
        Json::Array(items) => if 0 <= i < items@.len() {
            Some(items@[i])
        } else {
            None
        },
        _ => None,
    }
}

/// The text of a string value.
pub open spec fn json_text(j: Json) -> Option<Seq<char>> {
    match j {
        Json::Str(s) => Some(s@),
        _ => None,
    }
}

/// The elements of an array value.
pub open spec fn json_items(j: Json) -> Option<Seq<Json>> {
    match j {
        Json::Array(items) => Some(items@),
        _ => None,
    }
}

impl Json {
    /// The member `key` of an object (`serde_json::Value::get` with a key).
    pub fn get(&self, key: &str) -> (r: Option<&Json>)
        ensures
            match r {
                Some(v) => json_field(*self, key@) == Some(*v),
                None => json_field(*self, key@) is None,
            },
    {
        match self {
            Json::Object(entries) => {
                let k = string_of(key);
                let mut i: usize = 0;
                assert(entries@.skip(0) =~= entries@);
                while i < entries.len()
                    invariant
                        i <= entries.len(),
                        k@ == key@,
                        json_field(*self, key@) == entries_lookup(entries@, key@),
                        entries_lookup(entries@, key@) == entries_lookup(
                            entries@.skip(i as int),
                            key@,
                        ),
                    decreases entries.len() - i,
                {
                    assert(entries@.skip(i as int)[0] == entries@[i as int]);
                    if entries[i].0 == k {
                        assert(entries_lookup(entries@.skip(i as int), key@) == Some(
                            entries@[i as int].1,
                        ));
                        return Some(&entries[i].1);
                    }
                    assert(entries@.skip(i as int).drop_first() =~= entries@.skip(i + 1));
                    i = i + 1;
                }
                None
            },
            _ => None,
        }
    }

    /// The element `i` of an array (`serde_json::Value::get` with an index).
    pub fn get_index(&self, i: usize) -> (r: Option<&Json>)
        ensures
            match r {
                Some(v) => json_index(*self, i as int) == Some(*v),
                None => json_index(*self, i as int) is None,
            },
    {
        match self {
            Json::Array(items) => if i < items.len() {
                Some(&items[i])
            } else {
                None
            },
            _ => None,
        }
    }

    /// The text of a string value (`serde_json::Value::as_str`).
    pub fn as_str(&self) -> (r: Option<&String>)
        ensures
            match r {
                Some(s) => json_text(*self) == Some(s@),
                None => json_text(*self) is None,
            },
    {
        match self {
            Json::Str(s) => Some(s),
            _ => None,
        }
    }

    /// The elements of an array value (`serde_json::Value::as_array`).
    pub fn as_array(&self) -> (r: Option<&Vec<Json>>)
        ensures
            match r {
                Some(v) => json_items(*self) == Some(v@),
                None => json_items(*self) is None,
            },
    {
        match self {
            Json::Array(items) => Some(items),
            _ => None,
        }
    }
}

/// `serde_json::Error`, opaque.
#[verifier::external_type_specification]
#[verifier::external_body]
pub struct ExJsonError(serde_json::Error);

/// `serde_json::Value`, opaque; the library reads the tree as a `Json`.
#[verifier::external_type_specification]
#[verifier::external_body]
pub struct ExJsonValue(Value);

/// The document that `serde_json::from_str::<serde_json::Value>` reads from
/// `text`, in the library's terms; `None` where it refuses the text.
pub uninterp spec fn json_document(text: Seq<char>) -> Option<Json>;

/// Parses `text` with `serde_json::from_str` into a `serde_json::Value` and
/// hands back the same tree as a `Json`. The contract claims only that the
/// result is a function of the text: the JSON grammar and the shape of the
/// tree are `serde_json`'s, and are left unsaid.
#[verifier::external_body]
fn serde_json_parse(text: &str) -> (r: Result<Json, serde_json::Error>)
    ensures
        match r {
            Ok(doc) => json_document(text@) == Some(doc),
            Err(_) => json_document(text@) is None,
        },
{
    serde_json::from_str::<Value>(text).map(|v| json_of_value(&v))
}

/// Converts a `serde_json::Value` into a `Json`, variant for variant; used
/// by `serde_json_parse` only.
#[verifier::external_body]
fn json_of_value(v: &Value) -> Json {
    match v {
        Value::Null => Json::Null,
        Value::Bool(b) => Json::Bool(*b),
        Value::Number(n) => Json::Number(n.to_string()),
        Value::String(s) => Json::Str(s.clone()),
        Value::Array(a) => Json::Array(a.iter().map(json_of_value).collect()),
        Value::Object(o) => Json::Object(o.iter().map(|(k, x)| (k.clone(), json_of_value(x))).collect()),
    }
}

/// The JSON document in `text`; an error where `serde_json` refuses it.
pub fn parse_json(text: &str) -> (r: Result<Json, serde_json::Error>)
    ensures
        match r {
            Ok(doc) => json_document(text@) == Some(doc),
            Err(_) => json_document(text@) is None,
        },
{
    serde_json_parse(text)
}

} // verus!
