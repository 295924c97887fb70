//! A plain-value model of parsed JSON, and the trusted boundary to the
//! `serde_json` parser.
//!
//! The loaders read only object entries, strings and arrays of strings from
//! a parsed document, so [`JsonValue`] models exactly that; a number's
//! magnitude is never consulted and its variant carries no payload.

use vstd::prelude::*;

use crate::text::str_eq;

verus! {

/// A parsed JSON document as plain values.
#[derive(Debug)]
pub enum JsonValue {
    /// A JSON `null`.
    Null,
    /// A JSON boolean.
    Bool(bool),
    /// A JSON number; no snippet rule reads its magnitude.
    Number,
    /// A JSON string.
    Str(String),
    /// A JSON array.
    Arr(Vec<JsonValue>),
    /// A JSON object, entries in the order the parser's map yields them.
    Obj(Vec<(String, JsonValue)>),
}

#[verifier::external_type_specification]
#[verifier::external_body]
pub struct ExValue(serde_json::Value);

/// What a successful `serde_json` parse of the text holds, translated into
/// the [`JsonValue`] shape; `None` when the text is not valid JSON.
pub uninterp spec fn json_of(s: Seq<char>) -> Option<JsonValue>;

/// Relies on `serde_json::Value`: moves each variant into the matching
/// [`JsonValue`] variant, object entries in the order the map yields them.
#[verifier::external_body]
fn value_to_json(v: serde_json::Value) -> JsonValue {
    match v {
        serde_json::Value::Null => JsonValue::Null,
        serde_json::Value::Bool(b) => JsonValue::Bool(b),
        serde_json::Value::Number(_) => JsonValue::Number,
        serde_json::Value::String(s) => JsonValue::Str(s),
        serde_json::Value::Array(a) => JsonValue::Arr(a.into_iter().map(value_to_json).collect()),
        serde_json::Value::Object(m) => JsonValue::Obj(
            m.into_iter().map(|(k, x)| (k, value_to_json(x))).collect(),
        ),
    }
}

/// Relies on `serde_json::from_str`: whether the text parses, and what the
/// parsed document holds, depend on the text alone.
#[verifier::external_body]
pub fn parse_json(text: &str) -> (r: Option<JsonValue>)
    ensures
        r == json_of(text@),
{
    match serde_json::from_str::<serde_json::Value>(text) {
        Ok(v) => Some(value_to_json(v)),
        Err(_) => None,
    }
}

/// The string a JSON value holds, with the empty string standing in for any
/// non-string value.
pub open spec fn str_of(v: JsonValue) -> Seq<char> {
    match v {
        JsonValue::Str(s) => s@,
        _ => Seq::empty(),
    }
}

/// The string a JSON value holds, when it is one.
pub open spec fn as_str_opt(v: JsonValue) -> Option<Seq<char>> {
    match v {
        JsonValue::Str(s) => Some(s@),
        _ => None,
    }
}

/// The first entry of an object's entry list with key `k`, when present.
pub open spec fn obj_lookup(entries: Seq<(String, JsonValue)>, k: Seq<char>) -> Option<JsonValue>
    decreases entries.len(),
{
    if entries.len() == 0 {
        None
    } else if entries[0].0@ == k {
        Some(entries[0].1)
    } else {
        obj_lookup(entries.skip(1), k)
    }
}

/// The field of a JSON object, `Null` when the field is absent or the value
/// is no object — exactly what indexing a parsed document by key yields.
pub open spec fn field_of(v: JsonValue, k: Seq<char>) -> JsonValue {
    match v {
        JsonValue::Obj(entries) => match obj_lookup(entries@, k) {
            Some(x) => x,
            None => JsonValue::Null,
        },
        _ => JsonValue::Null,
    }
}

/// A scan that saw no match up to `i` and a match (or the end) at `i` has
/// settled the lookup.
proof fn lemma_obj_lookup_boundary(entries: Seq<(String, JsonValue)>, k: Seq<char>, i: int)
    requires
        0 <= i <= entries.len(),
        forall|j: int| 0 <= j < i ==> (#[trigger] entries[j]).0@ != k,
        i == entries.len() || entries[i].0@ == k,
    ensures
        obj_lookup(entries, k) == if i == entries.len() {
            None::<JsonValue>
        } else {
            Some(entries[i].1)
        },
    decreases i,
{
    if entries.len() == 0 {
    } else if entries[0].0@ == k {
    } else {
        lemma_obj_lookup_boundary(entries.skip(1), k, i - 1);
    }
}

/// Looks a field up in a JSON object; `None` for a missing field or for a
/// value that is no object.
pub fn get_field<'a>(v: &'a JsonValue, k: &str) -> (r: Option<&'a JsonValue>)
    ensures
        match r {
            Some(x) => field_of(*v, k@) == *x && !(field_of(*v, k@) is Null),
            None => field_of(*v, k@) == JsonValue::Null,
        },
{
    match v {
        JsonValue::Obj(entries) => {
            let mut i: usize = 0;
            while i < entries.len()
                invariant
                    i <= entries@.len(),
                    *v == JsonValue::Obj(*entries),
                    forall|j: int| 0 <= j < i ==> (#[trigger] entries@[j]).0@ != k@,
                decreases entries@.len() - i,
            {
                if str_eq(entries[i].0.as_str(), k) {
                    proof {
                        lemma_obj_lookup_boundary(entries@, k@, i as int);
                    }
                    let x = &entries[i].1;
                    match x {
                        JsonValue::Null => {
                            return None;
                        },
                        _ => {
                            return Some(x);
                        },
                    }
                }
                i = i + 1;
            }
            proof {
                lemma_obj_lookup_boundary(entries@, k@, entries@.len() as int);
            }
            None
        },
        _ => None,
    }
}

/// The string an arbitrary JSON value stands for: its own text when it is a
/// string, empty otherwise.
pub fn json_str_or_empty(v: &JsonValue) -> (r: String)
    ensures
        r@ == str_of(*v),
{
    match v {
        JsonValue::Str(s) => s.clone(),
        _ => String::new(),
    }
}

} // verus!
