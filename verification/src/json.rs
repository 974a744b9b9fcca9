//! A JSON document as the log readers see it.
//!
//! Session logs are JSON lines. The library reads objects, arrays, strings and
//! booleans; numbers are kept as integers where they are integers and as their
//! decimal text otherwise.

use vstd::prelude::*;

use crate::text::eq_str;

verus! {

/// A JSON number: a non-negative integer, a negative integer, or any other number
/// kept as its decimal text.
#[derive(Debug, Clone)]
pub enum JsonNumber {
    PosInt(u64),
    NegInt(i64),
    Float(String),
}

/// A JSON value. Object members keep their order; keys are distinct.
#[derive(Debug)]
pub enum JsonValue {
    Null,
    Bool(bool),
    Number(JsonNumber),
    String(String),
    Array(Vec<JsonValue>),
    Object(Vec<(String, JsonValue)>),
}

/// The index of the first member at or after `i` whose key is `key`.
pub open spec fn index_from(members: Seq<(String, JsonValue)>, key: Seq<char>, i: int) -> Option<int>
    decreases members.len() - i,
{
    if i < 0 || i >= members.len() {
        None
    } else if members[i].0@ == key {
        Some(i)
    } else {
        index_from(members, key, i + 1)
    }
}

/// The index of the member whose key is `key`, if any.
pub open spec fn member_index(members: Seq<(String, JsonValue)>, key: Seq<char>) -> Option<int> {
    index_from(members, key, 0)
}

pub proof fn lemma_index_from(members: Seq<(String, JsonValue)>, key: Seq<char>, i: int)
    requires
        0 <= i,
    ensures
        match index_from(members, key, i) {
            Some(j) => i <= j < members.len() && members[j].0@ == key,
            None => forall|k: int| i <= k < members.len() ==> members[k].0@ != key,
        },
    decreases members.len() - i,
{
    if i < members.len() && members[i].0@ != key {
        lemma_index_from(members, key, i + 1);
    }
}

/// The value stored under `key` among `members`.
pub open spec fn member(members: Seq<(String, JsonValue)>, key: Seq<char>) -> Option<JsonValue> {
    match member_index(members, key) {
        Some(i) => Some(members[i].1),
        None => None,
    }
}

/// `Value::get(key)`: the member of an object, `None` for other values.
pub open spec fn get(v: JsonValue, key: Seq<char>) -> Option<JsonValue> {
    match v {
        JsonValue::Object(members) => member(members@, key),
        _ => None,
    }
}

/// `get` chained on an optional value.
pub open spec fn get_opt(v: Option<JsonValue>, key: Seq<char>) -> Option<JsonValue> {
    match v {
        Some(x) => get(x, key),
        None => None,
    }
}

/// `Value::as_str` on an optional value.
pub open spec fn as_str(v: Option<JsonValue>) -> Option<Seq<char>> {
    match v {
        Some(JsonValue::String(s)) => Some(s@),
        _ => None,
    }
}

/// `Value::as_bool` on an optional value.
pub open spec fn as_bool(v: Option<JsonValue>) -> Option<bool> {
    match v {
        Some(JsonValue::Bool(b)) => Some(b),
        _ => None,
    }
}

/// The string under `key`, if `v` is an object whose member there is a string.
pub open spec fn str_at(v: JsonValue, key: Seq<char>) -> Option<Seq<char>> {
    as_str(get(v, key))
}

/// The position of the member whose key is `key`.
pub fn member_pos(members: &Vec<(String, JsonValue)>, key: &str) -> (r: Option<usize>)
    ensures
        match r {
            Some(i) => member_index(members@, key@) == Some(i as int) && i < members@.len(),
            None => member_index(members@, key@) is None,
        },
{
    let mut i: usize = 0;
    while i < members.len()
        invariant
            i <= members.len(),
            member_index(members@, key@) == index_from(members@, key@, i as int),
        decreases members.len() - i,
    {
        if eq_str(&members[i].0, key) {
            return Some(i);
        }
        i += 1;
    }
    None
}

fn member_exec<'a>(members: &'a Vec<(String, JsonValue)>, key: &str) -> (r: Option<&'a JsonValue>)
    ensures
        match r {
            Some(x) => member(members@, key@) == Some(*x),
            None => member(members@, key@) is None,
        },
{
    match member_pos(members, key) {
        Some(i) => Some(&members[i].1),
        None => None,
    }
}

/// `Value::get(key)`.
pub fn json_get<'a>(v: &'a JsonValue, key: &str) -> (r: Option<&'a JsonValue>)
    ensures
        match r {
            Some(x) => get(*v, key@) == Some(*x),
            None => get(*v, key@) is None,
        },
{
    match v {
        JsonValue::Object(members) => member_exec(members, key),
        _ => None,
    }
}

/// `get` on an optional value.
pub fn json_get_opt<'a>(v: Option<&'a JsonValue>, key: &str) -> (r: Option<&'a JsonValue>)
    ensures
        match v {
            Some(x) => match r {
                Some(y) => get(*x, key@) == Some(*y),
                None => get(*x, key@) is None,
            },
            None => r is None,
        },
{
    match v {
        Some(x) => json_get(x, key),
        None => None,
    }
}

/// `Value::as_str`.
pub fn json_as_str<'a>(v: Option<&'a JsonValue>) -> (r: Option<&'a String>)
    ensures
        match v {
            Some(JsonValue::String(s)) => r == Some(s),
            _ => r is None,
        },
{
    match v {
        Some(JsonValue::String(s)) => Some(s),
        _ => None,
    }
}

/// `Value::as_bool`.
pub fn json_as_bool(v: Option<&JsonValue>) -> (r: Option<bool>)
    ensures
        match v {
            Some(x) => r == as_bool(Some(*x)),
            None => r is None,
        },
{
    match v {
        Some(JsonValue::Bool(b)) => Some(*b),
        _ => None,
    }
}

/// The string member `key` of `v`, if any.
pub fn json_str_at<'a>(v: &'a JsonValue, key: &str) -> (r: Option<&'a String>)
    ensures
        match r {
            Some(s) => str_at(*v, key@) == Some(s@),
            None => str_at(*v, key@) is None,
        },
{
    json_as_str(json_get(v, key))
}

} // verus!
