//! The library's own representation of structured JSON inputs and its lookups.
use vstd::prelude::*;

use crate::text::chars_eq;

verus! {

/// A JSON number: its value when it is a non-negative integer that fits in `u64`, and the
/// number's literal text.
#[derive(Clone, Debug)]
pub struct JsonNumber {
    /// The value when the number is a non-negative integer representable as `u64`.
    pub unsigned: Option<u64>,
    /// The number as written, for consumers that need a decimal value.
    pub literal: String,
}

/// One key and value of a JSON object.
#[derive(Debug)]
pub struct JsonMember {
    /// The member's key.
    pub key: String,
    /// The member's value.
    pub value: JsonValue,
}

/// A JSON document; object members keep their order, keys are expected to be distinct.
#[derive(Debug)]
pub enum JsonValue {
    /// `null`.
    Null,
    /// `true` or `false`.
    Bool(bool),
    /// A number.
    Number(JsonNumber),
    /// A string.
    String(String),
    /// An array.
    Array(Vec<JsonValue>),
    /// An object.
    Object(Vec<JsonMember>),
}

/// Position of the first member whose key is `t`, or -1.
pub open spec fn member_index(m: Seq<JsonMember>, t: Seq<char>) -> int
    decreases m.len(),
{
    if m.len() == 0 {
        -1
    } else if m[0].key@ == t {
        0
    } else {
        let r = member_index(m.drop_first(), t);
        if r < 0 {
            -1
        } else {
            r + 1
        }
    }
}

/// The value of the first member whose key is `t`.
pub open spec fn member_get(m: Seq<JsonMember>, t: Seq<char>) -> Option<JsonValue> {
    let i = member_index(m, t);
    if i < 0 {
        None
    } else {
        Some(m[i].value)
    }
}

/// Number of direct children of a value.
pub open spec fn child_count(v: JsonValue) -> nat {
    match v {
        JsonValue::Array(a) => a@.len(),
        JsonValue::Object(m) => m@.len(),
        _ => 0,
    }
}

/// The `i`-th direct child of a value, in order.
pub open spec fn child(v: JsonValue, i: int) -> JsonValue {
    match v {
        JsonValue::Array(a) => a@[i],
        JsonValue::Object(m) => m@[i].value,
        _ => v,
    }
}

/// A child strictly decreases from its parent.
pub proof fn lemma_child_decreases(v: JsonValue, i: int)
    requires
        0 <= i < child_count(v),
    ensures
        decreases_to!(v => child(v, i)),
{
    match v {
        JsonValue::Array(a) => {
            assert(decreases_to!(v => a));
            assert(decreases_to!(a => a@));
            assert(decreases_to!(a@ => a@[i]));
        },
        JsonValue::Object(m) => {
            assert(decreases_to!(v => m));
            assert(decreases_to!(m => m@));
            assert(decreases_to!(m@ => m@[i]));
            assert(decreases_to!(m@[i] => m@[i].value));
        },
        _ => {},
    }
}

/// The first value found for key `t`: an object's own member first, then a depth-first
/// search of its children (arrays: their elements) in order.
pub open spec fn json_find(v: JsonValue, t: Seq<char>) -> Option<JsonValue>
    decreases v, child_count(v) + 1,
{
    match v {
        JsonValue::Object(m) => match member_get(m@, t) {
            Some(x) => Some(x),
            None => children_find(v, t, 0),
        },
        JsonValue::Array(_) => children_find(v, t, 0),
        _ => None,
    }
}

/// The first result of `json_find` among the children of `v` from position `i` on.
pub open spec fn children_find(v: JsonValue, t: Seq<char>, i: int) -> Option<JsonValue>
    decreases v, child_count(v) - i,
{
    if i < 0 || i >= child_count(v) {
        None
    } else {
        proof {
            lemma_child_decreases(v, i);
        }
        match json_find(child(v, i), t) {
            Some(x) => Some(x),
            None => children_find(v, t, i + 1),
        }
    }
}

/// Locates the first member of an object with the given key.
pub fn object_get<'a>(m: &'a Vec<JsonMember>, t: &[char]) -> (r: Option<&'a JsonValue>)
    ensures
        match r {
            Some(x) => member_get(m@, t@) == Some(*x),
            None => member_get(m@, t@) is None,
        },
{
    let mut i: usize = 0;
    assert(m@.skip(0) =~= m@);
    while i < m.len()
        invariant
            i <= m.len(),
            forall|j: int| 0 <= j < i ==> m@[j].key@ != t@,
            member_index(m@, t@) == if member_index(m@.skip(i as int), t@) < 0 {
                -1
            } else {
                member_index(m@.skip(i as int), t@) + i
            },
        decreases m.len() - i,
    {
        let key = crate::text::chars_of(m[i].key.as_str());
        if chars_eq(&key, t) {
            assert(m@.skip(i as int)[0] == m@[i as int]);
            return Some(&m[i].value);
        }
        assert(m@.skip(i as int).drop_first() =~= m@.skip(i + 1));
        i = i + 1;
    }
    None
}

/// Recursively locates the first named key in schema-tolerant JSON.
pub fn find_key<'a>(value: &'a JsonValue, t: &[char]) -> (r: Option<&'a JsonValue>)
    ensures
        match r {
            Some(x) => json_find(*value, t@) == Some(*x),
            None => json_find(*value, t@) is None,
        },
    decreases value, child_count(*value) + 1,
{
    match value {
        JsonValue::Object(m) => {
            match object_get(m, t) {
                Some(x) => Some(x),
                None => find_in_children(value, t, 0),
            }
        },
        JsonValue::Array(_) => find_in_children(value, t, 0),
        _ => None,
    }
}

/// Searches the children of `value` from position `i` on.
pub fn find_in_children<'a>(value: &'a JsonValue, t: &[char], i: usize) -> (r: Option<
    &'a JsonValue,
>)
    ensures
        match r {
            Some(x) => children_find(*value, t@, i as int) == Some(*x),
            None => children_find(*value, t@, i as int) is None,
        },
    decreases value, child_count(*value) - i,
{
    let c: &'a JsonValue = match value {
        JsonValue::Array(a) => {
            if i >= a.len() {
                return None;
            }
            &a[i]
        },
        JsonValue::Object(m) => {
            if i >= m.len() {
                return None;
            }
            &m[i].value
        },
        _ => {
            return None;
        },
    };
    proof {
        lemma_child_decreases(*value, i as int);
    }
    match find_key(c, t) {
        Some(x) => Some(x),
        None => find_in_children(value, t, i + 1),
    }
}

} // verus!
