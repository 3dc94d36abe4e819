//! The JSON value tree that instances and schemas are made of, with the
//! structural equality that `const`, `enum` and `uniqueItems` rely on.
use crate::number::{compare_numbers, num_eq, JsonNumber};
use vstd::prelude::*;

verus! {

/// A JSON value. An object keeps its members in order. Its keys are meant to
/// be unique, as in a parsed document; where a key repeats, lookups by key
/// take the first member with that key.
#[derive(Debug)]
pub enum JsonValue {
    Null,
    Bool(bool),
    Number(JsonNumber),
    String(String),
    Array(Vec<JsonValue>),
    Object(Vec<(String, JsonValue)>),
}

/// Index of the first member at or after `i` whose key is `key`.
pub open spec fn find_key_from(members: Seq<(String, JsonValue)>, key: Seq<char>, i: int) -> Option<
    int,
>
    decreases members.len() - i,
{
    if i < 0 || i >= members.len() {
        None
    } else if members[i].0@ == key {
        Some(i)
    } else {
        find_key_from(members, key, i + 1)
    }
}

/// Index of the first member whose key is `key`.
pub open spec fn find_key(members: Seq<(String, JsonValue)>, key: Seq<char>) -> Option<int> {
    find_key_from(members, key, 0)
}

/// Structural equality: numbers by value, arrays element by element, objects
/// by key whatever the order of their members.
pub open spec fn json_eq(a: JsonValue, b: JsonValue) -> bool
    decreases a,
{
    match a {
        JsonValue::Null => b is Null,
        JsonValue::Bool(x) => b is Bool && b->Bool_0 == x,
        JsonValue::Number(x) => b is Number && num_eq(x, b->Number_0),
        JsonValue::String(x) => b is String && b->String_0@ == x@,
        JsonValue::Array(xs) => b is Array && xs@.len() == b->Array_0@.len() && (forall|i: int|
            0 <= i < xs@.len() ==> json_eq(#[trigger] xs@[i], b->Array_0@[i])),
        JsonValue::Object(xs) => b is Object && xs@.len() == b->Object_0@.len() && (forall|i: int|
            0 <= i < xs@.len() ==> match find_key(b->Object_0@, #[trigger] xs@[i].0@) {
                Some(j) => json_eq(xs@[i].1, b->Object_0@[j].1),
                None => false,
            }) && (forall|j: int|
            0 <= j < b->Object_0@.len() ==> #[trigger] find_key(xs@, b->Object_0@[j].0@) is Some),
    }
}

proof fn lemma_find_key_from_bounds(members: Seq<(String, JsonValue)>, key: Seq<char>, i: int)
    ensures
        match find_key_from(members, key, i) {
            Some(j) => i <= j < members.len() && members[j].0@ == key,
            None => true,
        },
    decreases members.len() - i,
{
    if 0 <= i < members.len() && members[i].0@ != key {
        lemma_find_key_from_bounds(members, key, i + 1);
    }
}

/// Looks up the first member whose key is `key`.
pub fn find_member(members: &Vec<(String, JsonValue)>, key: &String) -> (r: Option<usize>)
    ensures
        match r {
            Some(j) => find_key(members@, key@) == Some(j as int),
            None => find_key(members@, key@) is None,
        },
        r is Some ==> r->Some_0 < members@.len(),
{
    let mut i: usize = 0;
    while i < members.len()
        invariant
            i <= members@.len(),
            find_key(members@, key@) == find_key_from(members@, key@, i as int),
        decreases members@.len() - i,
    {
        proof {
            lemma_find_key_from_bounds(members@, key@, i as int);
        }
        if members[i].0.eq(key) {
            return Some(i);
        }
        i = i + 1;
    }
    None
}

/// Whether `a` and `b` are structurally equal.
pub fn json_equal(a: &JsonValue, b: &JsonValue) -> (r: bool)
    ensures
        r == json_eq(*a, *b),
    decreases a,
{
    match a {
        JsonValue::Null => matches!(b, JsonValue::Null),
        JsonValue::Bool(x) => match b {
            JsonValue::Bool(y) => *x == *y,
            _ => false,
        },
        JsonValue::Number(x) => match b {
            JsonValue::Number(y) => compare_numbers(x, y) == 0,
            _ => false,
        },
        JsonValue::String(x) => match b {
            JsonValue::String(y) => x.eq(y),
            _ => false,
        },
        JsonValue::Array(xs) => match b {
            JsonValue::Array(ys) => {
                if xs.len() != ys.len() {
                    return false;
                }
                let mut i: usize = 0;
                while i < xs.len()
                    invariant
                        *a == JsonValue::Array(*xs),
                        *b == JsonValue::Array(*ys),
                        i <= xs@.len(),
                        xs@.len() == ys@.len(),
                        forall|k: int| 0 <= k < i ==> json_eq(#[trigger] xs@[k], ys@[k]),
                    decreases xs@.len() - i,
                {
                    proof {
                        assert(decreases_to!(*a => (*a)->Array_0));
                        assert(decreases_to!((*a)->Array_0 => xs@));
                        assert(decreases_to!(xs@ => xs@[i as int]));
                    }
                    if !json_equal(&xs[i], &ys[i]) {
                        assert(!json_eq(xs@[i as int], ys@[i as int]));
                        return false;
                    }
                    i = i + 1;
                }
                true
            },
            _ => false,
        },
        JsonValue::Object(xs) => match b {
            JsonValue::Object(ys) => {
                if xs.len() != ys.len() {
                    return false;
                }
                let mut i: usize = 0;
                while i < xs.len()
                    invariant
                        *a == JsonValue::Object(*xs),
                        *b == JsonValue::Object(*ys),
                        i <= xs@.len(),
                        xs@.len() == ys@.len(),
                        forall|k: int|
                            0 <= k < i ==> match find_key(ys@, #[trigger] xs@[k].0@) {
                                Some(j) => json_eq(xs@[k].1, ys@[j].1),
                                None => false,
                            },
                    decreases xs@.len() - i,
                {
                    match find_member(ys, &xs[i].0) {
                        Some(j) => {
                            proof {
                                assert(decreases_to!(*a => (*a)->Object_0));
                                assert(decreases_to!((*a)->Object_0 => xs@));
                                assert(decreases_to!(xs@ => xs@[i as int]));
                                assert(decreases_to!(xs@[i as int] => xs@[i as int].1));
                            }
                            if !json_equal(&xs[i].1, &ys[j].1) {
                                assert(!json_eq(xs@[i as int].1, ys@[j as int].1));
                                assert(find_key(ys@, xs@[i as int].0@) == Some(j as int));
                                return false;
                            }
                        },
                        None => {
                            assert(find_key(ys@, xs@[i as int].0@) is None);
                            return false;
                        },
                    }
                    i = i + 1;
                }
                let mut j: usize = 0;
                while j < ys.len()
                    invariant
                        *a == JsonValue::Object(*xs),
                        *b == JsonValue::Object(*ys),
                        xs@.len() == ys@.len(),
                        forall|k: int|
                            0 <= k < xs@.len() ==> match find_key(ys@, #[trigger] xs@[k].0@) {
                                Some(j) => json_eq(xs@[k].1, ys@[j].1),
                                None => false,
                            },
                        j <= ys@.len(),
                        forall|k: int| 0 <= k < j ==> #[trigger] find_key(xs@, ys@[k].0@) is Some,
                    decreases ys@.len() - j,
                {
                    if find_member(xs, &ys[j].0).is_none() {
                        assert(find_key(xs@, ys@[j as int].0@) is None);
                        return false;
                    }
                    j = j + 1;
                }
                true
            },
            _ => false,
        },
    }
}

} // verus!
