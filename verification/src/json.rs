//! JSON values as the library carries them: envelope payloads, control replies and
//! registry snapshots. Objects keep their members in order; members are read by the
//! first one with the asked key.

use vstd::prelude::*;

use crate::text::same_text;

verus! {

/// A JSON number: a non-negative integer, a negative integer, or any other number
/// kept as its decimal text.
#[derive(Debug, Clone, PartialEq)]
pub enum JsonNumber {
    Unsigned(u64),
    Signed(i64),
    Decimal(String),
}

/// A JSON value.
#[derive(Debug, PartialEq)]
pub enum JsonValue {
    Null,
    Bool(bool),
    Number(JsonNumber),
    Str(String),
    Array(Vec<JsonValue>),
    Object(Vec<(String, JsonValue)>),
}

/// A JSON number by value.
pub enum NumView {
    Unsigned(u64),
    Signed(i64),
    Decimal(Seq<char>),
}

/// A JSON value by value.
pub enum JsonView {
    Null,
    Bool(bool),
    Number(NumView),
    Str(Seq<char>),
    Array(Seq<JsonView>),
    Object(Seq<(Seq<char>, JsonView)>),
}

/// The value of a JSON number.
pub open spec fn nv(n: JsonNumber) -> NumView {
    match n {
        JsonNumber::Unsigned(u) => NumView::Unsigned(u),
        JsonNumber::Signed(i) => NumView::Signed(i),
        JsonNumber::Decimal(s) => NumView::Decimal(s@),
    }
}

/// The value of a JSON value.
#[verifier::opaque]
pub open spec fn jv(v: JsonValue) -> JsonView
    decreases v,
{
    match v {
        JsonValue::Null => JsonView::Null,
        JsonValue::Bool(b) => JsonView::Bool(b),
        JsonValue::Number(n) => JsonView::Number(nv(n)),
        JsonValue::Str(s) => JsonView::Str(s@),
        JsonValue::Array(items) => JsonView::Array(
            Seq::new(items@.len(), |i: int| if 0 <= i < items@.len() { jv(items@[i]) } else { JsonView::Null }),
        ),
        JsonValue::Object(items) => JsonView::Object(
            Seq::new(
                items@.len(),
                |i: int|
                    if 0 <= i < items@.len() {
                        (items@[i].0@, jv(items@[i].1))
                    } else {
                        (Seq::empty(), JsonView::Null)
                    },
            ),
        ),
    }
}

/// The values of a list of JSON values.
pub open spec fn jvs(s: Seq<JsonValue>) -> Seq<JsonView> {
    Seq::new(s.len(), |i: int| jv(s[i]))
}

/// The members of an object by value.
pub open spec fn members(s: Seq<(String, JsonValue)>) -> Seq<(Seq<char>, JsonView)> {
    Seq::new(s.len(), |i: int| (s[i].0@, jv(s[i].1)))
}

/// The value of the first member named `key`, when `v` is an object that has one.
#[verifier::opaque]
pub open spec fn member(v: JsonView, key: Seq<char>) -> Option<JsonView> {
    match v {
        JsonView::Object(ms) => if exists|i: int| 0 <= i < ms.len() && (#[trigger] ms[i]).0 == key {
            Some(ms[first_member(ms, key)].1)
        } else {
            None
        },
        _ => None,
    }
}

/// Position of the first member named `key`.
pub open spec fn first_member(ms: Seq<(Seq<char>, JsonView)>, key: Seq<char>) -> int {
    choose|i: int|
        0 <= i < ms.len() && (#[trigger] ms[i]).0 == key && forall|j: int| 0 <= j < i ==> (#[trigger] ms[j]).0 != key
}

/// A copy of a JSON value.
#[verifier::loop_isolation(false)]
pub fn copy_json(v: &JsonValue) -> (r: JsonValue)
    ensures
        jv(r) == jv(*v),
    decreases v,
{
    proof {
        reveal(jv);
    }
    match v {
        JsonValue::Null => JsonValue::Null,
        JsonValue::Bool(b) => JsonValue::Bool(*b),
        JsonValue::Number(n) => JsonValue::Number(
            match n {
                JsonNumber::Unsigned(u) => JsonNumber::Unsigned(*u),
                JsonNumber::Signed(i) => JsonNumber::Signed(*i),
                JsonNumber::Decimal(s) => JsonNumber::Decimal(s.clone()),
            },
        ),
        JsonValue::Str(s) => JsonValue::Str(s.clone()),
        JsonValue::Array(items) => {
            let mut out: Vec<JsonValue> = Vec::new();
            let mut i: usize = 0;
            while i < items.len()
                invariant
                    i <= items@.len(),
                    out@.len() == i,
                    forall|j: int| 0 <= j < i ==> jv(#[trigger] out@[j]) == jv(items@[j]),
                decreases items@.len() - i,
            {
                assert(decreases_to!(*v => *items));
                assert(decreases_to!(*items => items@));
                assert(decreases_to!(items@ => items@[i as int]));
                out.push(copy_json(&items[i]));
                i = i + 1;
            }
            let r = JsonValue::Array(out);
            assert(jv(r) == jv(*v)) by {
                if let JsonView::Array(a) = jv(r) {
                    if let JsonView::Array(b) = jv(*v) {
                        assert(a =~= b);
                    }
                }
            }
            r
        },
        JsonValue::Object(items) => {
            let mut out: Vec<(String, JsonValue)> = Vec::new();
            let mut i: usize = 0;
            while i < items.len()
                invariant
                    i <= items@.len(),
                    out@.len() == i,
                    forall|j: int|
                        0 <= j < i ==> (#[trigger] out@[j]).0@ == items@[j].0@ && jv(out@[j].1) == jv(items@[j].1),
                decreases items@.len() - i,
            {
                assert(decreases_to!(*v => *items));
                assert(decreases_to!(*items => items@));
                assert(decreases_to!(items@ => items@[i as int]));
                assert(decreases_to!(items@[i as int] => items@[i as int].1));
                out.push((items[i].0.clone(), copy_json(&items[i].1)));
                i = i + 1;
            }
            let r = JsonValue::Object(out);
            assert(jv(r) == jv(*v)) by {
                if let JsonView::Object(a) = jv(r) {
                    if let JsonView::Object(b) = jv(*v) {
                        assert(a =~= b);
                    }
                }
            }
            r
        },
    }
}

/// A string value.
pub fn json_text(s: &str) -> (r: JsonValue)
    ensures
        jv(r) == JsonView::Str(s@),
{
    proof {
        reveal(jv);
    }
    JsonValue::Str(s.to_string())
}

/// A non-negative integer value.
pub fn json_u64(n: u64) -> (r: JsonValue)
    ensures
        jv(r) == JsonView::Number(NumView::Unsigned(n)),
{
    proof {
        reveal(jv);
    }
    JsonValue::Number(JsonNumber::Unsigned(n))
}

/// The first member of `v` named `key`, when `v` is an object that has one.
pub fn get_member<'a>(v: &'a JsonValue, key: &str) -> (r: Option<&'a JsonValue>)
    ensures
        match r {
            Some(x) => member(jv(*v), key@) == Some(jv(*x)),
            None => member(jv(*v), key@) is None,
        },
{
    proof {
        reveal(jv);
        reveal(member);
    }
    match v {
        JsonValue::Object(items) => {
            let ghost ms = match jv(*v) {
                JsonView::Object(m) => m,
                _ => Seq::empty(),
            };
            assert(ms =~= members(items@));
            assert(jv(*v) == JsonView::Object(ms));
            let mut i: usize = 0;
            while i < items.len()
                invariant
                    i <= items@.len(),
                    ms == members(items@),
                    jv(*v) == JsonView::Object(ms),
                    forall|j: int| 0 <= j < i ==> (#[trigger] items@[j]).0@ != key@,
                decreases items@.len() - i,
            {
                if same_text(items[i].0.as_str(), key) {
                    proof {
                        assert(ms[i as int].0 == key@);
                        assert forall|j: int| 0 <= j < i implies (#[trigger] ms[j]).0 != key@ by {
                            assert(ms[j].0 == items@[j].0@);
                        }
                        assert(ms[i as int].1 == jv(items@[i as int].1));
                        let f = first_member(ms, key@);
                        assert(exists|t: int|
                            0 <= t < ms.len() && (#[trigger] ms[t]).0 == key@ && forall|j: int|
                                0 <= j < t ==> (#[trigger] ms[j]).0 != key@) by {
                            assert(0 <= i < ms.len() && ms[i as int].0 == key@);
                        }
                        if f < i {
                            assert(ms[f].0 != key@);
                        } else if f > i {
                            assert(ms[i as int].0 != key@);
                        }
                        assert(f == i);
                        reveal(member);
                        assert(jv(*v) == JsonView::Object(ms));
                        assert(member(jv(*v), key@) == Some(ms[f].1));
                    }
                    return Some(&items[i].1);
                }
                i = i + 1;
            }
            proof {
                reveal(member);
                assert forall|j: int| 0 <= j < ms.len() implies (#[trigger] ms[j]).0 != key@ by {
                    assert(ms[j].0 == items@[j].0@);
                }
            }
            None
        },
        _ => None,
    }
}

/// Whether `v` is an object.
pub fn is_object(v: &JsonValue) -> (r: bool)
    ensures
        r == (jv(*v) is Object),
{
    proof {
        reveal(jv);
    }
    match v {
        JsonValue::Object(_) => true,
        _ => false,
    }
}

/// Whether `v` is null.
pub fn is_null(v: &JsonValue) -> (r: bool)
    ensures
        r == (jv(*v) is Null),
{
    proof {
        reveal(jv);
    }
    match v {
        JsonValue::Null => true,
        _ => false,
    }
}

/// The text of a string value.
pub fn as_text(v: &JsonValue) -> (r: Option<&str>)
    ensures
        match r {
            Some(s) => jv(*v) == JsonView::Str(s@),
            None => !(jv(*v) is Str),
        },
{
    proof {
        reveal(jv);
    }
    match v {
        JsonValue::Str(s) => Some(s.as_str()),
        _ => None,
    }
}

/// The value of a non-negative integer.
pub fn as_u64(v: &JsonValue) -> (r: Option<u64>)
    ensures
        match r {
            Some(n) => jv(*v) == JsonView::Number(NumView::Unsigned(n)),
            None => !(jv(*v) matches JsonView::Number(NumView::Unsigned(_))),
        },
{
    proof {
        reveal(jv);
    }
    match v {
        JsonValue::Number(JsonNumber::Unsigned(n)) => Some(*n),
        _ => None,
    }
}

/// The value of a boolean.
pub fn as_bool(v: &JsonValue) -> (r: Option<bool>)
    ensures
        match r {
            Some(b) => jv(*v) == JsonView::Bool(b),
            None => !(jv(*v) is Bool),
        },
{
    proof {
        reveal(jv);
    }
    match v {
        JsonValue::Bool(b) => Some(*b),
        _ => None,
    }
}

/// The items of an array.
pub fn as_items(v: &JsonValue) -> (r: Option<&Vec<JsonValue>>)
    ensures
        match r {
            Some(items) => jv(*v) == JsonView::Array(jvs(items@)),
            None => !(jv(*v) is Array),
        },
{
    proof {
        reveal(jv);
    }
    match v {
        JsonValue::Array(items) => {
            assert(match jv(*v) {
                JsonView::Array(a) => a =~= jvs(items@),
                _ => false,
            });
            Some(items)
        },
        _ => None,
    }
}


/// A member: its key and its value.
pub fn pair(k: &str, v: JsonValue) -> (r: (String, JsonValue))
    ensures
        r.0@ == k@,
        jv(r.1) == jv(v),
{
    (k.to_string(), v)
}

/// A boolean value.
pub fn json_bool(b: bool) -> (r: JsonValue)
    ensures
        jv(r) == JsonView::Bool(b),
{
    proof {
        reveal(jv);
    }
    JsonValue::Bool(b)
}

/// An array of the given items, whose values are `views`.
pub fn array_json(items: Vec<JsonValue>, views: Ghost<Seq<JsonView>>) -> (r: JsonValue)
    requires
        items@.len() == views@.len(),
        forall|i: int| 0 <= i < items@.len() ==> jv(#[trigger] items@[i]) == views@[i],
    ensures
        jv(r) == JsonView::Array(views@),
{
    let r = JsonValue::Array(items);
    proof {
        reveal(jv);
        if let JsonView::Array(a) = jv(r) {
            assert(a =~= views@);
        }
    }
    r
}

/// An object of the given members, whose keys and values are `views`.
pub fn object_of(fields: Vec<(String, JsonValue)>, views: Ghost<Seq<(Seq<char>, JsonView)>>) -> (r: JsonValue)
    requires
        fields@.len() == views@.len(),
        forall|i: int|
            0 <= i < fields@.len() ==> (#[trigger] fields@[i]).0@ == views@[i].0 && jv(fields@[i].1) == views@[i].1,
    ensures
        jv(r) == JsonView::Object(views@),
{
    let r = JsonValue::Object(fields);
    proof {
        reveal(jv);
        if let JsonView::Object(ms) = jv(r) {
            assert(ms =~= views@);
        }
    }
    r
}

/// An integer value: kept unsigned when it is not negative, as JSON numbers are.
pub fn json_i64(n: i64) -> (r: JsonValue)
    ensures
        jv(r) == JsonView::Number(if n >= 0 { NumView::Unsigned(n as u64) } else { NumView::Signed(n) }),
{
    proof {
        reveal(jv);
    }
    if n >= 0 {
        JsonValue::Number(JsonNumber::Unsigned(n as u64))
    } else {
        JsonValue::Number(JsonNumber::Signed(n))
    }
}

} // verus!
