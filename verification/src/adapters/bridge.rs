//! What an adapter makes of a Host's control answers.

use vstd::prelude::*;

use crate::adapters::a2a::or_null;
use crate::autoconfig::text_member;
use crate::json::{copy_json, get_member, jv, member, JsonValue, JsonView};
use crate::text::owned;

verus! {

/// The outcome a control answer `resp` carries: its `result` (null when absent)
/// when `ok` is true, else its `error` text, or `fallback` when it gives none.
pub open spec fn answer_of(resp: JsonView, fallback: Seq<char>) -> Result<JsonView, Seq<char>> {
    if member(resp, "ok"@) == Some(JsonView::Bool(true)) {
        Ok(or_null(member(resp, "result"@)))
    } else {
        match text_member(resp, "error"@) {
            Some(e) => Err(e),
            None => Err(fallback),
        }
    }
}

/// The outcome of the control answer `resp` (see `answer_of`).
pub fn answer_result(resp: &JsonValue, fallback: &str) -> (r: Result<JsonValue, String>)
    ensures
        match answer_of(jv(*resp), fallback@) {
            Ok(v) => r matches Ok(x) && jv(x) == v,
            Err(m) => r matches Err(e) && e@ == m,
        },
{
    proof {
        reveal(jv);
    }
    let ok = match get_member(resp, "ok") {
        Some(JsonValue::Bool(b)) => *b,
        _ => false,
    };
    if ok {
        match get_member(resp, "result") {
            Some(x) => Ok(copy_json(x)),
            None => Ok(JsonValue::Null),
        }
    } else {
        match get_member(resp, "error") {
            Some(JsonValue::Str(e)) => Err(owned(e.as_str())),
            _ => Err(owned(fallback)),
        }
    }
}

/// The providers listed in a discover result: its `providers`, else an empty array.
pub open spec fn providers_in(result: JsonView) -> JsonView {
    match member(result, "providers"@) {
        Some(p) => p,
        None => JsonView::Array(Seq::empty()),
    }
}

/// The providers listed in a discover result (see `providers_in`).
pub fn providers_of(result: &JsonValue) -> (r: JsonValue)
    ensures
        jv(r) == providers_in(jv(*result)),
{
    match get_member(result, "providers") {
        Some(p) => copy_json(p),
        None => {
            proof {
                reveal(jv);
            }
            let v: Vec<JsonValue> = Vec::new();
            let r = JsonValue::Array(v);
            assert(jv(r) == JsonView::Array(Seq::empty())) by {
                if let JsonView::Array(a) = jv(r) {
                    assert(a =~= Seq::<JsonView>::empty());
                }
            }
            r
        },
    }
}

} // verus!
