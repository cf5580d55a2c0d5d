//! Reading a binding proposal out of a JSON value, the way a Cell's
//! `binding-propose` reply carries it (camelCase members; `reason` and
//! `replaceGeneration` may be missing or null; `required` defaults to true).

use vstd::prelude::*;

use crate::error::{Error, Result};
use crate::json::{as_bool, as_items, as_text, as_u64, get_member, is_null, is_object, jv, jvs, member, JsonValue, JsonView, NumView};
use crate::manifest::binding_proposal::{BindingProposal, ProposalMetadata, ProposalSpec, ProposedBinding};
use crate::text::{join3, owned};

verus! {

/// The text of member `key`, when it is a string.
pub open spec fn text_member(v: JsonView, key: Seq<char>) -> Option<Seq<char>> {
    match member(v, key) {
        Some(JsonView::Str(s)) => Some(s),
        _ => None,
    }
}

/// The value of member `key`, when it is a non-negative integer.
pub open spec fn u64_member(v: JsonView, key: Seq<char>) -> Option<u64> {
    match member(v, key) {
        Some(JsonView::Number(NumView::Unsigned(n))) => Some(n),
        _ => None,
    }
}

/// Member `key` is missing, null, or of the shape `ok` accepts.
pub open spec fn optional_ok(v: JsonView, key: Seq<char>, text: bool) -> bool {
    match member(v, key) {
        None => true,
        Some(JsonView::Null) => true,
        Some(JsonView::Str(_)) => text,
        Some(JsonView::Number(NumView::Unsigned(_))) => !text,
        _ => false,
    }
}

/// `required` of an edge: missing means true.
pub open spec fn required_of(e: JsonView) -> Option<bool> {
    match member(e, "required"@) {
        None => Some(true),
        Some(JsonView::Bool(b)) => Some(b),
        _ => None,
    }
}

/// An edge object with string ends and capability, and a boolean `required` if any.
pub open spec fn edge_ok(e: JsonView) -> bool {
    &&& e is Object
    &&& text_member(e, "consumer"@) is Some
    &&& text_member(e, "provider"@) is Some
    &&& text_member(e, "capability"@) is Some
    &&& required_of(e) is Some
}

/// The edges of a proposal value, when `spec.bindings` is an array.
pub open spec fn edges_of(v: JsonView) -> Option<Seq<JsonView>> {
    match member(v, "spec"@) {
        Some(sp) => match member(sp, "bindings"@) {
            Some(JsonView::Array(items)) => Some(items),
            _ => None,
        },
        None => None,
    }
}

/// `v` has the shape of a binding proposal.
pub open spec fn proposal_ok(v: JsonView) -> bool {
    &&& v is Object
    &&& text_member(v, "apiVersion"@) is Some
    &&& text_member(v, "kind"@) is Some
    &&& member(v, "metadata"@) matches Some(md) && md is Object && text_member(md, "proposer"@) is Some && u64_member(
        md,
        "generation"@,
    ) is Some && optional_ok(md, "reason"@, true)
    &&& member(v, "spec"@) matches Some(sp) && sp is Object && optional_ok(sp, "replaceGeneration"@, false)
    &&& edges_of(v) matches Some(items) && forall|i: int| 0 <= i < items.len() ==> edge_ok(#[trigger] items[i])
}

/// `p` holds what the proposal value `v` says.
pub open spec fn proposal_read(p: BindingProposal, v: JsonView) -> bool {
    let md = member(v, "metadata"@)->0;
    let sp = member(v, "spec"@)->0;
    let items = edges_of(v)->0;
    &&& p.api_version@ == text_member(v, "apiVersion"@)->0
    &&& p.kind@ == text_member(v, "kind"@)->0
    &&& p.metadata.proposer@ == text_member(md, "proposer"@)->0
    &&& p.metadata.generation == u64_member(md, "generation"@)->0
    &&& crate::subprocess::opt_seq(p.metadata.reason) == text_member(md, "reason"@)
    &&& p.spec.replace_generation == u64_member(sp, "replaceGeneration"@)
    &&& p.spec.bindings@.len() == items.len()
    &&& forall|i: int|
        0 <= i < items.len() ==> {
            let b = #[trigger] p.spec.bindings@[i];
            &&& b.consumer@ == text_member(items[i], "consumer"@)->0
            &&& b.provider@ == text_member(items[i], "provider"@)->0
            &&& b.capability@ == text_member(items[i], "capability"@)->0
            &&& b.required == required_of(items[i])->0
        }
}

fn bad(field: &str) -> (r: Error)
    ensures
        r matches Error::Json(m) && m@ == "binding proposal: missing or invalid `"@ + field@ + "`"@,
{
    Error::Json(join3("binding proposal: missing or invalid `", field, "`"))
}

fn text_field(v: &JsonValue, key: &str) -> (r: Option<String>)
    ensures
        match r {
            Some(s) => text_member(jv(*v), key@) == Some(s@),
            None => text_member(jv(*v), key@) is None,
        },
{
    match get_member(v, key) {
        Some(x) => match as_text(x) {
            Some(s) => Some(owned(s)),
            None => None,
        },
        None => None,
    }
}

fn u64_field(v: &JsonValue, key: &str) -> (r: Option<u64>)
    ensures
        r == u64_member(jv(*v), key@),
{
    match get_member(v, key) {
        Some(x) => as_u64(x),
        None => None,
    }
}

fn edge_from_json(e: &JsonValue) -> (r: Result<ProposedBinding>)
    ensures
        r is Ok <==> edge_ok(jv(*e)),
        r matches Ok(b) ==> b.consumer@ == text_member(jv(*e), "consumer"@)->0 && b.provider@ == text_member(
            jv(*e),
            "provider"@,
        )->0 && b.capability@ == text_member(jv(*e), "capability"@)->0 && b.required == required_of(jv(*e))->0,
        r matches Err(x) ==> x is Json,
{
    if !is_object(e) {
        return Err(bad("spec.bindings"));
    }
    let consumer = match text_field(e, "consumer") {
        Some(s) => s,
        None => {
            return Err(bad("consumer"));
        },
    };
    let provider = match text_field(e, "provider") {
        Some(s) => s,
        None => {
            return Err(bad("provider"));
        },
    };
    let capability = match text_field(e, "capability") {
        Some(s) => s,
        None => {
            return Err(bad("capability"));
        },
    };
    let required = match get_member(e, "required") {
        None => true,
        Some(x) => match as_bool(x) {
            Some(b) => b,
            None => {
                return Err(bad("required"));
            },
        },
    };
    Ok(ProposedBinding { consumer, provider, capability, required })
}

/// Reads every edge of a proposal.
fn edges_from_json(items: &Vec<JsonValue>) -> (r: Result<Vec<ProposedBinding>>)
    ensures
        r is Ok <==> forall|i: int| 0 <= i < items@.len() ==> edge_ok(#[trigger] jvs(items@)[i]),
        r matches Ok(bindings) ==> bindings@.len() == items@.len() && forall|j: int|
            0 <= j < items@.len() ==> {
                let b = #[trigger] bindings@[j];
                &&& b.consumer@ == text_member(jvs(items@)[j], "consumer"@)->0
                &&& b.provider@ == text_member(jvs(items@)[j], "provider"@)->0
                &&& b.capability@ == text_member(jvs(items@)[j], "capability"@)->0
                &&& b.required == required_of(jvs(items@)[j])->0
            },
        r matches Err(e) ==> e is Json,
{
    let ghost views = jvs(items@);
    let mut bindings: Vec<ProposedBinding> = Vec::new();
    let mut i: usize = 0;
    while i < items.len()
        invariant
            i <= items@.len(),
            views == jvs(items@),
            bindings@.len() == i,
            forall|j: int| 0 <= j < i ==> edge_ok(#[trigger] views[j]),
            forall|j: int|
                0 <= j < i ==> {
                    let b = #[trigger] bindings@[j];
                    &&& b.consumer@ == text_member(views[j], "consumer"@)->0
                    &&& b.provider@ == text_member(views[j], "provider"@)->0
                    &&& b.capability@ == text_member(views[j], "capability"@)->0
                    &&& b.required == required_of(views[j])->0
                },
        decreases items@.len() - i,
    {
        assert(views[i as int] == jv(items@[i as int]));
        match edge_from_json(&items[i]) {
            Ok(b) => {
                bindings.push(b);
            },
            Err(e) => {
                assert(!edge_ok(views[i as int]));
                return Err(e);
            },
        }
        i = i + 1;
    }
    Ok(bindings)
}

/// Reads a binding proposal out of `v`.
pub fn proposal_from_json(v: &JsonValue) -> (r: Result<BindingProposal>)
    ensures
        r is Ok <==> proposal_ok(jv(*v)),
        r matches Ok(p) ==> proposal_read(p, jv(*v)),
        r matches Err(e) ==> e is Json,
{
    if !is_object(v) {
        return Err(bad("proposal"));
    }
    let api_version = match text_field(v, "apiVersion") {
        Some(s) => s,
        None => {
            return Err(bad("apiVersion"));
        },
    };
    let kind = match text_field(v, "kind") {
        Some(s) => s,
        None => {
            return Err(bad("kind"));
        },
    };
    let md = match get_member(v, "metadata") {
        Some(m) => m,
        None => {
            return Err(bad("metadata"));
        },
    };
    if !is_object(md) {
        return Err(bad("metadata"));
    }
    let proposer = match text_field(md, "proposer") {
        Some(s) => s,
        None => {
            return Err(bad("metadata.proposer"));
        },
    };
    let generation = match u64_field(md, "generation") {
        Some(n) => n,
        None => {
            return Err(bad("metadata.generation"));
        },
    };
    let reason = match get_member(md, "reason") {
        None => None,
        Some(x) => if is_null(x) {
            None
        } else {
            match as_text(x) {
                Some(s) => Some(owned(s)),
                None => {
                    return Err(bad("metadata.reason"));
                },
            }
        },
    };
    let sp = match get_member(v, "spec") {
        Some(s) => s,
        None => {
            return Err(bad("spec"));
        },
    };
    if !is_object(sp) {
        return Err(bad("spec"));
    }
    let replace_generation = match get_member(sp, "replaceGeneration") {
        None => None,
        Some(x) => if is_null(x) {
            None
        } else {
            match as_u64(x) {
                Some(n) => Some(n),
                None => {
                    return Err(bad("spec.replaceGeneration"));
                },
            }
        },
    };
    let items = match get_member(sp, "bindings") {
        Some(b) => match as_items(b) {
            Some(items) => items,
            None => {
                return Err(bad("spec.bindings"));
            },
        },
        None => {
            return Err(bad("spec.bindings"));
        },
    };
    assert(edges_of(jv(*v)) == Some(jvs(items@)));
    let bindings = match edges_from_json(items) {
        Ok(b) => b,
        Err(e) => {
            proof {
                if proposal_ok(jv(*v)) {
                    let ev = edges_of(jv(*v))->0;
                    assert(ev == jvs(items@));
                    assert forall|i: int| 0 <= i < items@.len() implies edge_ok(#[trigger] jvs(items@)[i]) by {
                        assert(edge_ok(ev[i]));
                    }
                }
            }
            return Err(e);
        },
    };
    Ok(
        BindingProposal {
            api_version,
            kind,
            metadata: ProposalMetadata { proposer, generation, reason },
            spec: ProposalSpec { bindings, replace_generation },
        },
    )
}

} // verus!
