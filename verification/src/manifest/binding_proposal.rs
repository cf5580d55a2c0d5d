//! Binding proposals: a new generation of consumer → provider edges.

use vstd::prelude::*;

use crate::error::{is_validation, Error, Result};
use crate::manifest::cell::is_api_v1;
use crate::text::{join2, owned, same_text};

verus! {

/// A binding proposal manifest (`kind: BindingProposal`).
#[derive(Debug, Clone)]
pub struct BindingProposal {
    pub api_version: String,
    pub kind: String,
    pub metadata: ProposalMetadata,
    pub spec: ProposalSpec,
}

/// Who proposes, which generation, and why.
#[derive(Debug, Clone)]
pub struct ProposalMetadata {
    pub proposer: String,
    pub generation: u64,
    pub reason: Option<String>,
}

/// The proposed edges, and the generation they are meant to replace.
#[derive(Debug, Clone)]
pub struct ProposalSpec {
    pub bindings: Vec<ProposedBinding>,
    pub replace_generation: Option<u64>,
}

/// One proposed consumer → provider edge for a capability.
#[derive(Debug, Clone)]
pub struct ProposedBinding {
    pub consumer: String,
    pub provider: String,
    pub capability: String,
    pub required: bool,
}

/// A proposed edge with an empty consumer, provider or capability.
pub open spec fn edge_blank(b: ProposedBinding) -> bool {
    b.consumer@.len() == 0 || b.provider@.len() == 0 || b.capability@.len() == 0
}

/// The first rule a proposal breaks, as its message; `None` when valid.
pub open spec fn proposal_problem(p: BindingProposal) -> Option<Seq<char>> {
    if p.api_version@ != crate::manifest::cell::api_v1() {
        Some("unsupported apiVersion: "@ + p.api_version@)
    } else if p.kind@ != "BindingProposal"@ {
        Some("expected kind BindingProposal, got "@ + p.kind@)
    } else if p.metadata.proposer@.len() == 0 {
        Some("proposer required"@)
    } else if p.metadata.generation == 0 {
        Some("generation must be >= 1"@)
    } else if p.spec.bindings@.len() == 0 {
        Some("proposal must include bindings"@)
    } else if exists|i: int| 0 <= i < p.spec.bindings@.len() && edge_blank(#[trigger] p.spec.bindings@[i]) {
        Some("binding consumer/provider/capability required"@)
    } else {
        None
    }
}

/// Checks a proposal: API version, kind, proposer, generation ≥ 1, at least one
/// binding, and no binding with an empty consumer, provider or capability.
#[verifier::loop_isolation(false)]
pub fn validate_binding_proposal(p: &BindingProposal) -> (r: Result<()>)
    ensures
        r is Ok <==> proposal_problem(*p) is None,
        r matches Err(e) ==> is_validation(e, proposal_problem(*p)->0),
{
    if !is_api_v1(p.api_version.as_str()) {
        return Err(Error::Validation(join2("unsupported apiVersion: ", p.api_version.as_str())));
    }
    if !same_text(p.kind.as_str(), "BindingProposal") {
        return Err(Error::Validation(join2("expected kind BindingProposal, got ", p.kind.as_str())));
    }
    if p.metadata.proposer.as_str().unicode_len() == 0 {
        return Err(Error::Validation(owned("proposer required")));
    }
    if p.metadata.generation == 0 {
        return Err(Error::Validation(owned("generation must be >= 1")));
    }
    if p.spec.bindings.len() == 0 {
        return Err(Error::Validation(owned("proposal must include bindings")));
    }
    let mut i: usize = 0;
    while i < p.spec.bindings.len()
        invariant
            i <= p.spec.bindings@.len(),
            forall|j: int| 0 <= j < i ==> !edge_blank(#[trigger] p.spec.bindings@[j]),
        decreases p.spec.bindings@.len() - i,
    {
        let b = &p.spec.bindings[i];
        if b.consumer.as_str().unicode_len() == 0 || b.provider.as_str().unicode_len() == 0
            || b.capability.as_str().unicode_len() == 0 {
            assert(edge_blank(p.spec.bindings@[i as int]));
            return Err(Error::Validation(owned("binding consumer/provider/capability required")));
        }
        i = i + 1;
    }
    Ok(())
}

} // verus!
