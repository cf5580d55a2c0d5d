//! Active bindings: the current generation of consumer → provider edges, and the
//! checked, all-or-nothing swap to a proposed generation.

use vstd::prelude::*;

use crate::error::{is_binding, is_validation, Error, Result};
use crate::lifecycle::{routable, state_name};
use crate::manifest::binding_proposal::{
    proposal_problem, validate_binding_proposal, BindingProposal, ProposedBinding,
};
use crate::manifest::cell::CellManifest;
use crate::registry::{name_index, provides_cap, rec_state, CellRecord, LocalRegistry};
use crate::text::{decimal, decimal_text, join4, join5, same_text};

verus! {

/// One live consumer → provider edge for a capability.
#[derive(Debug, Clone)]
pub struct ActiveBinding {
    pub consumer: String,
    pub provider: String,
    pub capability: String,
    pub required: bool,
}

/// An edge by value: consumer, provider, capability, required.
pub type EdgeView = (Seq<char>, Seq<char>, Seq<char>, bool);

/// The value of a live edge.
pub open spec fn edge_view(b: ActiveBinding) -> EdgeView {
    (b.consumer@, b.provider@, b.capability@, b.required)
}

/// The values of a list of live edges.
pub open spec fn edge_views(s: Seq<ActiveBinding>) -> Seq<EdgeView> {
    s.map_values(|b: ActiveBinding| edge_view(b))
}

/// The value of a proposed edge.
pub open spec fn proposed_view(b: ProposedBinding) -> EdgeView {
    (b.consumer@, b.provider@, b.capability@, b.required)
}

/// The values of a list of proposed edges.
pub open spec fn proposed_views(s: Seq<ProposedBinding>) -> Seq<EdgeView> {
    s.map_values(|b: ProposedBinding| proposed_view(b))
}

/// A copy of a live edge.
pub fn copy_binding(b: &ActiveBinding) -> (r: ActiveBinding)
    ensures
        edge_view(r) == edge_view(*b),
{
    ActiveBinding {
        consumer: b.consumer.clone(),
        provider: b.provider.clone(),
        capability: b.capability.clone(),
        required: b.required,
    }
}

/// The live binding generation and its edges.
#[derive(Debug, Clone)]
pub struct BindingSet {
    generation: u64,
    bindings: Vec<ActiveBinding>,
}

impl Default for BindingSet {
    fn default() -> (r: Self)
        ensures
            r.current_generation() == 0,
            r.items().len() == 0,
    {
        BindingSet { generation: 0, bindings: Vec::new() }
    }
}

/// Outcome of applying a proposal.
#[derive(Debug, Clone)]
pub enum BindingApplyResult {
    Applied { generation: u64 },
    Rejected { reason: String },
}

/// The edge joins `consumer` to a provider of `capability`.
pub open spec fn edge_for(b: ActiveBinding, consumer: Seq<char>, capability: Seq<char>) -> bool {
    b.consumer@ == consumer && b.capability@ == capability
}

/// Position of the first edge from `consumer` for `capability`, or -1.
pub open spec fn first_edge(items: Seq<ActiveBinding>, consumer: Seq<char>, capability: Seq<char>) -> int {
    if exists|i: int| 0 <= i < items.len() && edge_for(#[trigger] items[i], consumer, capability) {
        choose|i: int|
            0 <= i < items.len() && edge_for(items[i], consumer, capability) && forall|j: int|
                0 <= j < i ==> !edge_for(#[trigger] items[j], consumer, capability)
    } else {
        -1
    }
}

/// The first matching edge is where `first_edge` points.
pub proof fn lemma_first_edge(items: Seq<ActiveBinding>, consumer: Seq<char>, capability: Seq<char>, i: int)
    requires
        0 <= i < items.len(),
        edge_for(items[i], consumer, capability),
        forall|j: int| 0 <= j < i ==> !edge_for(#[trigger] items[j], consumer, capability),
    ensures
        first_edge(items, consumer, capability) == i,
{
    assert(exists|k: int|
        0 <= k < items.len() && edge_for(items[k], consumer, capability) && forall|j: int|
            0 <= j < k ==> !edge_for(#[trigger] items[j], consumer, capability));
    let k = first_edge(items, consumer, capability);
    if k < i {
        assert(!edge_for(items[k], consumer, capability));
    } else if k > i {
        assert(!edge_for(items[i], consumer, capability));
    }
}

/// The edge mentions Cell `name` at either end.
pub open spec fn touches(b: ActiveBinding, name: Seq<char>) -> bool {
    b.consumer@ == name || b.provider@ == name
}

/// The edges that do not mention `name`, in order.
pub open spec fn without_cell(s: Seq<ActiveBinding>, name: Seq<char>) -> Seq<ActiveBinding>
    decreases s.len(),
{
    if s.len() == 0 {
        s
    } else if touches(s.last(), name) {
        without_cell(s.drop_last(), name)
    } else {
        without_cell(s.drop_last(), name).push(s.last())
    }
}

/// Generation after a change: one more, saturating, and at least 1.
pub open spec fn bumped(g: u64) -> u64 {
    if g == u64::MAX {
        u64::MAX
    } else {
        (g + 1) as u64
    }
}

impl BindingSet {
    /// The generation number.
    pub closed spec fn current_generation(&self) -> u64 {
        self.generation
    }

    /// The edges, in order.
    pub closed spec fn items(&self) -> Seq<ActiveBinding> {
        self.bindings@
    }

    /// Current generation.
    pub fn generation(&self) -> (r: u64)
        ensures
            r == self.current_generation(),
    {
        self.generation
    }

    /// Current edges.
    pub fn bindings(&self) -> (r: &[ActiveBinding])
        ensures
            r@ == self.items(),
    {
        self.bindings.as_slice()
    }

    /// The first edge from `consumer` for `capability`.
    pub fn provider_for(&self, consumer: &str, capability: &str) -> (r: Option<&ActiveBinding>)
        ensures
            r is None <==> forall|i: int|
                0 <= i < self.items().len() ==> !edge_for(#[trigger] self.items()[i], consumer@, capability@),
            r is None <==> first_edge(self.items(), consumer@, capability@) < 0,
            r matches Some(b) ==> exists|i: int|
                0 <= i < self.items().len() && *b == self.items()[i] && edge_for(self.items()[i], consumer@, capability@)
                    && forall|j: int| 0 <= j < i ==> !edge_for(#[trigger] self.items()[j], consumer@, capability@),
            r matches Some(b) ==> *b == self.items()[first_edge(self.items(), consumer@, capability@)],
    {
        let mut i: usize = 0;
        while i < self.bindings.len()
            invariant
                i <= self.bindings@.len(),
                forall|j: int| 0 <= j < i ==> !edge_for(#[trigger] self.bindings@[j], consumer@, capability@),
            decreases self.bindings@.len() - i,
        {
            let b = &self.bindings[i];
            if same_text(b.consumer.as_str(), consumer) && same_text(b.capability.as_str(), capability) {
                assert(edge_for(self.items()[i as int], consumer@, capability@));
                proof {
                    lemma_first_edge(self.items(), consumer@, capability@, i as int);
                }
                return Some(b);
            }
            i = i + 1;
        }
        None
    }

    /// Drops every edge that mentions `name`; when any was dropped the generation goes
    /// up by one (saturating) and `true` is returned.
    pub fn retain_without_cell(&mut self, name: &str) -> (r: bool)
        ensures
            final(self).items() == without_cell(old(self).items(), name@),
            r == (without_cell(old(self).items(), name@).len() != old(self).items().len()),
            r ==> final(self).current_generation() == bumped(old(self).current_generation()),
            !r ==> final(self).current_generation() == old(self).current_generation(),
    {
        let before = self.bindings.len();
        let mut kept: Vec<ActiveBinding> = Vec::new();
        let mut old_list: Vec<ActiveBinding> = Vec::new();
        core::mem::swap(&mut old_list, &mut self.bindings);
        let ghost src = old_list@;
        let mut i: usize = 0;
        assert(src.take(0) =~= Seq::<ActiveBinding>::empty());
        while i < old_list.len()
            invariant
                old_list@ == src,
                i <= src.len(),
                kept@ == without_cell(src.take(i as int), name@),
            decreases src.len() - i,
        {
            let b = &old_list[i];
            proof {
                assert(src.take(i + 1).drop_last() =~= src.take(i as int));
                assert(src.take(i + 1).last() == src[i as int]);
            }
            if !same_text(b.consumer.as_str(), name) && !same_text(b.provider.as_str(), name) {
                kept.push(copy_binding_exact(b));
            }
            i = i + 1;
        }
        assert(src.take(src.len() as int) =~= src);
        self.bindings = kept;
        if self.bindings.len() != before {
            self.generation = self.generation.saturating_add(1);
            if self.generation < 1 {
                self.generation = 1;
            }
            true
        } else {
            false
        }
    }

    /// Replaces generation and edges wholesale.
    pub fn replace(&mut self, generation: u64, bindings: Vec<ActiveBinding>)
        ensures
            final(self).current_generation() == generation,
            final(self).items() == bindings@,
    {
        self.generation = generation;
        self.bindings = bindings;
    }

    /// The edges, taking the set apart.
    pub fn into_items(self) -> (r: Vec<ActiveBinding>)
        ensures
            r@ == self.items(),
    {
        self.bindings
    }

    /// A copy of the set, edge for edge.
    pub fn duplicate(&self) -> (r: BindingSet)
        ensures
            r.current_generation() == self.current_generation(),
            r.items() == self.items(),
    {
        let mut out: Vec<ActiveBinding> = Vec::new();
        let mut i: usize = 0;
        while i < self.bindings.len()
            invariant
                i <= self.bindings@.len(),
                out@ == self.bindings@.take(i as int),
            decreases self.bindings@.len() - i,
        {
            out.push(copy_binding_exact(&self.bindings[i]));
            assert(out@ =~= self.bindings@.take(i + 1));
            i = i + 1;
        }
        assert(out@ =~= self.bindings@);
        BindingSet { generation: self.generation, bindings: out }
    }
}

/// A copy of a live edge that is equal to it as a value.
fn copy_binding_exact(b: &ActiveBinding) -> (r: ActiveBinding)
    ensures
        r == *b,
{
    ActiveBinding {
        consumer: b.consumer.clone(),
        provider: b.provider.clone(),
        capability: b.capability.clone(),
        required: b.required,
    }
}

/// The Cell lists a requirement named `cap`.
pub open spec fn requires_named(m: CellManifest, cap: Seq<char>) -> bool {
    exists|k: int| 0 <= k < m.spec.requires@.len() && (#[trigger] m.spec.requires@[k]).name@ == cap
}

/// The Cell has a port named `cap`.
pub open spec fn port_named(m: CellManifest, cap: Seq<char>) -> bool {
    exists|k: int| 0 <= k < m.spec.ports@.len() && (#[trigger] m.spec.ports@[k]).name@ == cap
}

/// Why an edge cannot be bound in the registry `recs`; `None` when it can.
pub open spec fn pair_problem(recs: Seq<CellRecord>, b: ProposedBinding) -> Option<Seq<char>> {
    let ci = name_index(recs, b.consumer@);
    let pi = name_index(recs, b.provider@);
    if ci < 0 {
        Some("unknown consumer `"@ + b.consumer@ + "`"@)
    } else if pi < 0 {
        Some("unknown provider `"@ + b.provider@ + "`"@)
    } else if !routable(rec_state(recs[pi])) {
        Some("provider `"@ + b.provider@ + "` not routable ("@ + state_name(rec_state(recs[pi])) + ")"@)
    } else if !provides_cap(recs[pi], b.capability@, None) {
        Some("provider `"@ + b.provider@ + "` does not provide `"@ + b.capability@ + "`"@)
    } else if !requires_named(recs[ci].manifest, b.capability@) && !port_named(recs[ci].manifest, b.capability@)
        && recs[ci].manifest.spec.requires@.len() > 0 {
        Some("consumer `"@ + b.consumer@ + "` does not require `"@ + b.capability@ + "`"@)
    } else {
        None
    }
}

/// Every edge of `edges` can be bound in `recs`.
pub open spec fn all_pairs_ok(recs: Seq<CellRecord>, edges: Seq<ProposedBinding>) -> bool {
    forall|i: int| 0 <= i < edges.len() ==> (#[trigger] pair_problem(recs, edges[i])) is None
}

/// `i` is the first edge of `edges` that cannot be bound in `recs`.
pub open spec fn first_bad_pair(recs: Seq<CellRecord>, edges: Seq<ProposedBinding>, i: int) -> bool {
    &&& 0 <= i < edges.len()
    &&& pair_problem(recs, edges[i]) is Some
    &&& forall|j: int| 0 <= j < i ==> (#[trigger] pair_problem(recs, edges[j])) is None
}

fn provides_named(m: &CellManifest, cap: &str) -> (r: bool)
    ensures
        r == (exists|k: int| 0 <= k < m.spec.provides@.len() && (#[trigger] m.spec.provides@[k]).name@ == cap@),
{
    let mut i: usize = 0;
    while i < m.spec.provides.len()
        invariant
            i <= m.spec.provides@.len(),
            forall|k: int| 0 <= k < i ==> (#[trigger] m.spec.provides@[k]).name@ != cap@,
        decreases m.spec.provides@.len() - i,
    {
        if same_text(m.spec.provides[i].name.as_str(), cap) {
            return true;
        }
        i = i + 1;
    }
    false
}

fn has_requirement(m: &CellManifest, cap: &str) -> (r: bool)
    ensures
        r == requires_named(*m, cap@),
{
    let mut i: usize = 0;
    while i < m.spec.requires.len()
        invariant
            i <= m.spec.requires@.len(),
            forall|k: int| 0 <= k < i ==> (#[trigger] m.spec.requires@[k]).name@ != cap@,
        decreases m.spec.requires@.len() - i,
    {
        if same_text(m.spec.requires[i].name.as_str(), cap) {
            return true;
        }
        i = i + 1;
    }
    false
}

fn has_port(m: &CellManifest, cap: &str) -> (r: bool)
    ensures
        r == port_named(*m, cap@),
{
    let mut i: usize = 0;
    while i < m.spec.ports.len()
        invariant
            i <= m.spec.ports@.len(),
            forall|k: int| 0 <= k < i ==> (#[trigger] m.spec.ports@[k]).name@ != cap@,
        decreases m.spec.ports@.len() - i,
    {
        if same_text(m.spec.ports[i].name.as_str(), cap) {
            return true;
        }
        i = i + 1;
    }
    false
}

/// Checks one proposed edge against the live registry: both Cells known, the provider
/// routable and providing the capability, and the consumer asking for it when it
/// lists any requirement.
pub fn check_pair(registry: &LocalRegistry, b: &ProposedBinding) -> (r: Result<()>)
    requires
        registry.wf(),
    ensures
        r is Ok <==> pair_problem(registry.records(), *b) is None,
        r matches Err(e) ==> is_binding(e, pair_problem(registry.records(), *b)->0),
{
    let ghost recs = registry.records();
    let consumer = match registry.by_name(b.consumer.as_str()) {
        Some(c) => c,
        None => {
            return Err(Error::Binding(join3s("unknown consumer `", b.consumer.as_str(), "`")));
        },
    };
    let provider = match registry.by_name(b.provider.as_str()) {
        Some(p) => p,
        None => {
            return Err(Error::Binding(join3s("unknown provider `", b.provider.as_str(), "`")));
        },
    };
    let state = provider.state();
    if !state.can_route() {
        let shown = state.debug_name();
        return Err(Error::Binding(join5("provider `", b.provider.as_str(), "` not routable (", shown.as_str(), ")")));
    }
    if !provides_named(&provider.manifest, b.capability.as_str()) {
        return Err(
            Error::Binding(join5("provider `", b.provider.as_str(), "` does not provide `", b.capability.as_str(), "`")),
        );
    }
    let asks = has_requirement(&consumer.manifest, b.capability.as_str());
    let port = has_port(&consumer.manifest, b.capability.as_str());
    if !asks && !port && consumer.manifest.spec.requires.len() > 0 {
        return Err(
            Error::Binding(join5("consumer `", b.consumer.as_str(), "` does not require `", b.capability.as_str(), "`")),
        );
    }
    Ok(())
}

fn join3s(a: &str, b: &str, c: &str) -> (r: String)
    ensures
        r@ == a@ + b@ + c@,
{
    crate::text::join3(a, b, c)
}

/// Checks a proposal on its own, then each of its edges against the live registry.
pub fn validate_proposal(registry: &LocalRegistry, proposal: &BindingProposal) -> (r: Result<()>)
    requires
        registry.wf(),
    ensures
        r is Ok <==> proposal_problem(*proposal) is None && all_pairs_ok(registry.records(), proposal.spec.bindings@),
        proposal_problem(*proposal) is Some ==> (r matches Err(e) && is_validation(e, proposal_problem(*proposal)->0)),
        proposal_problem(*proposal) is None && r is Err ==> exists|i: int|
            first_bad_pair(registry.records(), proposal.spec.bindings@, i) && (r matches Err(e) && is_binding(
                e,
                pair_problem(registry.records(), proposal.spec.bindings@[i])->0,
            )),
{
    validate_binding_proposal(proposal)?;
    let mut i: usize = 0;
    while i < proposal.spec.bindings.len()
        invariant
            registry.wf(),
            proposal_problem(*proposal) is None,
            i <= proposal.spec.bindings@.len(),
            forall|j: int| 0 <= j < i ==> (#[trigger] pair_problem(registry.records(), proposal.spec.bindings@[j])) is None,
        decreases proposal.spec.bindings@.len() - i,
    {
        let res = check_pair(registry, &proposal.spec.bindings[i]);
        match res {
            Ok(()) => {},
            Err(e) => {
                assert(first_bad_pair(registry.records(), proposal.spec.bindings@, i as int));
                return Err(e);
            },
        }
        i = i + 1;
    }
    Ok(())
}

/// Message of a refused compare-and-swap.
pub open spec fn replace_mismatch_msg(expected: u64, current: u64) -> Seq<char> {
    "replaceGeneration "@ + decimal(expected as nat) + " != current "@ + decimal(current as nat)
}

/// Message of a stale proposal.
pub open spec fn stale_msg(proposed: u64, current: u64) -> Seq<char> {
    "proposal generation "@ + decimal(proposed as nat) + " not greater than current "@ + decimal(current as nat)
}

/// What `apply_proposal` refuses before looking at the edges; `None` when it goes on.
pub open spec fn refusal(current: u64, p: BindingProposal) -> Option<Seq<char>> {
    if p.spec.replace_generation is Some && p.spec.replace_generation->0 != current {
        Some(replace_mismatch_msg(p.spec.replace_generation->0, current))
    } else if p.metadata.generation <= current {
        Some(stale_msg(p.metadata.generation, current))
    } else {
        None
    }
}

/// Applies a proposal as one step. A proposal whose `replaceGeneration` is not the
/// current generation, or whose generation is not greater than the current one, is
/// answered `Rejected` and the current set is handed back unchanged. Otherwise the
/// proposal is validated (an invalid one is an error) and its edges become the new
/// set at the proposal's generation.
pub fn apply_proposal(registry: &LocalRegistry, current: &BindingSet, proposal: BindingProposal) -> (r: Result<
    (BindingSet, BindingApplyResult),
>)
    requires
        registry.wf(),
    ensures
        refusal(current.current_generation(), proposal) is Some ==> (r matches Ok((set, res)) && set.current_generation()
            == current.current_generation() && set.items() == current.items() && (res matches BindingApplyResult::Rejected {
            reason,
        } && reason@ == refusal(current.current_generation(), proposal)->0)),
        refusal(current.current_generation(), proposal) is None ==> {
            &&& r is Ok <==> proposal_problem(proposal) is None && all_pairs_ok(registry.records(), proposal.spec.bindings@)
            &&& r matches Ok((set, res)) ==> {
                &&& set.current_generation() == proposal.metadata.generation
                &&& set.current_generation() > current.current_generation()
                &&& edge_views(set.items()) == proposed_views(proposal.spec.bindings@)
                &&& res matches BindingApplyResult::Applied { generation } && generation == proposal.metadata.generation
            }
            &&& proposal_problem(proposal) is Some ==> (r matches Err(e) && is_validation(e, proposal_problem(proposal)->0))
            &&& proposal_problem(proposal) is None && r is Err ==> exists|i: int|
                first_bad_pair(registry.records(), proposal.spec.bindings@, i) && (r matches Err(e) && is_binding(
                    e,
                    pair_problem(registry.records(), proposal.spec.bindings@[i])->0,
                ))
        },
{
    let cur = current.generation();
    if let Some(expected) = proposal.spec.replace_generation {
        if expected != cur {
            let a = decimal_text(expected);
            let b = decimal_text(cur);
            let reason = join4("replaceGeneration ", a.as_str(), " != current ", b.as_str());
            return Ok((current.duplicate(), BindingApplyResult::Rejected { reason }));
        }
    }
    if proposal.metadata.generation <= cur {
        let a = decimal_text(proposal.metadata.generation);
        let b = decimal_text(cur);
        let reason = join4("proposal generation ", a.as_str(), " not greater than current ", b.as_str());
        return Ok((current.duplicate(), BindingApplyResult::Rejected { reason }));
    }
    validate_proposal(registry, &proposal)?;
    let gen = proposal.metadata.generation;
    let mut edges: Vec<ActiveBinding> = Vec::new();
    let mut i: usize = 0;
    while i < proposal.spec.bindings.len()
        invariant
            i <= proposal.spec.bindings@.len(),
            edges@.len() == i,
            forall|j: int| 0 <= j < i ==> edge_view(#[trigger] edges@[j]) == proposed_view(proposal.spec.bindings@[j]),
        decreases proposal.spec.bindings@.len() - i,
    {
        let b = &proposal.spec.bindings[i];
        edges.push(
            ActiveBinding {
                consumer: b.consumer.clone(),
                provider: b.provider.clone(),
                capability: b.capability.clone(),
                required: b.required,
            },
        );
        i = i + 1;
    }
    assert(edge_views(edges@) =~= proposed_views(proposal.spec.bindings@));
    Ok((BindingSet { generation: gen, bindings: edges }, BindingApplyResult::Applied { generation: gen }))
}

/// A proposal that is applied leaves only edges whose provider is routable and
/// provides the capability.
pub proof fn applied_edges_are_served(recs: Seq<CellRecord>, edges: Seq<ProposedBinding>, i: int)
    requires
        all_pairs_ok(recs, edges),
        0 <= i < edges.len(),
    ensures
        name_index(recs, edges[i].provider@) >= 0,
        routable(rec_state(recs[name_index(recs, edges[i].provider@)])),
        provides_cap(recs[name_index(recs, edges[i].provider@)], edges[i].capability@, None),
        name_index(recs, edges[i].consumer@) >= 0,
{
    assert(pair_problem(recs, edges[i]) is None);
}

} // verus!
