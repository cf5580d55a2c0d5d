//! Auto-bind: a proposal that keeps the live edges and adds one for every unmet
//! requirement of a routable Cell that some other routable Cell can serve.

use vstd::prelude::*;

use crate::binding::{edge_view, edge_views, proposed_view, proposed_views, BindingSet, EdgeView};
use crate::lifecycle::routable;
use crate::manifest::binding_proposal::{BindingProposal, ProposalMetadata, ProposalSpec, ProposedBinding};
use crate::manifest::cell::Requirement;
use crate::registry::{provides_cap, provides_match, rec_name, rec_state, CellRecord, LocalRegistry};
use crate::text::{chars_of, owned, same_text, text_le, text_less};

verus! {

/// Record `i` could serve `cap` to `consumer`: routable, another Cell, providing it.
pub open spec fn can_serve(recs: Seq<CellRecord>, consumer: Seq<char>, cap: Seq<char>, i: int) -> bool {
    &&& 0 <= i < recs.len()
    &&& routable(rec_state(recs[i]))
    &&& rec_name(recs[i]) != consumer
    &&& provides_cap(recs[i], cap, None)
}

/// Record `i` could serve `cap` at exactly `version`.
pub open spec fn serves_version(recs: Seq<CellRecord>, consumer: Seq<char>, cap: Seq<char>, version: Seq<char>, i: int) -> bool {
    can_serve(recs, consumer, cap, i) && provides_cap(recs[i], cap, Some(version))
}

/// `n` is the least name among the records that pass `ok`.
pub open spec fn least_name(recs: Seq<CellRecord>, ok: spec_fn(int) -> bool, n: Seq<char>) -> bool {
    &&& exists|i: int| 0 <= i < recs.len() && #[trigger] ok(i) && rec_name(recs[i]) == n
    &&& forall|j: int| 0 <= j < recs.len() && #[trigger] ok(j) ==> text_le(n, rec_name(recs[j]))
}

/// The provider auto-bind picks for `consumer`'s requirement of `cap` at `version`:
/// among the Cells that serve that exact version the first by name; when none does,
/// the first by name among those that serve `cap` at all.
pub open spec fn pick(recs: Seq<CellRecord>, consumer: Seq<char>, cap: Seq<char>, version: Seq<char>) -> Option<Seq<char>> {
    let exact = |i: int| serves_version(recs, consumer, cap, version, i);
    let any = |i: int| can_serve(recs, consumer, cap, i);
    if exists|i: int| #[trigger] serves_version(recs, consumer, cap, version, i) {
        Some(choose|n: Seq<char>| least_name(recs, exact, n))
    } else if exists|i: int| #[trigger] can_serve(recs, consumer, cap, i) {
        Some(choose|n: Seq<char>| least_name(recs, any, n))
    } else {
        None
    }
}

/// Some edge of `acc` already serves `consumer`'s `cap`.
pub open spec fn has_edge(acc: Seq<EdgeView>, consumer: Seq<char>, cap: Seq<char>) -> bool {
    exists|k: int| 0 <= k < acc.len() && (#[trigger] acc[k]).0 == consumer && acc[k].2 == cap
}

/// The edges after considering one requirement of `consumer`.
pub open spec fn step(
    acc: Seq<EdgeView>,
    recs: Seq<CellRecord>,
    consumer: Seq<char>,
    req: Requirement,
    include_optional: bool,
) -> Seq<EdgeView> {
    if req.optional && !include_optional {
        acc
    } else if has_edge(acc, consumer, req.name@) {
        acc
    } else {
        match pick(recs, consumer, req.name@, req.version@) {
            Some(p) => acc.push((consumer, p, req.name@, !req.optional)),
            None => acc,
        }
    }
}

/// The edges after the first `k` requirements of record `r`.
pub open spec fn fold_reqs(
    acc: Seq<EdgeView>,
    recs: Seq<CellRecord>,
    r: CellRecord,
    k: int,
    include_optional: bool,
) -> Seq<EdgeView>
    decreases k,
{
    if k <= 0 || k > r.manifest.spec.requires@.len() {
        acc
    } else {
        step(
            fold_reqs(acc, recs, r, k - 1, include_optional),
            recs,
            rec_name(r),
            r.manifest.spec.requires@[k - 1],
            include_optional,
        )
    }
}

/// The edges after the routable records among the first `n`.
pub open spec fn fold_recs(acc: Seq<EdgeView>, recs: Seq<CellRecord>, n: int, include_optional: bool) -> Seq<EdgeView>
    decreases n,
{
    if n <= 0 || n > recs.len() {
        acc
    } else {
        let before = fold_recs(acc, recs, n - 1, include_optional);
        let r = recs[n - 1];
        if routable(rec_state(r)) {
            fold_reqs(before, recs, r, r.manifest.spec.requires@.len() as int, include_optional)
        } else {
            before
        }
    }
}

/// The edges auto-bind proposes for the live edges `live`.
pub open spec fn auto_edges(live: Seq<EdgeView>, recs: Seq<CellRecord>, include_optional: bool) -> Seq<EdgeView> {
    fold_recs(live, recs, recs.len() as int, include_optional)
}

proof fn lemma_least_unique(recs: Seq<CellRecord>, ok: spec_fn(int) -> bool, a: Seq<char>, b: Seq<char>)
    requires
        least_name(recs, ok, a),
        least_name(recs, ok, b),
    ensures
        a == b,
{
    let ia = choose|i: int| 0 <= i < recs.len() && #[trigger] ok(i) && rec_name(recs[i]) == a;
    let ib = choose|i: int| 0 <= i < recs.len() && #[trigger] ok(i) && rec_name(recs[i]) == b;
    assert(text_le(a, rec_name(recs[ib])));
    assert(text_le(b, rec_name(recs[ia])));
    if a != b {
        crate::text::lemma_text_lt_asym(a, b);
    }
}

/// Provider auto-bind picks for `consumer`'s `cap` at `version`.
fn best_provider(recs: &[CellRecord], consumer: &str, cap: &str, version: &str) -> (r: Option<String>)
    ensures
        match r {
            Some(s) => pick(recs@, consumer@, cap@, version@) == Some(s@),
            None => pick(recs@, consumer@, cap@, version@) is None,
        },
{
    let ghost exact = |i: int| serves_version(recs@, consumer@, cap@, version@, i);
    let ghost any = |i: int| can_serve(recs@, consumer@, cap@, i);
    let mut best: Option<usize> = None;
    let mut best_exact = false;
    let mut best_name: Vec<char> = Vec::new();
    let mut i: usize = 0;
    while i < recs.len()
        invariant
            i <= recs@.len(),
            exact == (|j: int| serves_version(recs@, consumer@, cap@, version@, j)),
            any == (|j: int| can_serve(recs@, consumer@, cap@, j)),
            best is None ==> forall|j: int| 0 <= j < i ==> !#[trigger] can_serve(recs@, consumer@, cap@, j),
            best matches Some(b) ==> {
                &&& b < i
                &&& can_serve(recs@, consumer@, cap@, b as int)
                &&& best_exact == serves_version(recs@, consumer@, cap@, version@, b as int)
                &&& best_name@ == rec_name(recs@[b as int])
                &&& forall|j: int| 0 <= j < i && #[trigger] can_serve(recs@, consumer@, cap@, j) ==> {
                    &&& best_exact || !serves_version(recs@, consumer@, cap@, version@, j)
                    &&& (best_exact == serves_version(recs@, consumer@, cap@, version@, j)) ==> text_le(
                        rec_name(recs@[b as int]),
                        rec_name(recs@[j]),
                    )
                }
            },
        decreases recs@.len() - i,
    {
        let rec = &recs[i];
        if rec.state().can_route() && !same_text(rec.manifest.metadata.name.as_str(), consumer)
            && provides_match(rec, cap, None) {
            let is_exact = provides_match(rec, cap, Some(version));
            let name = chars_of(rec.manifest.metadata.name.as_str());
            let better = match best {
                None => true,
                Some(_) => (is_exact && !best_exact) || (is_exact == best_exact && text_less(&name, &best_name)),
            };
            proof {
                if best is Some {
                    crate::text::lemma_text_lt_total(name@, best_name@);
                }
            }
            if better {
                proof {
                    assert forall|j: int| 0 <= j < i + 1 && #[trigger] can_serve(recs@, consumer@, cap@, j) implies {
                        &&& is_exact || !serves_version(recs@, consumer@, cap@, version@, j)
                        &&& (is_exact == serves_version(recs@, consumer@, cap@, version@, j)) ==> text_le(
                            rec_name(recs@[i as int]),
                            rec_name(recs@[j]),
                        )
                    } by {
                        if j < i {
                            let b = best->0;
                            if is_exact == serves_version(recs@, consumer@, cap@, version@, j) && best_exact
                                == serves_version(recs@, consumer@, cap@, version@, j) {
                                assert(text_le(rec_name(recs@[b as int]), rec_name(recs@[j])));
                                if rec_name(recs@[b as int]) != rec_name(recs@[j]) {
                                    crate::text::lemma_text_lt_trans(
                                        rec_name(recs@[i as int]),
                                        rec_name(recs@[b as int]),
                                        rec_name(recs@[j]),
                                    );
                                }
                            }
                        }
                    }
                }
                best = Some(i);
                best_exact = is_exact;
                best_name = name;
            } else {
                proof {
                    let b = best->0;
                    assert forall|j: int| 0 <= j < i + 1 && #[trigger] can_serve(recs@, consumer@, cap@, j) implies {
                        &&& best_exact || !serves_version(recs@, consumer@, cap@, version@, j)
                        &&& (best_exact == serves_version(recs@, consumer@, cap@, version@, j)) ==> text_le(
                            rec_name(recs@[b as int]),
                            rec_name(recs@[j]),
                        )
                    } by {
                        if j == i {
                            assert(rec_name(recs@[j]) == name@);
                        }
                    }
                }
            }
        }
        i = i + 1;
    }
    match best {
        None => {
            proof {
                assert(!exists|j: int| #[trigger] can_serve(recs@, consumer@, cap@, j));
                assert(!exists|j: int| #[trigger] serves_version(recs@, consumer@, cap@, version@, j));
            }
            None
        },
        Some(b) => {
            let out = owned(recs[b].manifest.metadata.name.as_str());
            proof {
                let n = rec_name(recs@[b as int]);
                if best_exact {
                    assert(exact(b as int));
                    assert(least_name(recs@, exact, n));
                    let c = choose|m: Seq<char>| least_name(recs@, exact, m);
                    lemma_least_unique(recs@, exact, n, c);
                } else {
                    assert(!exists|j: int| #[trigger] serves_version(recs@, consumer@, cap@, version@, j));
                    assert(any(b as int));
                    assert(least_name(recs@, any, n));
                    let c = choose|m: Seq<char>| least_name(recs@, any, m);
                    lemma_least_unique(recs@, any, n, c);
                }
            }
            Some(out)
        },
    }
}

/// Whether some edge of `edges` already serves `consumer`'s `cap`.
fn edge_exists(edges: &Vec<ProposedBinding>, consumer: &str, cap: &str) -> (r: bool)
    ensures
        r == has_edge(proposed_views(edges@), consumer@, cap@),
{
    let mut i: usize = 0;
    while i < edges.len()
        invariant
            i <= edges@.len(),
            forall|k: int| 0 <= k < i ==> !((#[trigger] edges@[k]).consumer@ == consumer@ && edges@[k].capability@ == cap@),
        decreases edges@.len() - i,
    {
        if same_text(edges[i].consumer.as_str(), consumer) && same_text(edges[i].capability.as_str(), cap) {
            assert(proposed_views(edges@)[i as int] == proposed_view(edges@[i as int]));
            return true;
        }
        i = i + 1;
    }
    proof {
        assert forall|k: int| 0 <= k < proposed_views(edges@).len() implies !((#[trigger] proposed_views(edges@)[k]).0
            == consumer@ && proposed_views(edges@)[k].2 == cap@) by {
            assert(proposed_views(edges@)[k] == proposed_view(edges@[k]));
        }
    }
    false
}

/// A proposal that keeps every live edge and, for each routable Cell in registry
/// order and each of its requirements in manifest order (optional ones only when
/// asked), adds an edge to the provider `pick` names when no edge serves that
/// requirement yet. The proposal's generation is one more than the live one, and it
/// may only replace the live generation.
pub fn propose_auto_bindings(registry: &LocalRegistry, current: &BindingSet, include_optional: bool) -> (r: BindingProposal)
    requires
        registry.wf(),
        current.current_generation() < u64::MAX,
    ensures
        r.api_version@ == "kcell.dev/v1"@,
        r.kind@ == "BindingProposal"@,
        r.metadata.proposer@ == "kcell:auto-bind"@,
        r.metadata.generation == current.current_generation() + 1,
        r.metadata.reason matches Some(s) && s@ == "auto-bind unmatched requires"@,
        r.spec.replace_generation == Some(current.current_generation()),
        proposed_views(r.spec.bindings@) == auto_edges(edge_views(current.items()), registry.records(), include_optional),
{
    let live = current.bindings();
    let mut proposed: Vec<ProposedBinding> = Vec::new();
    let mut i: usize = 0;
    while i < live.len()
        invariant
            live@ == current.items(),
            i <= live@.len(),
            proposed@.len() == i,
            proposed_views(proposed@) == edge_views(live@.take(i as int)),
        decreases live@.len() - i,
    {
        let b = &live[i];
        let ghost old_proposed = proposed@;
        proposed.push(
            ProposedBinding {
                consumer: b.consumer.clone(),
                provider: b.provider.clone(),
                capability: b.capability.clone(),
                required: b.required,
            },
        );
        proof {
            let pv = proposed_views(proposed@);
            let ev = edge_views(live@.take(i + 1));
            assert(pv.len() == ev.len());
            assert forall|t: int| 0 <= t < pv.len() implies pv[t] == ev[t] by {
                if t < i {
                    assert(pv[t] == proposed_views(proposed@.drop_last())[t]);
                    assert(proposed@.drop_last() == old_proposed);
                    assert(ev[t] == edge_views(live@.take(i as int))[t]);
                } else {
                    assert(pv[t] == proposed_view(proposed@[t]));
                    assert(ev[t] == edge_view(live@[t]));
                }
            }
            assert(pv =~= ev);
        }
        i = i + 1;
    }
    assert(live@.take(live@.len() as int) =~= live@);
    let ghost start = edge_views(current.items());
    let recs = registry.iter();
    let mut n: usize = 0;
    while n < recs.len()
        invariant
            recs@ == registry.records(),
            n <= recs@.len(),
            proposed_views(proposed@) == fold_recs(start, recs@, n as int, include_optional),
        decreases recs@.len() - n,
    {
        let rec = &recs[n];
        if rec.state().can_route() {
            let consumer = rec.manifest.metadata.name.as_str();
            let ghost before = fold_recs(start, recs@, n as int, include_optional);
            let mut k: usize = 0;
            while k < rec.manifest.spec.requires.len()
                invariant
                    recs@ == registry.records(),
                    n < recs@.len(),
                    *rec == recs@[n as int],
                    consumer@ == rec_name(*rec),
                    k <= rec.manifest.spec.requires@.len(),
                    proposed_views(proposed@) == fold_reqs(before, recs@, *rec, k as int, include_optional),
                decreases rec.manifest.spec.requires@.len() - k,
            {
                let req = &rec.manifest.spec.requires[k];
                let ghost acc = proposed_views(proposed@);
                proof {
                    assert(*req == rec.manifest.spec.requires@[k as int]);
                }
                if !(req.optional && !include_optional) {
                    if !edge_exists(&proposed, consumer, req.name.as_str()) {
                        match best_provider(recs, consumer, req.name.as_str(), req.version.as_str()) {
                            Some(p) => {
                                let e = ProposedBinding {
                                    consumer: owned(consumer),
                                    provider: p,
                                    capability: req.name.clone(),
                                    required: !req.optional,
                                };
                                proposed.push(e);
                                assert(proposed_views(proposed@) =~= acc.push(proposed_view(e)));
                            },
                            None => {},
                        }
                    }
                }
                k = k + 1;
            }
        }
        n = n + 1;
    }
    BindingProposal {
        api_version: owned("kcell.dev/v1"),
        kind: owned("BindingProposal"),
        metadata: ProposalMetadata {
            proposer: owned("kcell:auto-bind"),
            generation: current.generation() + 1,
            reason: Some(owned("auto-bind unmatched requires")),
        },
        spec: ProposalSpec { bindings: proposed, replace_generation: Some(current.generation()) },
    }
}

/// Auto-bind never drops or changes a live edge: the live edges are a prefix of
/// what it proposes.
pub proof fn auto_edges_keep_live(live: Seq<EdgeView>, recs: Seq<CellRecord>, include_optional: bool)
    ensures
        auto_edges(live, recs, include_optional).len() >= live.len(),
        auto_edges(live, recs, include_optional).take(live.len() as int) == live,
{
    lemma_fold_recs_extends(live, recs, recs.len() as int, include_optional);
}

proof fn lemma_fold_reqs_extends(acc: Seq<EdgeView>, recs: Seq<CellRecord>, r: CellRecord, k: int, include_optional: bool)
    ensures
        fold_reqs(acc, recs, r, k, include_optional).len() >= acc.len(),
        fold_reqs(acc, recs, r, k, include_optional).take(acc.len() as int) == acc,
    decreases k,
{
    if k <= 0 || k > r.manifest.spec.requires@.len() {
        assert(acc.take(acc.len() as int) =~= acc);
    } else {
        lemma_fold_reqs_extends(acc, recs, r, k - 1, include_optional);
        let prev = fold_reqs(acc, recs, r, k - 1, include_optional);
        let next = fold_reqs(acc, recs, r, k, include_optional);
        assert(next.len() >= prev.len());
        assert(next.take(acc.len() as int) =~= prev.take(acc.len() as int));
    }
}

proof fn lemma_fold_recs_extends(acc: Seq<EdgeView>, recs: Seq<CellRecord>, n: int, include_optional: bool)
    ensures
        fold_recs(acc, recs, n, include_optional).len() >= acc.len(),
        fold_recs(acc, recs, n, include_optional).take(acc.len() as int) == acc,
    decreases n,
{
    if n <= 0 || n > recs.len() {
        assert(acc.take(acc.len() as int) =~= acc);
    } else {
        lemma_fold_recs_extends(acc, recs, n - 1, include_optional);
        let prev = fold_recs(acc, recs, n - 1, include_optional);
        let r = recs[n - 1];
        if routable(rec_state(r)) {
            lemma_fold_reqs_extends(prev, recs, r, r.manifest.spec.requires@.len() as int, include_optional);
            let next = fold_recs(acc, recs, n, include_optional);
            assert(next.take(acc.len() as int) =~= prev.take(acc.len() as int));
        }
    }
}

} // verus!
