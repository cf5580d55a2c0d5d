//! Capability discovery over the local registry.

use vstd::prelude::*;

use crate::lifecycle::{routable, CellState};
use crate::manifest::cell::RuntimeKind;
use crate::registry::{rec_state, CellRecord, LocalRegistry};
use crate::text::{chars_of, text_less, text_lt};

verus! {

broadcast use vstd::seq_lib::to_multiset_insert;

/// One capability offered by a routable Cell.
#[derive(Debug, Clone)]
pub struct ProviderInfo {
    pub cell: String,
    pub cell_version: String,
    pub capability: String,
    pub capability_version: String,
    pub runtime: RuntimeKind,
    pub state: CellState,
}

/// A provider entry by value: cell, cell version, capability, capability version,
/// runtime, state.
pub type ProviderView = (Seq<char>, Seq<char>, Seq<char>, Seq<char>, RuntimeKind, CellState);

/// The value of a provider entry.
pub open spec fn pview(p: ProviderInfo) -> ProviderView {
    (p.cell@, p.cell_version@, p.capability@, p.capability_version@, p.runtime, p.state)
}

/// The values of a list of provider entries.
pub open spec fn pviews(v: Seq<ProviderInfo>) -> Seq<ProviderView> {
    v.map_values(|p: ProviderInfo| pview(p))
}

/// Entries for the capabilities of `r` (named `want`, when given), in manifest order.
pub open spec fn caps_of(r: CellRecord, want: Option<Seq<char>>, k: int) -> Seq<ProviderView>
    decreases k,
{
    if k <= 0 || k > r.manifest.spec.provides@.len() {
        Seq::empty()
    } else {
        let rest = caps_of(r, want, k - 1);
        let c = r.manifest.spec.provides@[k - 1];
        if want is Some && c.name@ != want->0 {
            rest
        } else {
            rest.push(
                (r.manifest.metadata.name@, r.manifest.metadata.version@, c.name@, c.version@, r.manifest.spec.runtime.kind, rec_state(r)),
            )
        }
    }
}

/// Entries for every routable record, in registry order.
pub open spec fn all_caps(recs: Seq<CellRecord>, want: Option<Seq<char>>) -> Seq<ProviderView>
    decreases recs.len(),
{
    if recs.len() == 0 {
        Seq::empty()
    } else {
        let rest = all_caps(recs.drop_last(), want);
        let r = recs.last();
        if routable(rec_state(r)) {
            rest + caps_of(r, want, r.manifest.spec.provides@.len() as int)
        } else {
            rest
        }
    }
}

/// Order of entries: by capability, then by cell.
pub open spec fn key_lt(a: ProviderView, b: ProviderView) -> bool {
    text_lt(a.2, b.2) || (a.2 == b.2 && text_lt(a.0, b.0))
}

/// `a` sorts no later than `b`.
pub open spec fn key_le(a: ProviderView, b: ProviderView) -> bool {
    key_lt(a, b) || (a.2 == b.2 && a.0 == b.0)
}

/// Sorted by capability, then cell.
pub open spec fn key_sorted(s: Seq<ProviderView>) -> bool {
    forall|i: int, j: int| 0 <= i < j < s.len() ==> key_le(#[trigger] s[i], #[trigger] s[j])
}

proof fn lemma_key_total(a: ProviderView, b: ProviderView)
    ensures
        key_le(a, b) || key_lt(b, a),
{
    crate::text::lemma_text_lt_total(a.2, b.2);
    crate::text::lemma_text_lt_total(a.0, b.0);
}

proof fn lemma_key_trans(a: ProviderView, b: ProviderView, c: ProviderView)
    requires
        key_lt(a, b),
        key_le(b, c),
    ensures
        key_lt(a, c),
{
    if text_lt(a.2, b.2) {
        if text_lt(b.2, c.2) {
            crate::text::lemma_text_lt_trans(a.2, b.2, c.2);
        }
    } else {
        if text_lt(b.2, c.2) {
        } else if text_lt(b.0, c.0) {
            crate::text::lemma_text_lt_trans(a.0, b.0, c.0);
        }
    }
}

/// Inserts `p` into the sorted `out` after every entry that sorts no later.
fn insert_sorted(out: &mut Vec<ProviderInfo>, p: ProviderInfo)
    requires
        key_sorted(pviews(old(out)@)),
    ensures
        key_sorted(pviews(final(out)@)),
        pviews(final(out)@).to_multiset() == pviews(old(out)@).to_multiset().insert(pview(p)),
{
    let cap = chars_of(p.capability.as_str());
    let cell = chars_of(p.cell.as_str());
    let ghost k = pview(p);
    let mut i: usize = 0;
    let mut found = false;
    while i < out.len() && !found
        invariant
            i <= out@.len(),
            cap@ == p.capability@,
            cell@ == p.cell@,
            k == pview(p),
            out@ == old(out)@,
            forall|t: int| 0 <= t < i ==> key_le(#[trigger] pviews(out@)[t], k),
            found ==> i < out@.len() && key_lt(k, pviews(out@)[i as int]),
        decreases out@.len() - i + (if found { 0int } else { 1int }),
    {
        let ocap = chars_of(out[i].capability.as_str());
        let ocell = chars_of(out[i].cell.as_str());
        let cap_lt = text_less(&cap, &ocap);
        let cap_gt = text_less(&ocap, &cap);
        let cell_lt = text_less(&cell, &ocell);
        let ghost o = pviews(out@)[i as int];
        proof {
            assert(o == pview(out@[i as int]));
            assert(o.2 == ocap@ && o.0 == ocell@);
            crate::text::lemma_text_lt_total(cap@, ocap@);
            crate::text::lemma_text_lt_total(cell@, ocell@);
        }
        if cap_lt || (!cap_gt && cell_lt) {
            assert(key_lt(k, o));
            found = true;
        } else {
            proof {
                lemma_key_total(k, o);
            }
            assert(key_le(o, k));
            i = i + 1;
        }
    }
    let ghost before = pviews(out@);
    out.insert(i, p);
    proof {
        let after = pviews(out@);
        assert(after =~= before.insert(i as int, k));
        assert forall|a: int, b: int| 0 <= a < b < after.len() implies key_le(#[trigger] after[a], #[trigger] after[b]) by {
            if b < i {
                assert(after[a] == before[a] && after[b] == before[b]);
            } else if b == i {
                assert(after[a] == before[a]);
            } else if a == i {
                assert(after[b] == before[b - 1]);
                if b - 1 > i {
                    assert(key_le(before[i as int], before[b - 1]));
                }
                lemma_key_trans(k, before[i as int], before[b - 1]);
            } else if a < i {
                assert(after[a] == before[a] && after[b] == before[b - 1]);
            } else {
                assert(after[a] == before[a - 1] && after[b] == before[b - 1]);
            }
        }
    }
}

/// Routable providers, optionally only those of the capability named `capability`,
/// sorted by capability and then by cell. One entry per provided capability.
pub fn discover_providers(registry: &LocalRegistry, capability: Option<&str>) -> (r: Vec<ProviderInfo>)
    requires
        registry.wf(),
    ensures
        key_sorted(pviews(r@)),
        pviews(r@).to_multiset() == all_caps(registry.records(), crate::registry::opt_view(capability)).to_multiset(),
{
    let ghost want = crate::registry::opt_view(capability);
    let recs = registry.iter();
    let mut out: Vec<ProviderInfo> = Vec::new();
    let mut i: usize = 0;
    assert(recs@.take(0) =~= Seq::<CellRecord>::empty());
    assert(pviews(out@) =~= Seq::<ProviderView>::empty());
    while i < recs.len()
        invariant
            i <= recs@.len(),
            recs@ == registry.records(),
            want == crate::registry::opt_view(capability),
            key_sorted(pviews(out@)),
            pviews(out@).to_multiset() == all_caps(recs@.take(i as int), want).to_multiset(),
        decreases recs@.len() - i,
    {
        let rec = &recs[i];
        proof {
            assert(recs@.take(i + 1).drop_last() =~= recs@.take(i as int));
            assert(recs@.take(i + 1).last() == recs@[i as int]);
        }
        if rec.state().can_route() {
            let n = rec.manifest.spec.provides.len();
            let mut k: usize = 0;
            while k < n
                invariant
                    k <= n,
                    n == rec.manifest.spec.provides@.len(),
                    routable(rec_state(*rec)),
                    i < recs@.len(),
                    *rec == recs@[i as int],
                    want == crate::registry::opt_view(capability),
                    key_sorted(pviews(out@)),
                    pviews(out@).to_multiset() == (all_caps(recs@.take(i as int), want) + caps_of(*rec, want, k as int)).to_multiset(),
                decreases n - k,
            {
                let c = &rec.manifest.spec.provides[k];
                assert(*c == rec.manifest.spec.provides@[k as int]);
                let wanted = match capability {
                    Some(w) => crate::text::same_text(c.name.as_str(), w),
                    None => true,
                };
                let ghost prefix = all_caps(recs@.take(i as int), want);
                if wanted {
                    let info = ProviderInfo {
                        cell: rec.manifest.metadata.name.clone(),
                        cell_version: rec.manifest.metadata.version.clone(),
                        capability: c.name.clone(),
                        capability_version: c.version.clone(),
                        runtime: rec.manifest.spec.runtime.kind,
                        state: rec.state(),
                    };
                    let ghost v = pview(info);
                    insert_sorted(&mut out, info);
                    proof {
                        assert(caps_of(*rec, want, k + 1) == caps_of(*rec, want, k as int).push(v));
                        assert(prefix + caps_of(*rec, want, k + 1) =~= (prefix + caps_of(*rec, want, k as int)).push(v));
                        vstd::seq_lib::lemma_multiset_commutative(prefix + caps_of(*rec, want, k as int), seq![v]);
                        assert((prefix + caps_of(*rec, want, k as int)).push(v) =~= (prefix + caps_of(*rec, want, k as int)) + seq![v]);
                        assert(seq![v].to_multiset() =~= vstd::multiset::Multiset::empty().insert(v)) by {
                            broadcast use vstd::seq_lib::group_to_multiset_ensures;
                            assert(seq![v] =~= Seq::<ProviderView>::empty().push(v));
                        }
                        assert(pviews(out@).to_multiset() =~= (prefix + caps_of(*rec, want, k + 1)).to_multiset());
                    }
                } else {
                    proof {
                        assert(caps_of(*rec, want, k + 1) == caps_of(*rec, want, k as int));
                    }
                }
                k = k + 1;
            }
        }
        i = i + 1;
    }
    proof {
        assert(recs@.take(recs@.len() as int) =~= recs@);
    }
    out
}

} // verus!
