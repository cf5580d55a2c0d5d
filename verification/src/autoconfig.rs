//! The auto-config Cell's greedy proposal: from a Host snapshot (its generation, its
//! Cells and its live bindings, as JSON) a binding proposal that keeps every live
//! binding and adds, for each named Cell and each of its named requirements with no
//! binding yet, an edge to the best other Cell that provides the capability.
//!
//! "Best" ranks the providers that offer the asked version first and then by name;
//! the version a provider offers is that of its first `provides` entry for the
//! capability.

use vstd::prelude::*;

use crate::json::{
    array_json, as_bool, as_items, as_text, as_u64, copy_json, get_member, json_bool, json_text, json_u64, jv, jvs, member, pair,
    JsonValue, JsonView, NumView,
};
use crate::envelope::{envelope_problem, Envelope};
use crate::text::{chars_of, join2, same_text, text_le, text_less};

verus! {

/// The text of member `key` of `v`, when it is a string.
pub open spec fn text_member(v: JsonView, key: Seq<char>) -> Option<Seq<char>> {
    match member(v, key) {
        Some(JsonView::Str(s)) => Some(s),
        _ => None,
    }
}

/// The text of member `key` of `v`, or `d` when it has no such string.
pub open spec fn text_or(v: JsonView, key: Seq<char>, d: Seq<char>) -> Seq<char> {
    match text_member(v, key) {
        Some(s) => s,
        None => d,
    }
}

/// The items of member `key` of `v`, or none when it is no array.
pub open spec fn items_member(v: JsonView, key: Seq<char>) -> Seq<JsonView> {
    match member(v, key) {
        Some(JsonView::Array(a)) => a,
        _ => Seq::empty(),
    }
}

/// The boolean member `key` of `v`, false when it has none.
pub open spec fn flag_member(v: JsonView, key: Seq<char>) -> bool {
    match member(v, key) {
        Some(JsonView::Bool(b)) => b,
        _ => false,
    }
}

/// The snapshot's generation: its `generation` member when that is a non-negative
/// integer, else 0.
pub open spec fn snapshot_generation(payload: JsonView) -> u64 {
    match member(payload, "generation"@) {
        Some(JsonView::Number(NumView::Unsigned(n))) => n,
        _ => 0,
    }
}

/// The `provides` entries of a Cell.
pub open spec fn offers_of(c: JsonView) -> Seq<JsonView> {
    items_member(c, "provides"@)
}

/// Entry `k` of `ps` is named `cap`.
pub open spec fn names_cap(ps: Seq<JsonView>, cap: Seq<char>, k: int) -> bool {
    0 <= k < ps.len() && text_member(ps[k], "name"@) == Some(cap)
}

/// Cell `c` provides `cap` under some version.
pub open spec fn offers(c: JsonView, cap: Seq<char>) -> bool {
    exists|k: int| #[trigger] names_cap(offers_of(c), cap, k)
}

/// Position of the first entry of `ps` named `cap`.
pub open spec fn first_offer(ps: Seq<JsonView>, cap: Seq<char>) -> int {
    choose|k: int| #[trigger] names_cap(ps, cap, k) && forall|j: int| 0 <= j < k ==> !#[trigger] names_cap(ps, cap, j)
}

/// The version Cell `c` offers `cap` at: that of its first entry for `cap`, empty
/// when that entry has none.
pub open spec fn offer_version(c: JsonView, cap: Seq<char>) -> Seq<char> {
    text_or(offers_of(c)[first_offer(offers_of(c), cap)], "version"@, ""@)
}

/// The name of Cell `c`, empty when it has none.
pub open spec fn name_of(c: JsonView) -> Seq<char> {
    text_or(c, "name"@, ""@)
}

/// Cell `i` of `cells` could provide `cap` to `consumer`: another Cell that offers it.
pub open spec fn candidate(cells: Seq<JsonView>, consumer: Seq<char>, cap: Seq<char>, i: int) -> bool {
    &&& 0 <= i < cells.len()
    &&& text_member(cells[i], "name"@) != Some(consumer)
    &&& offers(cells[i], cap)
}

/// Cell `i` offers `cap` at exactly `version`.
pub open spec fn exact_at(cells: Seq<JsonView>, cap: Seq<char>, version: Seq<char>, i: int) -> bool {
    offer_version(cells[i], cap) == version
}

/// Candidate `i` ranks no lower than any other: an exact offer when any candidate
/// has one, and then first by name.
pub open spec fn top(cells: Seq<JsonView>, consumer: Seq<char>, cap: Seq<char>, version: Seq<char>, i: int) -> bool {
    &&& candidate(cells, consumer, cap, i)
    &&& forall|j: int| #[trigger]
        candidate(cells, consumer, cap, j) ==> {
            &&& exact_at(cells, cap, version, i) || !exact_at(cells, cap, version, j)
            &&& exact_at(cells, cap, version, i) == exact_at(cells, cap, version, j) ==> text_le(
                name_of(cells[i]),
                name_of(cells[j]),
            )
        }
}

/// The name of the best provider of `cap` at `version` for `consumer`, if any Cell
/// could provide it.
pub open spec fn pick(cells: Seq<JsonView>, consumer: Seq<char>, cap: Seq<char>, version: Seq<char>) -> Option<Seq<char>> {
    if exists|i: int| #[trigger] top(cells, consumer, cap, version, i) {
        Some(name_of(cells[choose|i: int| #[trigger] top(cells, consumer, cap, version, i)]))
    } else {
        None
    }
}

/// Some binding of `acc` already names `consumer` and `cap`.
pub open spec fn is_bound(acc: Seq<JsonView>, consumer: Seq<char>, cap: Seq<char>) -> bool {
    exists|k: int|
        0 <= k < acc.len() && text_member(#[trigger] acc[k], "consumer"@) == Some(consumer) && text_member(
            acc[k],
            "capability"@,
        ) == Some(cap)
}

/// The binding the proposal adds: `consumer`'s `cap` served by `provider`.
pub open spec fn edge_json(consumer: Seq<char>, provider: Seq<char>, cap: Seq<char>, required: bool) -> JsonView {
    JsonView::Object(
        seq![
            ("capability"@, JsonView::Str(cap)),
            ("consumer"@, JsonView::Str(consumer)),
            ("provider"@, JsonView::Str(provider)),
            ("required"@, JsonView::Bool(required)),
        ],
    )
}

/// The bindings after considering requirement `req` of `consumer`: unchanged when the
/// requirement has no name or is bound already, or when no Cell (or only a nameless
/// one) ranks best; else with an edge to the best provider, required unless the
/// requirement is optional. The asked version defaults to "1".
pub open spec fn consider(acc: Seq<JsonView>, cells: Seq<JsonView>, consumer: Seq<char>, req: JsonView) -> Seq<JsonView> {
    let cap = text_or(req, "name"@, ""@);
    if cap.len() == 0 || is_bound(acc, consumer, cap) {
        acc
    } else {
        match pick(cells, consumer, cap, text_or(req, "version"@, "1"@)) {
            Some(p) => if p.len() > 0 {
                acc.push(edge_json(consumer, p, cap, !flag_member(req, "optional"@)))
            } else {
                acc
            },
            None => acc,
        }
    }
}

/// The bindings after the first `k` requirements `reqs` of `consumer`.
pub open spec fn over_reqs(acc: Seq<JsonView>, cells: Seq<JsonView>, consumer: Seq<char>, reqs: Seq<JsonView>, k: int) -> Seq<JsonView>
    decreases k,
{
    if k <= 0 || k > reqs.len() {
        acc
    } else {
        consider(over_reqs(acc, cells, consumer, reqs, k - 1), cells, consumer, reqs[k - 1])
    }
}

/// The bindings after the named Cells among the first `n`.
pub open spec fn over_cells(acc: Seq<JsonView>, cells: Seq<JsonView>, n: int) -> Seq<JsonView>
    decreases n,
{
    if n <= 0 || n > cells.len() {
        acc
    } else {
        let before = over_cells(acc, cells, n - 1);
        let consumer = name_of(cells[n - 1]);
        if consumer.len() == 0 {
            before
        } else {
            let reqs = items_member(cells[n - 1], "requires"@);
            over_reqs(before, cells, consumer, reqs, reqs.len() as int)
        }
    }
}

/// The bindings the greedy match proposes for a snapshot: its live bindings, then the
/// added edges in Cell order and requirement order.
pub open spec fn greedy_bindings(payload: JsonView) -> Seq<JsonView> {
    let cells = items_member(payload, "cells"@);
    over_cells(items_member(payload, "bindings"@), cells, cells.len() as int)
}

/// The proposal document for `bindings` over a snapshot at `generation`.
pub open spec fn proposal_of(generation: u64, bindings: Seq<JsonView>) -> JsonView {
    JsonView::Object(
        seq![
            ("apiVersion"@, JsonView::Str("kcell.dev/v1"@)),
            ("kind"@, JsonView::Str("BindingProposal"@)),
            (
                "metadata"@,
                JsonView::Object(
                    seq![
                        ("generation"@, JsonView::Number(NumView::Unsigned((generation + 1) as u64))),
                        ("proposer"@, JsonView::Str("cell:auto-config-cell"@)),
                        ("reason"@, JsonView::Str("auto-config greedy match from snapshot"@)),
                    ],
                ),
            ),
            (
                "spec"@,
                JsonView::Object(
                    seq![
                        ("bindings"@, JsonView::Array(bindings)),
                        ("replaceGeneration"@, JsonView::Number(NumView::Unsigned(generation))),
                    ],
                ),
            ),
        ],
    )
}

proof fn lemma_top_names_agree(cells: Seq<JsonView>, consumer: Seq<char>, cap: Seq<char>, version: Seq<char>, a: int, b: int)
    requires
        top(cells, consumer, cap, version, a),
        top(cells, consumer, cap, version, b),
    ensures
        name_of(cells[a]) == name_of(cells[b]),
{
    assert(candidate(cells, consumer, cap, a));
    assert(candidate(cells, consumer, cap, b));
    let na = name_of(cells[a]);
    let nb = name_of(cells[b]);
    if na != nb {
        assert(text_le(na, nb));
        assert(text_le(nb, na));
        crate::text::lemma_text_lt_asym(na, nb);
    }
}

/// An edge the greedy match may add after the bindings `before`: a named provider
/// other than its consumer, for a consumer and capability no binding of `before`
/// names yet.
pub open spec fn added_after(before: Seq<JsonView>, e: JsonView) -> bool {
    exists|c: Seq<char>, p: Seq<char>, cap: Seq<char>, req: bool|
        e == #[trigger] edge_json(c, p, cap, req) && c != p && p.len() > 0 && !is_bound(before, c, cap)
}

/// `out` is `acc` followed by added edges only.
pub open spec fn extends(acc: Seq<JsonView>, out: Seq<JsonView>) -> bool {
    &&& acc.len() <= out.len()
    &&& out.take(acc.len() as int) == acc
    &&& forall|k: int| acc.len() <= k < out.len() ==> added_after(out.take(k), #[trigger] out[k])
}

proof fn lemma_extends_trans(a: Seq<JsonView>, b: Seq<JsonView>, c: Seq<JsonView>)
    requires
        extends(a, b),
        extends(b, c),
    ensures
        extends(a, c),
{
    assert forall|k: int| 0 <= k < a.len() implies c[k] == a[k] by {
        assert(c[k] == c.take(b.len() as int)[k]);
        assert(b[k] == b.take(a.len() as int)[k]);
    }
    assert(c.take(a.len() as int) =~= a);
    assert forall|k: int| a.len() <= k < c.len() implies added_after(c.take(k), #[trigger] c[k]) by {
        if k < b.len() {
            assert(c[k] == c.take(b.len() as int)[k]);
            assert(c.take(k) =~= b.take(k)) by {
                assert forall|m: int| 0 <= m < k implies c.take(k)[m] == b.take(k)[m] by {
                    assert(c[m] == c.take(b.len() as int)[m]);
                }
            }
            assert(added_after(b.take(k), b[k]));
        }
    }
}

proof fn lemma_pick_other(cells: Seq<JsonView>, consumer: Seq<char>, cap: Seq<char>, version: Seq<char>, p: Seq<char>)
    requires
        pick(cells, consumer, cap, version) == Some(p),
        p.len() > 0,
    ensures
        p != consumer,
{
    reveal_strlit("");
    let i = choose|i: int| #[trigger] top(cells, consumer, cap, version, i);
    assert(candidate(cells, consumer, cap, i));
    assert(p == name_of(cells[i]));
    assert(text_member(cells[i], "name"@) == Some(p));
}

proof fn lemma_consider_extends(acc: Seq<JsonView>, cells: Seq<JsonView>, consumer: Seq<char>, req: JsonView)
    ensures
        extends(acc, consider(acc, cells, consumer, req)),
{
    let out = consider(acc, cells, consumer, req);
    let cap = text_or(req, "name"@, ""@);
    assert(acc.take(acc.len() as int) =~= acc);
    if !(cap.len() == 0 || is_bound(acc, consumer, cap)) {
        let version = text_or(req, "version"@, "1"@);
        if let Some(p) = pick(cells, consumer, cap, version) {
            if p.len() > 0 {
                lemma_pick_other(cells, consumer, cap, version, p);
                let e = edge_json(consumer, p, cap, !flag_member(req, "optional"@));
                assert(out == acc.push(e));
                assert(out.take(acc.len() as int) =~= acc);
                assert(added_after(out.take(acc.len() as int), out[acc.len() as int]));
            }
        }
    }
}

proof fn lemma_over_reqs_extends(acc: Seq<JsonView>, cells: Seq<JsonView>, consumer: Seq<char>, reqs: Seq<JsonView>, k: int)
    ensures
        extends(acc, over_reqs(acc, cells, consumer, reqs, k)),
    decreases k,
{
    assert(acc.take(acc.len() as int) =~= acc);
    if 0 < k <= reqs.len() {
        let mid = over_reqs(acc, cells, consumer, reqs, k - 1);
        lemma_over_reqs_extends(acc, cells, consumer, reqs, k - 1);
        lemma_consider_extends(mid, cells, consumer, reqs[k - 1]);
        lemma_extends_trans(acc, mid, over_reqs(acc, cells, consumer, reqs, k));
    }
}

proof fn lemma_over_cells_extends(acc: Seq<JsonView>, cells: Seq<JsonView>, n: int)
    ensures
        extends(acc, over_cells(acc, cells, n)),
    decreases n,
{
    assert(acc.take(acc.len() as int) =~= acc);
    if 0 < n <= cells.len() {
        let mid = over_cells(acc, cells, n - 1);
        lemma_over_cells_extends(acc, cells, n - 1);
        let consumer = name_of(cells[n - 1]);
        if consumer.len() > 0 {
            let reqs = items_member(cells[n - 1], "requires"@);
            lemma_over_reqs_extends(mid, cells, consumer, reqs, reqs.len() as int);
            lemma_extends_trans(acc, mid, over_cells(acc, cells, n));
        }
    }
}

/// The greedy match keeps every live binding of the snapshot, in order and as it
/// was, and what it adds after them are edges to a named provider other than the
/// consumer (no Cell is bound to itself), each for a consumer and capability that
/// no binding before it names (no requirement is bound twice).
pub proof fn greedy_keeps_live_bindings(payload: JsonView)
    ensures
        extends(items_member(payload, "bindings"@), greedy_bindings(payload)),
{
    let cells = items_member(payload, "cells"@);
    lemma_over_cells_extends(items_member(payload, "bindings"@), cells, cells.len() as int);
}

/// The text of member `key` of `v`, when it is a string.
fn text_field<'a>(v: &'a JsonValue, key: &str) -> (r: Option<&'a str>)
    ensures
        match r {
            Some(s) => text_member(jv(*v), key@) == Some(s@),
            None => text_member(jv(*v), key@) is None,
        },
{
    match get_member(v, key) {
        Some(x) => as_text(x),
        None => None,
    }
}

/// The items of member `key` of `v`, when it is an array.
fn items_field<'a>(v: &'a JsonValue, key: &str) -> (r: Option<&'a Vec<JsonValue>>)
    ensures
        match r {
            Some(items) => items_member(jv(*v), key@) == jvs(items@),
            None => items_member(jv(*v), key@) == Seq::<JsonView>::empty(),
        },
{
    match get_member(v, key) {
        Some(x) => as_items(x),
        None => None,
    }
}

/// The version `cell` offers `cap` at, when it offers `cap` at all.
fn offered_version<'a>(cell: &'a JsonValue, cap: &str) -> (r: Option<&'a str>)
    ensures
        match r {
            Some(ver) => offers(jv(*cell), cap@) && offer_version(jv(*cell), cap@) == ver@,
            None => !offers(jv(*cell), cap@),
        },
{
    let ps = match items_field(cell, "provides") {
        Some(ps) => ps,
        None => {
            return None;
        },
    };
    let ghost pv = offers_of(jv(*cell));
    assert(pv == jvs(ps@));
    let mut k: usize = 0;
    while k < ps.len()
        invariant
            k <= ps@.len(),
            pv == jvs(ps@),
            pv == offers_of(jv(*cell)),
            forall|j: int| 0 <= j < k ==> !#[trigger] names_cap(pv, cap@, j),
        decreases ps@.len() - k,
    {
        let hit = match text_field(&ps[k], "name") {
            Some(n) => same_text(n, cap),
            None => false,
        };
        if hit {
            let ver = match text_field(&ps[k], "version") {
                Some(v) => v,
                None => "",
            };
            proof {
                assert(pv[k as int] == jv(ps@[k as int]));
                assert(names_cap(pv, cap@, k as int));
                let f = first_offer(pv, cap@);
                assert(names_cap(pv, cap@, f) && forall|j: int| 0 <= j < f ==> !#[trigger] names_cap(pv, cap@, j))
                    by {
                    assert(names_cap(pv, cap@, k as int) && forall|j: int|
                        0 <= j < k ==> !#[trigger] names_cap(pv, cap@, j));
                }
                if f < k {
                } else if f > k {
                }
                assert(f == k);
                assert(offers(jv(*cell), cap@));
                assert(offer_version(jv(*cell), cap@) == text_or(pv[k as int], "version"@, ""@));
                assert(text_or(pv[k as int], "version"@, ""@) == ver@);
            }
            return Some(ver);
        }
        proof {
            assert(pv[k as int] == jv(ps@[k as int]));
        }
        k = k + 1;
    }
    None
}

/// The name of the best provider of `cap` at `version` for `consumer`.
fn best_of<'a>(cells: &'a Vec<JsonValue>, consumer: &str, cap: &str, version: &str) -> (r: Option<&'a str>)
    ensures
        match r {
            Some(s) => pick(jvs(cells@), consumer@, cap@, version@) == Some(s@),
            None => pick(jvs(cells@), consumer@, cap@, version@) is None,
        },
{
    let ghost cs = jvs(cells@);
    let mut best: Option<usize> = None;
    let mut best_exact = false;
    let mut best_name: Vec<char> = Vec::new();
    let mut best_text: &'a str = "";
    let mut i: usize = 0;
    while i < cells.len()
        invariant
            i <= cells@.len(),
            cs == jvs(cells@),
            best is None ==> forall|j: int| 0 <= j < i ==> !#[trigger] candidate(cs, consumer@, cap@, j),
            best matches Some(b) ==> {
                &&& b < i
                &&& candidate(cs, consumer@, cap@, b as int)
                &&& best_exact == exact_at(cs, cap@, version@, b as int)
                &&& best_name@ == name_of(cs[b as int])
                &&& best_text@ == name_of(cs[b as int])
                &&& forall|j: int| 0 <= j < i && #[trigger] candidate(cs, consumer@, cap@, j) ==> {
                    &&& best_exact || !exact_at(cs, cap@, version@, j)
                    &&& (best_exact == exact_at(cs, cap@, version@, j)) ==> text_le(
                        name_of(cs[b as int]),
                        name_of(cs[j]),
                    )
                }
            },
        decreases cells@.len() - i,
    {
        let cell = &cells[i];
        assert(cs[i as int] == jv(*cell));
        let own = text_field(cell, "name");
        let other = match own {
            Some(n) => !same_text(n, consumer),
            None => true,
        };
        let offered = offered_version(cell, cap);
        if other && offered.is_some() {
            let ver = offered.unwrap();
            let is_exact = same_text(ver, version);
            let text = match own {
                Some(n) => n,
                None => "",
            };
            let name = chars_of(text);
            assert(candidate(cs, consumer@, cap@, i as int));
            assert(is_exact == exact_at(cs, cap@, version@, i as int));
            assert(name@ == name_of(cs[i as int]));
            let better = match best {
                None => true,
                Some(_) => (is_exact && !best_exact) || (is_exact == best_exact && text_less(&name, &best_name)),
            };
            proof {
                if best is Some {
                    crate::text::lemma_text_lt_total(name@, best_name@);
                }
            }
            if better {
                proof {
                    assert forall|j: int| 0 <= j < i + 1 && #[trigger] candidate(cs, consumer@, cap@, j) implies {
                        &&& is_exact || !exact_at(cs, cap@, version@, j)
                        &&& (is_exact == exact_at(cs, cap@, version@, j)) ==> text_le(
                            name_of(cs[i as int]),
                            name_of(cs[j]),
                        )
                    } by {
                        if j < i {
                            let b = best->0;
                            if is_exact == exact_at(cs, cap@, version@, j) && best_exact == exact_at(
                                cs,
                                cap@,
                                version@,
                                j,
                            ) {
                                assert(text_le(name_of(cs[b as int]), name_of(cs[j])));
                                if name_of(cs[b as int]) != name_of(cs[j]) {
                                    crate::text::lemma_text_lt_trans(
                                        name_of(cs[i as int]),
                                        name_of(cs[b as int]),
                                        name_of(cs[j]),
                                    );
                                }
                            }
                        }
                    }
                }
                best = Some(i);
                best_exact = is_exact;
                best_name = name;
                best_text = text;
            } else {
                proof {
                    let b = best->0;
                    assert forall|j: int| 0 <= j < i + 1 && #[trigger] candidate(cs, consumer@, cap@, j) implies {
                        &&& best_exact || !exact_at(cs, cap@, version@, j)
                        &&& (best_exact == exact_at(cs, cap@, version@, j)) ==> text_le(
                            name_of(cs[b as int]),
                            name_of(cs[j]),
                        )
                    } by {
                        if j == i {
                            assert(name_of(cs[j]) == name@);
                        }
                    }
                }
            }
        } else {
            proof {
                assert(!candidate(cs, consumer@, cap@, i as int));
            }
        }
        i = i + 1;
    }
    match best {
        None => {
            proof {
                assert(!exists|j: int| #[trigger] top(cs, consumer@, cap@, version@, j));
            }
            None
        },
        Some(b) => {
            proof {
                assert(top(cs, consumer@, cap@, version@, b as int));
                let c = choose|j: int| #[trigger] top(cs, consumer@, cap@, version@, j);
                lemma_top_names_agree(cs, consumer@, cap@, version@, b as int, c);
            }
            Some(best_text)
        },
    }
}

/// Whether some binding of `acc` already names `consumer` and `cap`.
fn bound(acc: &Vec<JsonValue>, consumer: &str, cap: &str) -> (r: bool)
    ensures
        r == is_bound(jvs(acc@), consumer@, cap@),
{
    let ghost av = jvs(acc@);
    let mut k: usize = 0;
    while k < acc.len()
        invariant
            k <= acc@.len(),
            av == jvs(acc@),
            forall|j: int|
                0 <= j < k ==> !(text_member(#[trigger] av[j], "consumer"@) == Some(consumer@) && text_member(
                    av[j],
                    "capability"@,
                ) == Some(cap@)),
        decreases acc@.len() - k,
    {
        assert(av[k as int] == jv(acc@[k as int]));
        let c = match text_field(&acc[k], "consumer") {
            Some(c) => same_text(c, consumer),
            None => false,
        };
        let d = match text_field(&acc[k], "capability") {
            Some(d) => same_text(d, cap),
            None => false,
        };
        if c && d {
            return true;
        }
        k = k + 1;
    }
    false
}

/// The binding edge `consumer`'s `cap` served by `provider`.
fn edge(consumer: &str, provider: &str, cap: &str, required: bool) -> (r: JsonValue)
    ensures
        jv(r) == edge_json(consumer@, provider@, cap@, required),
{
    let mut f: Vec<(String, JsonValue)> = Vec::new();
    f.push(pair("capability", json_text(cap)));
    f.push(pair("consumer", json_text(consumer)));
    f.push(pair("provider", json_text(provider)));
    f.push(pair("required", json_bool(required)));
    let r = JsonValue::Object(f);
    proof {
        reveal(jv);
        if let JsonView::Object(ms) = jv(r) {
            assert(ms =~= seq![
                ("capability"@, JsonView::Str(cap@)),
                ("consumer"@, JsonView::Str(consumer@)),
                ("provider"@, JsonView::Str(provider@)),
                ("required"@, JsonView::Bool(required)),
            ]);
        }
    }
    r
}

/// The flag member `key` of `v`, false when it has none.
fn flag_field(v: &JsonValue, key: &str) -> (r: bool)
    ensures
        r == flag_member(jv(*v), key@),
{
    match get_member(v, key) {
        Some(x) => match as_bool(x) {
            Some(b) => b,
            None => false,
        },
        None => false,
    }
}

/// Considers requirement `req` of `consumer`, adding its edge to `out`.
fn consider_req(out: &mut Vec<JsonValue>, cells: &Vec<JsonValue>, consumer: &str, req: &JsonValue)
    ensures
        jvs(final(out)@) == consider(jvs(old(out)@), jvs(cells@), consumer@, jv(*req)),
{
    let cap = match text_field(req, "name") {
        Some(c) => c,
        None => "",
    };
    proof {
        reveal_strlit("");
        reveal_strlit("1");
    }
    assert(cap@ == text_or(jv(*req), "name"@, ""@));
    if chars_of(cap).len() == 0 {
        return;
    }
    if bound(out, consumer, cap) {
        return;
    }
    let version = match text_field(req, "version") {
        Some(v) => v,
        None => "1",
    };
    assert(version@ == text_or(jv(*req), "version"@, "1"@));
    match best_of(cells, consumer, cap, version) {
        Some(p) => {
            if chars_of(p).len() > 0 {
                let optional = flag_field(req, "optional");
                let e = edge(consumer, p, cap, !optional);
                let ghost before = jvs(out@);
                out.push(e);
                assert(jvs(out@) =~= before.push(jv(e)));
            }
        },
        None => {},
    }
}

/// Copies of `items`.
fn copy_all(items: &Vec<JsonValue>) -> (r: Vec<JsonValue>)
    ensures
        jvs(r@) == jvs(items@),
{
    let ghost ex = jvs(items@);
    let mut out: Vec<JsonValue> = Vec::new();
    let mut j: usize = 0;
    while j < items.len()
        invariant
            j <= items@.len(),
            ex == jvs(items@),
            jvs(out@) == ex.take(j as int),
        decreases items@.len() - j,
    {
        let ghost before = jvs(out@);
        let c = copy_json(&items[j]);
        assert(ex[j as int] == jv(items@[j as int]));
        out.push(c);
        assert(jvs(out@) =~= before.push(jv(c)));
        assert(jvs(out@) =~= ex.take(j + 1));
        j = j + 1;
    }
    assert(ex.take(items@.len() as int) =~= ex);
    out
}

/// Considers every requirement `reqs` of `consumer` in order.
fn consider_all(out: &mut Vec<JsonValue>, cells: &Vec<JsonValue>, consumer: &str, reqs: &Vec<JsonValue>)
    ensures
        jvs(final(out)@) == over_reqs(jvs(old(out)@), jvs(cells@), consumer@, jvs(reqs@), reqs@.len() as int),
{
    let ghost rs = jvs(reqs@);
    let ghost start = jvs(out@);
    let mut k: usize = 0;
    while k < reqs.len()
        invariant
            k <= reqs@.len(),
            rs == jvs(reqs@),
            jvs(out@) == over_reqs(start, jvs(cells@), consumer@, rs, k as int),
        decreases reqs@.len() - k,
    {
        assert(rs[k as int] == jv(reqs@[k as int]));
        consider_req(out, cells, consumer, &reqs[k]);
        k = k + 1;
    }
}

/// The proposal document for `bindings` over a snapshot at `generation`.
fn proposal_document(generation: u64, bindings: Vec<JsonValue>) -> (r: JsonValue)
    requires
        generation < u64::MAX,
    ensures
        jv(r) == proposal_of(generation, jvs(bindings@)),
{
    let ghost bs = jvs(bindings@);
    let arr = array_json(bindings, Ghost(bs));
    let mut meta: Vec<(String, JsonValue)> = Vec::new();
    meta.push(pair("generation", json_u64(generation + 1)));
    meta.push(pair("proposer", json_text("cell:auto-config-cell")));
    meta.push(pair("reason", json_text("auto-config greedy match from snapshot")));
    let metadata = JsonValue::Object(meta);
    let mut spec: Vec<(String, JsonValue)> = Vec::new();
    spec.push(pair("bindings", arr));
    spec.push(pair("replaceGeneration", json_u64(generation)));
    let body = JsonValue::Object(spec);
    let mut top: Vec<(String, JsonValue)> = Vec::new();
    top.push(pair("apiVersion", json_text("kcell.dev/v1")));
    top.push(pair("kind", json_text("BindingProposal")));
    top.push(pair("metadata", metadata));
    top.push(pair("spec", body));
    let r = JsonValue::Object(top);
    proof {
        reveal(jv);
        let mv = jv(metadata);
        let bv = jv(body);
        if let JsonView::Object(ms) = mv {
            assert(ms =~= seq![
                ("generation"@, JsonView::Number(NumView::Unsigned((generation + 1) as u64))),
                ("proposer"@, JsonView::Str("cell:auto-config-cell"@)),
                ("reason"@, JsonView::Str("auto-config greedy match from snapshot"@)),
            ]);
        }
        if let JsonView::Object(ms) = bv {
            assert(ms =~= seq![
                ("bindings"@, JsonView::Array(bs)),
                ("replaceGeneration"@, JsonView::Number(NumView::Unsigned(generation))),
            ]);
        }
        if let JsonView::Object(ms) = jv(r) {
            assert(ms =~= seq![
                ("apiVersion"@, JsonView::Str("kcell.dev/v1"@)),
                ("kind"@, JsonView::Str("BindingProposal"@)),
                ("metadata"@, mv),
                ("spec"@, bv),
            ]);
        }
    }
    r
}

/// The greedy binding proposal for a Host snapshot `payload` (its `generation`, its
/// `cells` with their `provides` and `requires`, and its live `bindings`): the live
/// bindings kept as they are, then for every named Cell in order and every named
/// requirement of it in order that no binding serves yet, an edge to the best-ranked
/// other Cell that provides the capability (see `pick`). The proposal is for the next
/// generation and replaces the snapshot's; it is refused when it holds no binding.
pub fn propose_from_snapshot(payload: &JsonValue) -> (r: Result<JsonValue, String>)
    requires
        snapshot_generation(jv(*payload)) < u64::MAX,
    ensures
        match r {
            Ok(p) => greedy_bindings(jv(*payload)).len() > 0 && jv(p) == proposal_of(
                snapshot_generation(jv(*payload)),
                greedy_bindings(jv(*payload)),
            ),
            Err(e) => greedy_bindings(jv(*payload)).len() == 0 && e@ == "auto-config produced empty proposal (no bindings)"@,
        },
{
    let generation: u64 = match get_member(payload, "generation") {
        Some(g) => match as_u64(g) {
            Some(n) => n,
            None => 0,
        },
        None => 0,
    };
    assert(generation == snapshot_generation(jv(*payload)));
    let none: Vec<JsonValue> = Vec::new();
    assert(jvs(none@) =~= Seq::<JsonView>::empty());
    let cells: &Vec<JsonValue> = match items_field(payload, "cells") {
        Some(c) => c,
        None => &none,
    };
    let existing: &Vec<JsonValue> = match items_field(payload, "bindings") {
        Some(b) => b,
        None => &none,
    };
    let ghost cs = jvs(cells@);
    let ghost ex = jvs(existing@);
    assert(cs == items_member(jv(*payload), "cells"@));
    assert(ex == items_member(jv(*payload), "bindings"@));
    let mut bindings = copy_all(existing);
    let mut i: usize = 0;
    while i < cells.len()
        invariant
            i <= cells@.len(),
            cs == jvs(cells@),
            none@.len() == 0,
            jvs(bindings@) == over_cells(ex, cs, i as int),
        decreases cells@.len() - i,
    {
        let cell = &cells[i];
        assert(cs[i as int] == jv(*cell));
        let consumer = match text_field(cell, "name") {
            Some(n) => n,
            None => "",
        };
        proof {
            reveal_strlit("");
        }
        assert(consumer@ == name_of(cs[i as int]));
        if chars_of(consumer).len() > 0 {
            let reqs: &Vec<JsonValue> = match items_field(cell, "requires") {
                Some(r) => r,
                None => &none,
            };
            assert(jvs(none@) =~= Seq::<JsonView>::empty());
            assert(jvs(reqs@) == items_member(cs[i as int], "requires"@));
            consider_all(&mut bindings, cells, consumer, reqs);
        }
        i = i + 1;
    }
    if bindings.len() == 0 {
        return Err("auto-config produced empty proposal (no bindings)".to_string());
    }
    Ok(proposal_document(generation, bindings))
}

/// The auto-config Cell's answer to a request: a `binding-propose` request is
/// answered with `{"proposal": ...}` (see `propose_from_snapshot`) for its payload;
/// a malformed request, another capability, or an empty proposal is refused.
pub fn autoconfig_reply(req: &Envelope) -> (r: Result<Envelope, String>)
    requires
        snapshot_generation(jv(req.payload)) < u64::MAX,
    ensures
        envelope_problem(*req) is Some ==> (r matches Err(e) && e@ == "validation: "@ + envelope_problem(*req)->0),
        envelope_problem(*req) is None && req.capability@ != "binding-propose"@ ==> (r matches Err(e) && e@
            == "worker-autoconfig expects capability binding-propose, got "@ + req.capability@),
        envelope_problem(*req) is None && req.capability@ == "binding-propose"@ ==> if greedy_bindings(
            jv(req.payload),
        ).len() == 0 {
            r matches Err(e) && e@ == "auto-config produced empty proposal (no bindings)"@
        } else {
            r matches Ok(rep) && rep.correlation_id@ == req.correlation_id@ && rep.capability@ == req.capability@
                && rep.timeout_ms == req.timeout_ms && jv(rep.payload) == JsonView::Object(
                seq![
                    (
                        "proposal"@,
                        proposal_of(snapshot_generation(jv(req.payload)), greedy_bindings(jv(req.payload))),
                    ),
                ],
            )
        },
{
    match req.validate() {
        Ok(()) => {},
        Err(e) => {
            return Err(e.message());
        },
    }
    if !same_text(req.capability.as_str(), "binding-propose") {
        return Err(join2("worker-autoconfig expects capability binding-propose, got ", req.capability.as_str()));
    }
    let proposal = match propose_from_snapshot(&req.payload) {
        Ok(p) => p,
        Err(e) => {
            return Err(e);
        },
    };
    let ghost pv = jv(proposal);
    let mut f: Vec<(String, JsonValue)> = Vec::new();
    f.push(pair("proposal", proposal));
    let ghost v = seq![("proposal"@, pv)];
    let payload = crate::json::object_of(f, Ghost(v));
    Ok(req.reply_to(payload))
}

} // verus!
