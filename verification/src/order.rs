//! Start-up order of an AI-man's Cells: every Cell after the Cells it depends on,
//! ready Cells taken in name order, and a dependency cycle refused.

use vstd::prelude::*;

use crate::error::{is_validation, Error, Result};
use crate::manifest::aiman::{AIManManifest, CellRef};
use crate::text::{chars_of, join5, owned, same_text, text_less, text_lt};

verus! {

/// Some Cell of `cells` is named `n`.
pub open spec fn is_cell(cells: Seq<CellRef>, n: Seq<char>) -> bool {
    exists|i: int| 0 <= i < cells.len() && (#[trigger] cells[i]).name@ == n
}

/// A Cell named `c` lists `d` among the Cells it depends on.
pub open spec fn depends(cells: Seq<CellRef>, c: Seq<char>, d: Seq<char>) -> bool {
    exists|i: int, k: int|
        0 <= i < cells.len() && (#[trigger] cells[i]).name@ == c && 0 <= k < cells[i].depends_on@.len()
            && (#[trigger] cells[i].depends_on@[k])@ == d
}

/// Dependency `k` of Cell `i` names no Cell of the AI-man.
pub open spec fn unknown_at(cells: Seq<CellRef>, i: int, k: int) -> bool {
    0 <= i < cells.len() && 0 <= k < cells[i].depends_on@.len() && !is_cell(cells, cells[i].depends_on@[k]@)
}

/// `(i, k)` is the first unknown dependency, Cells in order and each Cell's list in order.
pub open spec fn first_unknown(cells: Seq<CellRef>, i: int, k: int) -> bool {
    &&& unknown_at(cells, i, k)
    &&& forall|a: int, b: int| #[trigger] unknown_at(cells, a, b) ==> a > i || (a == i && b >= k)
}

/// The names a dependency cycle runs through: a non-empty set of Cell names each of
/// which depends on one of them.
pub open spec fn cycle_in(cells: Seq<CellRef>, s: Set<Seq<char>>) -> bool {
    &&& exists|n: Seq<char>| #[trigger] s.contains(n)
    &&& forall|n: Seq<char>| #[trigger] s.contains(n) ==> is_cell(cells, n) && exists|d: Seq<char>|
        #[trigger] depends(cells, n, d) && s.contains(d)
}

/// `out` names every Cell once, each after every Cell it depends on.
pub open spec fn valid_order(cells: Seq<CellRef>, out: Seq<Seq<char>>) -> bool {
    &&& forall|a: int, b: int| 0 <= a < b < out.len() ==> out[a] != out[b]
    &&& forall|n: Seq<char>| is_cell(cells, n) <==> #[trigger] out.contains(n)
    &&& forall|j: int, d: Seq<char>|
        0 <= j < out.len() && #[trigger] depends(cells, out[j], d) ==> exists|t: int| 0 <= t < j && out[t] == d
}

/// The views of a list of strings.
pub open spec fn views(v: Seq<String>) -> Seq<Seq<char>> {
    v.map_values(|s: String| s@)
}

/// Position of `n` among `names`, when present.
fn find_name(names: &Vec<String>, n: &str) -> (r: Option<usize>)
    ensures
        match r {
            Some(i) => i < names@.len() && names@[i as int]@ == n@,
            None => forall|i: int| 0 <= i < names@.len() ==> names@[i]@ != n@,
        },
{
    let mut i: usize = 0;
    while i < names.len()
        invariant
            i <= names@.len(),
            forall|j: int| 0 <= j < i ==> names@[j]@ != n@,
        decreases names@.len() - i,
    {
        if same_text(names[i].as_str(), n) {
            return Some(i);
        }
        i = i + 1;
    }
    None
}

/// Where `n` goes in the sorted `names`: the first position whose name sorts after
/// it, or that holds it already.
fn find_slot(names: &Vec<String>, n: &str) -> (r: (usize, bool))
    requires
        forall|a: int, b: int| 0 <= a < b < names@.len() ==> text_lt(names@[a]@, names@[b]@),
    ensures
        r.0 <= names@.len(),
        forall|a: int| 0 <= a < r.0 ==> text_lt(names@[a]@, n@),
        r.1 ==> r.0 < names@.len() && names@[r.0 as int]@ == n@,
        !r.1 ==> r.0 == names@.len() || text_lt(n@, names@[r.0 as int]@),
{
    let nc = chars_of(n);
    let mut p: usize = 0;
    while p < names.len()
        invariant
            p <= names@.len(),
            nc@ == n@,
            forall|a: int| 0 <= a < p ==> text_lt(names@[a]@, n@),
        decreases names@.len() - p,
    {
        let oc = chars_of(names[p].as_str());
        if text_less(&nc, &oc) {
            return (p, false);
        }
        if !text_less(&oc, &nc) {
            proof {
                crate::text::lemma_text_lt_total(oc@, nc@);
            }
            return (p, true);
        }
        p = p + 1;
    }
    (p, false)
}

/// The distinct Cell names, in name order.
fn sorted_names(cells: &Vec<CellRef>) -> (r: Vec<String>)
    ensures
        forall|a: int, b: int| 0 <= a < b < r@.len() ==> text_lt(r@[a]@, r@[b]@),
        forall|n: Seq<char>| is_cell(cells@, n) <==> views(r@).contains(n),
{
    let mut names: Vec<String> = Vec::new();
    let mut i: usize = 0;
    while i < cells.len()
        invariant
            i <= cells@.len(),
            forall|a: int, b: int| 0 <= a < b < names@.len() ==> text_lt(names@[a]@, names@[b]@),
            forall|n: Seq<char>|
                (exists|j: int| 0 <= j < i && (#[trigger] cells@[j]).name@ == n) <==> views(names@).contains(n),
        decreases cells@.len() - i,
    {
        let n = &cells[i].name;
        let (p, dup) = find_slot(&names, n.as_str());
        let ghost old_names = names@;
        if !dup {
            proof {
                if p < names@.len() {
                    assert(text_lt(n@, names@[p as int]@));
                }
            }
            names.insert(p, n.clone());
            proof {
                assert forall|a: int, b: int| 0 <= a < b < names@.len() implies text_lt(names@[a]@, names@[b]@) by {
                    if b < p {
                    } else if a < p && b == p {
                    } else if a < p && b > p {
                        assert(names@[b] == old_names[b - 1]);
                        if b - 1 > p {
                            assert(text_lt(old_names[p as int]@, old_names[b - 1]@));
                            crate::text::lemma_text_lt_trans(n@, old_names[p as int]@, old_names[b - 1]@);
                        }
                        crate::text::lemma_text_lt_trans(names@[a]@, n@, names@[b]@);
                    } else if a == p {
                        assert(names@[b] == old_names[b - 1]);
                        if b - 1 > p {
                            assert(text_lt(old_names[p as int]@, old_names[b - 1]@));
                            crate::text::lemma_text_lt_trans(n@, old_names[p as int]@, old_names[b - 1]@);
                        }
                    } else {
                        assert(names@[a] == old_names[a - 1] && names@[b] == old_names[b - 1]);
                    }
                }
            }
        }
        proof {
            assert forall|m: Seq<char>|
                (exists|j: int| 0 <= j < i + 1 && (#[trigger] cells@[j]).name@ == m) <==> views(names@).contains(m) by {
                if exists|j: int| 0 <= j < i + 1 && (#[trigger] cells@[j]).name@ == m {
                    let j = choose|j: int| 0 <= j < i + 1 && (#[trigger] cells@[j]).name@ == m;
                    if j < i {
                        assert(exists|j: int| 0 <= j < i && (#[trigger] cells@[j]).name@ == m);
                        assert(views(old_names).contains(m));
                        let t = choose|t: int| 0 <= t < views(old_names).len() && views(old_names)[t] == m;
                        assert(old_names[t]@ == m);
                        if dup {
                            assert(names@[t] == old_names[t]);
                            assert(views(names@)[t] == m);
                        } else {
                            let t2 = if t < p { t } else { t + 1 };
                            assert(names@[t2] == old_names[t]);
                            assert(views(names@)[t2] == m);
                        }
                    } else {
                        assert(j == i);
                        assert(names@[p as int]@ == m);
                        assert(views(names@)[p as int] == m);
                    }
                }
                if views(names@).contains(m) {
                    let t = choose|t: int| 0 <= t < views(names@).len() && views(names@)[t] == m;
                    assert(names@[t]@ == m);
                    if !dup && t == p {
                        assert(cells@[i as int].name@ == m);
                    } else {
                        let t2 = if dup || t < p { t } else { t - 1 };
                        assert(names@[t] == old_names[t2]);
                        assert(views(old_names)[t2] == m);
                        assert(views(old_names).contains(m));
                        assert(exists|j: int| 0 <= j < i && (#[trigger] cells@[j]).name@ == m);
                        let j = choose|j: int| 0 <= j < i && (#[trigger] cells@[j]).name@ == m;
                        assert(cells@[j].name@ == m);
                    }
                }
            }
        }
        i = i + 1;
    }
    proof {
        assert forall|n: Seq<char>| is_cell(cells@, n) <==> views(names@).contains(n) by {
            if is_cell(cells@, n) {
                let j = choose|j: int| 0 <= j < cells@.len() && (#[trigger] cells@[j]).name@ == n;
                assert(exists|j: int| 0 <= j < cells@.len() && (#[trigger] cells@[j]).name@ == n);
            }
        }
    }
    names
}

/// The message of an unknown dependency.
pub open spec fn unknown_msg(c: Seq<char>, d: Seq<char>) -> Seq<char> {
    "cell `"@ + c + "` depends on unknown `"@ + d + "`"@
}

/// The start-up order of `aiman`'s Cells. A dependency on a Cell the AI-man does not
/// list is refused (the first such, in order); a cycle is refused; otherwise every
/// Cell comes once, after every Cell it depends on, the Cells that become ready
/// together taken in name order.
pub fn startup_order(aiman: &AIManManifest) -> (r: Result<Vec<String>>)
    ensures
        (exists|i: int, k: int| #[trigger] unknown_at(aiman.spec.cells@, i, k)) ==> exists|i: int, k: int|
            first_unknown(aiman.spec.cells@, i, k) && (r matches Err(e) && is_validation(
                e,
                unknown_msg(aiman.spec.cells@[i].name@, aiman.spec.cells@[i].depends_on@[k]@),
            )),
        !(exists|i: int, k: int| #[trigger] unknown_at(aiman.spec.cells@, i, k)) ==> match r {
            Ok(out) => valid_order(aiman.spec.cells@, views(out@)) && ready_order(aiman.spec.cells@, views(out@)),
            Err(e) => is_validation(e, "ai-man cell dependsOn graph has a cycle"@) && exists|s: Set<Seq<char>>|
                cycle_in(aiman.spec.cells@, s),
        },
{
    let cells = &aiman.spec.cells;
    let names = sorted_names(cells);
    let n = names.len();
    let mut i: usize = 0;
    while i < cells.len()
        invariant
            cells@ == aiman.spec.cells@,
            i <= cells@.len(),
            forall|a: int, b: int| 0 <= a < i && 0 <= b < cells@[a].depends_on@.len() ==> !unknown_at(cells@, a, b),
            forall|m: Seq<char>| is_cell(cells@, m) <==> views(names@).contains(m),
        decreases cells@.len() - i,
    {
        let c = &cells[i];
        let mut k: usize = 0;
        while k < c.depends_on.len()
            invariant
                cells@ == aiman.spec.cells@,
                i < cells@.len(),
                *c == cells@[i as int],
                k <= c.depends_on@.len(),
                forall|a: int, b: int| 0 <= a < i && 0 <= b < cells@[a].depends_on@.len() ==> !unknown_at(cells@, a, b),
                forall|b: int| 0 <= b < k ==> !unknown_at(cells@, i as int, b),
                forall|m: Seq<char>| is_cell(cells@, m) <==> views(names@).contains(m),
            decreases c.depends_on@.len() - k,
        {
            let d = &c.depends_on[k];
            match find_name(&names, d.as_str()) {
                Some(t) => {
                    assert(views(names@)[t as int] == d@);
                },
                None => {
                    proof {
                        assert(!views(names@).contains(d@));
                        assert(unknown_at(cells@, i as int, k as int));
                        assert forall|a: int, b: int| #[trigger] unknown_at(cells@, a, b) implies a > i || (a == i && b
                            >= k) by {
                            if a < i {
                            } else if a == i && b < k {
                            }
                        }
                        assert(first_unknown(cells@, i as int, k as int));
                    }
                    return Err(
                        Error::Validation(
                            join5("cell `", c.name.as_str(), "` depends on unknown `", d.as_str(), "`"),
                        ),
                    );
                },
            }
            k = k + 1;
        }
        i = i + 1;
    }
    proof {
        assert forall|a: int, b: int| !#[trigger] unknown_at(cells@, a, b) by {
            if 0 <= a < cells@.len() && 0 <= b < cells@[a].depends_on@.len() {
            }
        }
    }
    order_known(cells, &names)
}

/// Position of name `d` in `names`, which holds it.
fn index_of_name(names: &Vec<String>, d: &str) -> (r: usize)
    requires
        views(names@).contains(d@),
    ensures
        r < names@.len(),
        names@[r as int]@ == d@,
{
    match find_name(names, d) {
        Some(t) => t,
        None => {
            proof {
                let t = choose|t: int| 0 <= t < views(names@).len() && views(names@)[t] == d@;
                assert(names@[t]@ == d@);
            }
            0
        },
    }
}

/// Some Cell named `d` is done.
pub open spec fn name_done(names: Seq<String>, done: Seq<bool>, d: Seq<char>) -> bool {
    exists|t: int| 0 <= t < names.len() && names[t]@ == d && #[trigger] done[t]
}

/// Every Cell that `c` depends on is done.
pub open spec fn cell_ready(names: Seq<String>, done: Seq<bool>, c: CellRef) -> bool {
    forall|b: int| 0 <= b < c.depends_on@.len() ==> name_done(names, done, (#[trigger] c.depends_on@[b])@)
}

/// Whether every Cell that `c` depends on is done.
fn cell_deps_done(names: &Vec<String>, done: &Vec<bool>, c: &CellRef, Ghost(cells): Ghost<Seq<CellRef>>) -> (r: bool)
    requires
        done@.len() == names@.len(),
        names_fit(cells, names@),
        exists|i: int| 0 <= i < cells.len() && cells[i] == *c,
    ensures
        r == cell_ready(names@, done@, *c),
{
    let ghost ci = choose|i: int| 0 <= i < cells.len() && cells[i] == *c;
    let mut k: usize = 0;
    while k < c.depends_on.len()
        invariant
            0 <= ci < cells.len(),
            cells[ci] == *c,
            k <= c.depends_on@.len(),
            done@.len() == names@.len(),
            names_fit(cells, names@),
            forall|b: int| 0 <= b < k ==> name_done(names@, done@, (#[trigger] c.depends_on@[b])@),
        decreases c.depends_on@.len() - k,
    {
        let d = &c.depends_on[k];
        proof {
            assert(!unknown_at(cells, ci, k as int));
            assert(is_cell(cells, d@));
        }
        let t = index_of_name(names, d.as_str());
        if !done[t] {
            proof {
                assert forall|t2: int| 0 <= t2 < names@.len() && names@[t2]@ == d@ implies !done@[t2] by {
                    if t2 != t {
                        if t2 < t {
                            assert(text_lt(names@[t2]@, names@[t as int]@));
                        } else {
                            assert(text_lt(names@[t as int]@, names@[t2]@));
                        }
                        crate::text::lemma_text_lt_irrefl(d@);
                    }
                }
                assert(!name_done(names@, done@, c.depends_on@[k as int]@));
            }
            return false;
        }
        proof {
            assert(name_done(names@, done@, c.depends_on@[k as int]@));
        }
        k = k + 1;
    }
    true
}

/// `ready` holds exactly when every Cell named `names[t]` is `cell_ready`.
proof fn lemma_ready(cells: Seq<CellRef>, names: Seq<String>, done: Seq<bool>, t: int)
    requires
        0 <= t < names.len(),
    ensures
        ready(cells, names, done, t) <==> forall|a: int|
            0 <= a < cells.len() && (#[trigger] cells[a]).name@ == names[t]@ ==> cell_ready(names, done, cells[a]),
{
    if ready(cells, names, done, t) {
        assert forall|a: int| 0 <= a < cells.len() && (#[trigger] cells[a]).name@ == names[t]@ implies cell_ready(
            names,
            done,
            cells[a],
        ) by {
            assert forall|b: int| 0 <= b < cells[a].depends_on@.len() implies name_done(
                names,
                done,
                (#[trigger] cells[a].depends_on@[b])@,
            ) by {
                assert(depends(cells, names[t]@, cells[a].depends_on@[b]@));
            }
        }
    }
    if forall|a: int|
        0 <= a < cells.len() && (#[trigger] cells[a]).name@ == names[t]@ ==> cell_ready(names, done, cells[a]) {
        assert forall|d: Seq<char>| #[trigger] depends(cells, names[t]@, d) implies name_done(names, done, d) by {
            let (a, b) = choose|a: int, b: int|
                0 <= a < cells.len() && (#[trigger] cells[a]).name@ == names[t]@ && 0 <= b < cells[a].depends_on@.len()
                    && (#[trigger] cells[a].depends_on@[b])@ == d;
            assert(cell_ready(names, done, cells[a]));
        }
    }
}

/// Every dependency of the Cell `names[v]` is done.
fn deps_done(cells: &Vec<CellRef>, names: &Vec<String>, done: &Vec<bool>, v: usize) -> (r: bool)
    requires
        v < names@.len(),
        done@.len() == names@.len(),
        names_fit(cells@, names@),
    ensures
        r == ready(cells@, names@, done@, v as int),
{
    let mut i: usize = 0;
    while i < cells.len()
        invariant
            i <= cells@.len(),
            v < names@.len(),
            done@.len() == names@.len(),
            names_fit(cells@, names@),
            forall|a: int|
                0 <= a < i && (#[trigger] cells@[a]).name@ == names@[v as int]@ ==> cell_ready(names@, done@, cells@[a]),
        decreases cells@.len() - i,
    {
        let c = &cells[i];
        if same_text(c.name.as_str(), names[v].as_str()) {
            if !cell_deps_done(names, done, c, Ghost(cells@)) {
                proof {
                    lemma_ready(cells@, names@, done@, v as int);
                }
                return false;
            }
        }
        i = i + 1;
    }
    proof {
        lemma_ready(cells@, names@, done@, v as int);
    }
    true
}

/// Kahn's walk over the dependency graph, every dependency being a listed Cell.
fn order_known(cells: &Vec<CellRef>, names: &Vec<String>) -> (r: Result<Vec<String>>)
    requires
        names_fit(cells@, names@),
    ensures
        match r {
            Ok(out) => valid_order(cells@, views(out@)) && ready_order(cells@, views(out@)),
            Err(e) => is_validation(e, "ai-man cell dependsOn graph has a cycle"@) && exists|s: Set<Seq<char>>|
                cycle_in(cells@, s),
        },
{
    let n = names.len();
    let mut done: Vec<bool> = Vec::new();
    let mut queued: Vec<bool> = Vec::new();
    let mut v: usize = 0;
    while v < n
        invariant
            n == names@.len(),
            v <= n,
            done@.len() == v,
            queued@.len() == v,
            count_false(queued@) == v,
            forall|t: int| 0 <= t < v ==> !done@[t] && !queued@[t],
        decreases n - v,
    {
        done.push(false);
        let ghost qb = queued@;
        queued.push(false);
        assert(queued@.drop_last() =~= qb);
        v = v + 1;
    }
    let mut q: Vec<usize> = Vec::new();
    let next = collect_ready(cells, names, &done, &queued);
    proof {
        assert forall|j: int| 0 <= j < next@.len() implies (#[trigger] next@[j]) < n && !queued@[next@[j] as int] by {}
    }
    let ghost queued0 = queued@;
    enqueue(&mut q, &mut queued, &next, Ghost(n as nat));
    proof {
        assert(q@ =~= next@);
        assert forall|t: int| 0 <= t < n implies (done@[t] <==> q@.take(0).contains(t as usize)) by {}
        assert forall|j: int, d: Seq<char>|
            0 <= j < q@.len() && #[trigger] depends(cells@, names@[q@[j] as int]@, d) implies exists|t: int|
                0 <= t < j && names@[q@[t] as int]@ == d by {
            assert(ready(cells@, names@, done@, next@[j] as int));
            assert(name_done(names@, done@, d));
        }
        assert forall|t: int| 0 <= t < n && !queued@[t] implies !ready(cells@, names@, done@, t) by {
            assert(!queued0[t]);
        }
        assert(Seq::<String>::empty().len() == 0);
        assert forall|j: int| 0 <= j < q@.len() implies ready(cells@, names@, done@, #[trigger] q@[j] as int) by {
            assert(q@[j] == next@[j]);
        }
    }
    walk(cells, names, done, queued, q)
}

/// How many entries of `s` are false.
pub open spec fn count_false(s: Seq<bool>) -> nat
    decreases s.len(),
{
    if s.len() == 0 {
        0
    } else {
        count_false(s.drop_last()) + if s.last() { 0nat } else { 1nat }
    }
}

proof fn lemma_count_set(s: Seq<bool>, i: int)
    requires
        0 <= i < s.len(),
        !s[i],
    ensures
        count_false(s.update(i, true)) + 1 == count_false(s),
    decreases s.len(),
{
    let t = s.update(i, true);
    if i == s.len() - 1 {
        assert(t.drop_last() =~= s.drop_last());
    } else {
        assert(t.drop_last() =~= s.drop_last().update(i, true));
        lemma_count_set(s.drop_last(), i);
    }
}

proof fn lemma_count_zero(s: Seq<bool>, i: int)
    requires
        count_false(s) == 0,
        0 <= i < s.len(),
    ensures
        s[i],
    decreases s.len(),
{
    if i < s.len() - 1 {
        assert(s.drop_last()[i] == s[i]);
        lemma_count_zero(s.drop_last(), i);
    }
}

proof fn lemma_count_le(s: Seq<bool>)
    ensures
        count_false(s) <= s.len(),
    decreases s.len(),
{
    if s.len() > 0 {
        lemma_count_le(s.drop_last());
    }
}

/// Every dependency of Cell `t` is done.
pub open spec fn ready(cells: Seq<CellRef>, names: Seq<String>, done: Seq<bool>, t: int) -> bool {
    forall|d: Seq<char>| #[trigger] depends(cells, names[t]@, d) ==> name_done(names, done, d)
}

/// The facts about `names` every step relies on.
pub open spec fn names_fit(cells: Seq<CellRef>, names: Seq<String>) -> bool {
    &&& names.len() <= usize::MAX
    &&& forall|a: int, b: int| 0 <= a < b < names.len() ==> text_lt(names[a]@, names[b]@)
    &&& forall|m: Seq<char>| is_cell(cells, m) <==> views(names).contains(m)
    &&& forall|a: int, b: int| !#[trigger] unknown_at(cells, a, b)
}

/// `q` holds distinct Cell positions, and `queued` marks exactly them.
pub open spec fn queue_fit(q: Seq<usize>, queued: Seq<bool>, n: nat) -> bool {
    &&& queued.len() == n
    &&& forall|j: int| 0 <= j < q.len() ==> (#[trigger] q[j]) < n
    &&& forall|a: int, b: int| 0 <= a < b < q.len() ==> q[a] != q[b]
    &&& forall|t: int| 0 <= t < n ==> (queued[t] <==> q.contains(t as usize))
    &&& q.len() + count_false(queued) == n
}

/// The not yet queued Cells whose dependencies are all done, in position order.
fn collect_ready(cells: &Vec<CellRef>, names: &Vec<String>, done: &Vec<bool>, queued: &Vec<bool>) -> (next: Vec<usize>)
    requires
        names_fit(cells@, names@),
        done@.len() == names@.len(),
        queued@.len() == names@.len(),
    ensures
        forall|j: int|
            0 <= j < next@.len() ==> (#[trigger] next@[j]) < names@.len() && !queued@[next@[j] as int] && ready(
                cells@,
                names@,
                done@,
                next@[j] as int,
            ),
        forall|a: int, b: int| 0 <= a < b < next@.len() ==> next@[a] < next@[b],
        forall|t: int|
            0 <= t < names@.len() && !queued@[t] && ready(cells@, names@, done@, t) ==> next@.contains(t as usize),
{
    let n = names.len();
    let mut next: Vec<usize> = Vec::new();
    let mut w: usize = 0;
    while w < n
        invariant
            n == names@.len(),
            w <= n,
            done@.len() == n,
            queued@.len() == n,
            names_fit(cells@, names@),
            forall|j: int|
                0 <= j < next@.len() ==> (#[trigger] next@[j]) < w && !queued@[next@[j] as int] && ready(
                    cells@,
                    names@,
                    done@,
                    next@[j] as int,
                ),
            forall|a: int, b: int| 0 <= a < b < next@.len() ==> next@[a] < next@[b],
            forall|t: int| 0 <= t < w && !queued@[t] && ready(cells@, names@, done@, t) ==> next@.contains(t as usize),
        decreases n - w,
    {
        if !queued[w] && deps_done(cells, names, done, w) {
            let ghost old_next = next@;
            next.push(w);
            proof {
                assert(next@[next@.len() - 1] == w);
                assert forall|t: int|
                    0 <= t < w + 1 && !queued@[t] && ready(cells@, names@, done@, t) implies next@.contains(t as usize) by {
                    if t < w {
                        assert(old_next.contains(t as usize));
                        let j = choose|j: int| 0 <= j < old_next.len() && old_next[j] == t as usize;
                        assert(next@[j] == t as usize);
                    }
                }
            }
        }
        w = w + 1;
    }
    next
}

/// Appends `next` to the queue and marks its Cells queued.
fn enqueue(q: &mut Vec<usize>, queued: &mut Vec<bool>, next: &Vec<usize>, Ghost(n): Ghost<nat>)
    requires
        n <= usize::MAX,
        queue_fit(old(q)@, old(queued)@, n),
        forall|j: int| 0 <= j < next@.len() ==> (#[trigger] next@[j]) < n && !old(queued)@[next@[j] as int],
        forall|a: int, b: int| 0 <= a < b < next@.len() ==> next@[a] < next@[b],
    ensures
        queue_fit(final(q)@, final(queued)@, n),
        final(q)@ == old(q)@ + next@,
        forall|t: int| 0 <= t < n ==> final(queued)@[t] == (old(queued)@[t] || next@.contains(t as usize)),
{
    let ghost q0 = q@;
    let ghost queued0 = queued@;
    let mut k: usize = 0;
    while k < next.len()
        invariant
            n <= usize::MAX,
            queued@.len() == n,
            k <= next@.len(),
            q@ == q0 + next@.take(k as int),
            queue_fit(q0, queued0, n),
            forall|j: int| 0 <= j < next@.len() ==> (#[trigger] next@[j]) < n && !queued0[next@[j] as int],
            forall|a: int, b: int| 0 <= a < b < next@.len() ==> next@[a] < next@[b],
            forall|t: int| 0 <= t < n ==> queued@[t] == (queued0[t] || next@.take(k as int).contains(t as usize)),
            q@.len() + count_false(queued@) == n,
        decreases next@.len() - k,
    {
        let x = next[k];
        let ghost a0 = next@.take(k as int);
        let ghost a1 = next@.take(k + 1);
        proof {
            if a0.contains(x) {
                let j = choose|j: int| 0 <= j < a0.len() && a0[j] == x;
                assert(next@[j] < next@[k as int]);
            }
            assert(!queued@[x as int]);
            lemma_count_set(queued@, x as int);
        }
        q.push(x);
        queued.set(x, true);
        proof {
            assert(q@ =~= q0 + a1);
            assert forall|t: int| 0 <= t < n implies queued@[t] == (queued0[t] || a1.contains(t as usize)) by {
                if a1.contains(t as usize) && t != x as int {
                    let j = choose|j: int| 0 <= j < a1.len() && a1[j] == t as usize;
                    assert(a1[k as int] == x);
                    assert(j != k);
                    assert(a0[j] == a1[j]);
                    assert(a0.contains(t as usize));
                }
                if a0.contains(t as usize) {
                    let j = choose|j: int| 0 <= j < a0.len() && a0[j] == t as usize;
                    assert(a1[j] == t as usize);
                }
                if t == x as int {
                    assert(a1[k as int] == x);
                }
            }
        }
        k = k + 1;
    }
    proof {
        assert(next@.take(next@.len() as int) =~= next@);
        let qq = q@;
        assert forall|j: int| 0 <= j < qq.len() implies (#[trigger] qq[j]) < n by {
            if j >= q0.len() {
                assert(qq[j] == next@[j - q0.len()]);
            }
        }
        assert forall|a: int, b: int| 0 <= a < b < qq.len() implies qq[a] != qq[b] by {
            if b >= q0.len() {
                assert(qq[b] == next@[b - q0.len()]);
                if a >= q0.len() {
                    assert(qq[a] == next@[a - q0.len()]);
                } else {
                    assert(qq[a] == q0[a]);
                    assert(q0.contains(qq[a]));
                }
            }
        }
        assert forall|t: int| 0 <= t < n implies (queued@[t] <==> qq.contains(t as usize)) by {
            assert(queued0[t] <==> q0.contains(t as usize));
            assert(queued@[t] == (queued0[t] || next@.contains(t as usize)));
            if queued@[t] {
                if queued0[t] {
                    let j = choose|j: int| 0 <= j < q0.len() && q0[j] == t as usize;
                    assert(qq[j] == t as usize);
                } else {
                    let j = choose|j: int| 0 <= j < next@.len() && next@[j] == t as usize;
                    assert(qq[q0.len() + j] == t as usize);
                }
            }
            if qq.contains(t as usize) {
                let j = choose|j: int| 0 <= j < qq.len() && qq[j] == t as usize;
                if j < q0.len() {
                    assert(q0[j] == t as usize);
                } else {
                    assert(next@[j - q0.len()] == t as usize);
                }
            }
        }
    }
}

/// What the walk knows after `h` steps.
pub open spec fn walk_fit(
    cells: Seq<CellRef>,
    names: Seq<String>,
    done: Seq<bool>,
    queued: Seq<bool>,
    q: Seq<usize>,
    out: Seq<String>,
    h: int,
) -> bool {
    let n = names.len();
    &&& names_fit(cells, names)
    &&& done.len() == n
    &&& queue_fit(q, queued, n)
    &&& 0 <= h <= q.len()
    &&& forall|t: int| 0 <= t < n ==> (done[t] <==> q.take(h).contains(t as usize))
    &&& out.len() == h
    &&& forall|j: int| 0 <= j < h ==> (#[trigger] out[j])@ == names[q[j] as int]@
    &&& forall|j: int, d: Seq<char>|
        0 <= j < q.len() && #[trigger] depends(cells, names[q[j] as int]@, d) ==> exists|t: int|
            0 <= t < j && names[q[t] as int]@ == d
    &&& forall|t: int| 0 <= t < n && !queued[t] ==> !ready(cells, names, done, t)
}

/// Position of the last Cell among the first `k` of `out` that `x` depends on, or -1.
pub open spec fn last_dep(cells: Seq<CellRef>, out: Seq<Seq<char>>, x: Seq<char>, k: int) -> int
    decreases k,
{
    if k <= 0 {
        -1
    } else if depends(cells, x, out[k - 1]) {
        k - 1
    } else {
        last_dep(cells, out, x, k - 1)
    }
}

/// When the Cell at position `j` of `out` became ready: the position of the last of
/// its dependencies before it, or -1 when it has none.
pub open spec fn ready_at(cells: Seq<CellRef>, out: Seq<Seq<char>>, j: int) -> int {
    last_dep(cells, out, out[j], j)
}

/// Cells start in the order they became ready; Cells ready at the same time start
/// in name order.
pub open spec fn ready_order(cells: Seq<CellRef>, out: Seq<Seq<char>>) -> bool {
    forall|a: int, b: int|
        #![trigger ready_at(cells, out, a), ready_at(cells, out, b)]
        0 <= a < b < out.len() ==> ready_at(cells, out, a) < ready_at(cells, out, b) || (ready_at(cells, out, a)
            == ready_at(cells, out, b) && text_lt(out[a], out[b]))
}

proof fn lemma_last_dep_prefix(cells: Seq<CellRef>, s: Seq<Seq<char>>, y: Seq<char>, x: Seq<char>, k: int)
    requires
        0 <= k <= s.len(),
    ensures
        last_dep(cells, s.push(y), x, k) == last_dep(cells, s, x, k),
    decreases k,
{
    if k > 0 {
        lemma_last_dep_prefix(cells, s, y, x, k - 1);
        assert(s.push(y)[k - 1] == s[k - 1]);
    }
}

proof fn lemma_last_dep_bound(cells: Seq<CellRef>, s: Seq<Seq<char>>, x: Seq<char>, k: int)
    requires
        0 <= k,
    ensures
        -1 <= last_dep(cells, s, x, k) < k,
    decreases k,
{
    if k > 0 {
        lemma_last_dep_bound(cells, s, x, k - 1);
    }
}

/// Names of the sorted list are distinct.
proof fn lemma_names_distinct(cells: Seq<CellRef>, names: Seq<String>, a: int, b: int)
    requires
        names_fit(cells, names),
        0 <= a < names.len(),
        0 <= b < names.len(),
        names[a]@ == names[b]@,
    ensures
        a == b,
{
    if a < b {
        crate::text::lemma_text_lt_irrefl(names[a]@);
    } else if b < a {
        crate::text::lemma_text_lt_irrefl(names[a]@);
    }
}

/// What the walk knows of when each queued Cell became ready.
pub open spec fn batch_fit(cells: Seq<CellRef>, names: Seq<String>, done: Seq<bool>, q: Seq<usize>, out: Seq<String>, bat: Seq<int>, h: int) -> bool {
    &&& bat.len() == q.len()
    &&& forall|a: int, b: int|
        0 <= a < b < q.len() ==> bat[a] < bat[b] || (bat[a] == bat[b] && q[a] < q[b])
    &&& forall|j: int|
        0 <= j < q.len() ==> #[trigger] bat[j] == last_dep(cells, views(out), names[q[j] as int]@, if j < h { j } else { h })
    &&& forall|j: int| h <= j < q.len() ==> ready(cells, names, done, #[trigger] q[j] as int)
}

proof fn lemma_batch_step(
    cells: Seq<CellRef>,
    names: Seq<String>,
    done0: Seq<bool>,
    done: Seq<bool>,
    queued0: Seq<bool>,
    q0: Seq<usize>,
    next: Seq<usize>,
    out0: Seq<String>,
    out: Seq<String>,
    bat0: Seq<int>,
    h: int,
) -> (bat: Seq<int>)
    requires
        walk_fit(cells, names, done0, queued0, q0, out0, h),
        h < q0.len(),
        batch_fit(cells, names, done0, q0, out0, bat0, h),
        done == done0.update(q0[h] as int, true),
        out == out0.push(out[h]),
        out[h]@ == names[q0[h] as int]@,
        forall|j: int|
            0 <= j < next.len() ==> (#[trigger] next[j]) < names.len() && !queued0[next[j] as int] && ready(
                cells,
                names,
                done,
                next[j] as int,
            ),
        forall|a: int, b: int| 0 <= a < b < next.len() ==> next[a] < next[b],
    ensures
        bat == bat0 + Seq::new(next.len(), |i: int| h),
        batch_fit(cells, names, done, q0 + next, out, bat, h + 1),
{
    let u = q0[h];
    let q = q0 + next;
    let bat = bat0 + Seq::new(next.len(), |i: int| h);
    assert(views(out) =~= views(out0).push(names[u as int]@));
    assert(views(out0).len() == h);
    // a Cell done before this step is not `u`
    assert(!done0[u as int]) by {
        if done0[u as int] {
            let pre = q0.take(h);
            assert(pre.contains(u));
            let t = choose|t: int| 0 <= t < pre.len() && pre[t] == u;
            assert(q0[t] == q0[h]);
        }
    }
    assert forall|j: int| 0 <= j < q.len() implies #[trigger] bat[j] == last_dep(
        cells,
        views(out),
        names[q[j] as int]@,
        if j < h + 1 { j } else { h + 1 },
    ) by {
        if j < q0.len() {
            let x = names[q0[j] as int]@;
            assert(q[j] == q0[j]);
            assert(bat[j] == bat0[j]);
            if j <= h {
                lemma_last_dep_prefix(cells, views(out0), names[u as int]@, x, j);
            } else {
                lemma_last_dep_prefix(cells, views(out0), names[u as int]@, x, h);
                assert(views(out)[h] == names[u as int]@);
                if depends(cells, x, names[u as int]@) {
                    assert(ready(cells, names, done0, q0[j] as int));
                    assert(name_done(names, done0, names[u as int]@));
                    let t = choose|t: int| 0 <= t < names.len() && names[t]@ == names[u as int]@ && #[trigger] done0[t];
                    lemma_names_distinct(cells, names, t, u as int);
                }
            }
        } else {
            let k = j - q0.len();
            let x = next[k];
            assert(q[j] == x);
            assert(bat[j] == h);
            assert(views(out)[h] == names[u as int]@);
            assert(!queued0[x as int]);
            assert(!ready(cells, names, done0, x as int));
            let d = choose|d: Seq<char>| #[trigger] depends(cells, names[x as int]@, d) && !name_done(names, done0, d);
            assert(ready(cells, names, done, x as int));
            assert(name_done(names, done, d));
            let t = choose|t: int| 0 <= t < names.len() && names[t]@ == d && #[trigger] done[t];
            if t != u as int {
                assert(done0[t]);
            }
            assert(depends(cells, names[x as int]@, views(out)[h]));
        }
    }
    assert forall|a: int, b: int| 0 <= a < b < q.len() implies bat[a] < bat[b] || (bat[a] == bat[b] && q[a] < q[b]) by {
        if b < q0.len() {
            assert(bat[a] == bat0[a] && bat[b] == bat0[b] && q[a] == q0[a] && q[b] == q0[b]);
        } else if a < q0.len() {
            assert(bat[b] == h);
            let x = names[q[a] as int]@;
            if a <= h {
                lemma_last_dep_bound(cells, views(out), x, a);
                if a == h {
                    assert(bat[a] == last_dep(cells, views(out), x, a));
                }
            } else {
                lemma_last_dep_bound(cells, views(out0), x, h);
                lemma_last_dep_prefix(cells, views(out0), names[u as int]@, x, h);
                assert(bat[a] == bat0[a]);
            }
        } else {
            assert(bat[a] == h && bat[b] == h);
            assert(q[a] == next[a - q0.len()] && q[b] == next[b - q0.len()]);
        }
    }
    assert forall|j: int| h + 1 <= j < q.len() implies ready(cells, names, done, #[trigger] q[j] as int) by {
        if j < q0.len() {
            assert(q[j] == q0[j]);
            assert(ready(cells, names, done0, q0[j] as int));
            assert forall|d: Seq<char>| #[trigger] depends(cells, names[q0[j] as int]@, d) implies name_done(names, done, d) by {
                let t = choose|t: int| 0 <= t < names.len() && names[t]@ == d && #[trigger] done0[t];
                assert(done[t]);
            }
        } else {
            assert(q[j] == next[j - q0.len()]);
        }
    }
    bat
}

/// The breadth-first part of the walk, from the Cells without dependencies.
fn walk(cells: &Vec<CellRef>, names: &Vec<String>, done: Vec<bool>, queued: Vec<bool>, q: Vec<usize>) -> (r: Result<
    Vec<String>,
>)
    requires
        walk_fit(cells@, names@, done@, queued@, q@, Seq::empty(), 0),
        forall|a: int, b: int| 0 <= a < b < q@.len() ==> q@[a] < q@[b],
        forall|j: int| 0 <= j < q@.len() ==> ready(cells@, names@, done@, #[trigger] q@[j] as int),
    ensures
        match r {
            Ok(out) => valid_order(cells@, views(out@)) && ready_order(cells@, views(out@)),
            Err(e) => is_validation(e, "ai-man cell dependsOn graph has a cycle"@) && exists|s: Set<Seq<char>>|
                cycle_in(cells@, s),
        },
{
    let n = names.len();
    let mut done = done;
    let mut queued = queued;
    let mut q = q;
    let mut out: Vec<String> = Vec::new();
    let mut h: usize = 0;
    assert(out@ =~= Seq::<String>::empty());
    let ghost mut bat: Seq<int> = Seq::new(q@.len(), |i: int| -1int);
    assert(batch_fit(cells@, names@, done@, q@, out@, bat, 0));
    while h < q.len()
        invariant
            n == names@.len(),
            walk_fit(cells@, names@, done@, queued@, q@, out@, h as int),
            batch_fit(cells@, names@, done@, q@, out@, bat, h as int),
        decreases n - h,
    {
        proof {
            lemma_count_le(queued@);
        }
        let ghost out0 = out@;
        let ghost done_start = done@;
        let ghost queued_start = queued@;
        let ghost q_start = q@;
        let ghost h0 = h as int;
        let u = q[h];
        out.push(names[u].clone());
        let ghost done0 = done@;
        done.set(u, true);
        h = h + 1;
        proof {
            lemma_mark_done(q@, done0, done@, u, h as int, n as int);
        }
        let next = collect_ready(cells, names, &done, &queued);
        let ghost q0 = q@;
        let ghost queued0 = queued@;
        enqueue(&mut q, &mut queued, &next, Ghost(n as nat));
        proof {
            lemma_walk_step(cells@, names@, done@, queued0, queued@, q0, q@, next@, out@, h as int);
            assert(out@[h0]@ == names@[q_start[h0] as int]@);
            assert(out@ == out0.push(out@[h0]));
            bat = lemma_batch_step(cells@, names@, done_start, done@, queued_start, q_start, next@, out0, out@, bat, h0);
        }
    }
    if out.len() != n {
        proof {
            lemma_cycle(cells@, names@, done@, queued@, q@, h as int);
        }
        return Err(Error::Validation(owned("ai-man cell dependsOn graph has a cycle")));
    }
    proof {
        lemma_complete(cells@, names@, done@, queued@, q@, out@);
        let v = views(out@);
        assert forall|a: int, b: int|
            #![trigger ready_at(cells@, v, a), ready_at(cells@, v, b)]
            0 <= a < b < v.len() implies ready_at(cells@, v, a) < ready_at(cells@, v, b) || (
        ready_at(cells@, v, a) == ready_at(cells@, v, b) && text_lt(v[a], v[b])) by {
            assert(v[a] == names@[q@[a] as int]@);
            assert(v[b] == names@[q@[b] as int]@);
            assert(bat[a] == last_dep(cells@, v, names@[q@[a] as int]@, a));
            assert(bat[b] == last_dep(cells@, v, names@[q@[b] as int]@, b));
            if q@[a] < q@[b] {
                assert(text_lt(names@[q@[a] as int]@, names@[q@[b] as int]@));
            }
        }
        assert(ready_order(cells@, v));
        assert(valid_order(cells@, v));
    }
    Ok(out)
}

proof fn lemma_mark_done(q: Seq<usize>, done0: Seq<bool>, done: Seq<bool>, u: usize, h: int, n: int)
    requires
        n <= usize::MAX,
        0 < h <= q.len(),
        q[h - 1] == u,
        (u as int) < n,
        done0.len() == n,
        done == done0.update(u as int, true),
        forall|t: int| 0 <= t < n ==> (done0[t] <==> q.take(h - 1).contains(t as usize)),
    ensures
        forall|t: int| 0 <= t < n ==> (done[t] <==> q.take(h).contains(t as usize)),
{
    assert forall|t: int| 0 <= t < n implies (done[t] <==> q.take(h).contains(t as usize)) by {
        let pre = q.take(h - 1);
        let cur = q.take(h);
        if t == u as int {
            assert(cur[h - 1] == u);
        } else {
            if done[t] {
                assert(done0[t]);
                let j = choose|j: int| 0 <= j < pre.len() && pre[j] == t as usize;
                assert(cur[j] == t as usize);
            }
            if cur.contains(t as usize) {
                let j = choose|j: int| 0 <= j < cur.len() && cur[j] == t as usize;
                assert(j != h - 1);
                assert(pre[j] == t as usize);
            }
        }
    }
}

proof fn lemma_walk_step(
    cells: Seq<CellRef>,
    names: Seq<String>,
    done: Seq<bool>,
    queued0: Seq<bool>,
    queued: Seq<bool>,
    q0: Seq<usize>,
    q: Seq<usize>,
    next: Seq<usize>,
    out: Seq<String>,
    h: int,
)
    requires
        names_fit(cells, names),
        done.len() == names.len(),
        queue_fit(q0, queued0, names.len()),
        queue_fit(q, queued, names.len()),
        q == q0 + next,
        0 <= h <= q0.len(),
        forall|t: int| 0 <= t < names.len() ==> queued[t] == (queued0[t] || next.contains(t as usize)),
        forall|t: int| 0 <= t < names.len() ==> (done[t] <==> q0.take(h).contains(t as usize)),
        out.len() == h,
        forall|j: int| 0 <= j < h ==> (#[trigger] out[j])@ == names[q0[j] as int]@,
        forall|j: int, d: Seq<char>|
            0 <= j < q0.len() && #[trigger] depends(cells, names[q0[j] as int]@, d) ==> exists|t: int|
                0 <= t < j && names[q0[t] as int]@ == d,
        forall|j: int|
            0 <= j < next.len() ==> (#[trigger] next[j]) < names.len() && ready(cells, names, done, next[j] as int),
        forall|t: int|
            0 <= t < names.len() && !queued0[t] && ready(cells, names, done, t) ==> next.contains(t as usize),
    ensures
        walk_fit(cells, names, done, queued, q, out, h),
{
    assert forall|t: int| 0 <= t < names.len() implies (done[t] <==> q.take(h).contains(t as usize)) by {
        assert(q.take(h) =~= q0.take(h));
    }
    assert forall|j: int| 0 <= j < h implies (#[trigger] out[j])@ == names[q[j] as int]@ by {
        assert(q[j] == q0[j]);
    }
    assert forall|j: int, d: Seq<char>|
        0 <= j < q.len() && #[trigger] depends(cells, names[q[j] as int]@, d) implies exists|t: int|
            0 <= t < j && names[q[t] as int]@ == d by {
        if j < q0.len() {
            assert(q[j] == q0[j]);
            let t = choose|t: int| 0 <= t < j && names[q0[t] as int]@ == d;
            assert(q[t] == q0[t]);
        } else {
            let x = next[j - q0.len()];
            assert(q[j] == x);
            assert(ready(cells, names, done, x as int));
            assert(name_done(names, done, d));
            let u2 = choose|u2: int| 0 <= u2 < names.len() && names[u2]@ == d && #[trigger] done[u2];
            let pre = q0.take(h);
            assert(done[u2]);
            assert(pre.contains(u2 as usize));
            let t = choose|t: int| 0 <= t < pre.len() && pre[t] == u2 as usize;
            assert(q[t] == q0[t]);
            assert(q0[t] == pre[t]);
            assert(names[q[t] as int]@ == d);
        }
    }
    assert forall|t: int| 0 <= t < names.len() && !queued[t] implies !ready(cells, names, done, t) by {
        assert(!queued0[t]);
    }
}

proof fn lemma_cycle(cells: Seq<CellRef>, names: Seq<String>, done: Seq<bool>, queued: Seq<bool>, q: Seq<usize>, h: int)
    requires
        names_fit(cells, names),
        done.len() == names.len(),
        queue_fit(q, queued, names.len()),
        h == q.len(),
        q.len() != names.len(),
        forall|t: int| 0 <= t < names.len() ==> (done[t] <==> q.take(h).contains(t as usize)),
        forall|t: int| 0 <= t < names.len() && !queued[t] ==> !ready(cells, names, done, t),
    ensures
        exists|s: Set<Seq<char>>| cycle_in(cells, s),
{
    let n = names.len();
    assert(q.take(h) =~= q);
    let s = Set::new(|m: Seq<char>| exists|t: int| 0 <= t < n && !queued[t] && names[t]@ == m);
    lemma_count_le(queued);
    let t0 = choose_unqueued(queued);
    assert(s.contains(names[t0]@));
    assert forall|m: Seq<char>| #[trigger] s.contains(m) implies is_cell(cells, m) && exists|d: Seq<char>|
        #[trigger] depends(cells, m, d) && s.contains(d) by {
        let t = choose|t: int| 0 <= t < n && !queued[t] && names[t]@ == m;
        assert(views(names)[t] == m);
        assert(!ready(cells, names, done, t));
        let d = choose|d: Seq<char>| #[trigger] depends(cells, names[t]@, d) && !name_done(names, done, d);
        let (a, b) = choose|a: int, b: int|
            0 <= a < cells.len() && (#[trigger] cells[a]).name@ == names[t]@ && 0 <= b < cells[a].depends_on@.len()
                && (#[trigger] cells[a].depends_on@[b])@ == d;
        assert(!unknown_at(cells, a, b));
        assert(views(names).contains(d));
        let u = choose|u: int| 0 <= u < views(names).len() && views(names)[u] == d;
        assert(names[u]@ == d);
        assert(!done[u]);
        assert(!queued[u]);
        assert(s.contains(d));
    }
    assert(cycle_in(cells, s));
}

proof fn lemma_complete(
    cells: Seq<CellRef>,
    names: Seq<String>,
    done: Seq<bool>,
    queued: Seq<bool>,
    q: Seq<usize>,
    out: Seq<String>,
)
    requires
        walk_fit(cells, names, done, queued, q, out, q.len() as int),
        out.len() == names.len(),
    ensures
        valid_order(cells, views(out)),
{
    let n = names.len();
    assert(count_false(queued) == 0);
    let o = views(out);
    assert forall|j: int| 0 <= j < o.len() implies o[j] == names[q[j] as int]@ by {}
    assert forall|a: int, b: int| 0 <= a < b < o.len() implies o[a] != o[b] by {
        let x = q[a] as int;
        let y = q[b] as int;
        assert(o[a] == names[x]@ && o[b] == names[y]@);
        if x < y {
            assert(text_lt(names[x]@, names[y]@));
            crate::text::lemma_text_lt_irrefl(names[x]@);
        } else {
            assert(text_lt(names[y]@, names[x]@));
            crate::text::lemma_text_lt_irrefl(names[y]@);
        }
    }
    assert forall|m: Seq<char>| is_cell(cells, m) <==> #[trigger] o.contains(m) by {
        if is_cell(cells, m) {
            let t = choose|t: int| 0 <= t < views(names).len() && views(names)[t] == m;
            lemma_count_zero(queued, t);
            let j = choose|j: int| 0 <= j < q.len() && q[j] == t as usize;
            assert(views(names)[t] == names[t]@);
            assert(o[j] == names[q[j] as int]@);
            assert(o[j] == m);
        }
        if o.contains(m) {
            let j = choose|j: int| 0 <= j < o.len() && o[j] == m;
            assert(views(names)[q[j] as int] == m);
        }
    }
    assert forall|j: int, d: Seq<char>|
        0 <= j < o.len() && #[trigger] depends(cells, o[j], d) implies exists|t: int| 0 <= t < j && o[t] == d by {
        assert(o[j] == names[q[j] as int]@);
        let t = choose|t: int| 0 <= t < j && names[q[t] as int]@ == d;
        assert(o[t] == d);
    }
}

/// Some entry of `s` is false.
proof fn choose_unqueued(s: Seq<bool>) -> (t: int)
    requires
        count_false(s) > 0,
    ensures
        0 <= t < s.len(),
        !s[t],
    decreases s.len(),
{
    if !s.last() {
        s.len() - 1
    } else {
        let t = choose_unqueued(s.drop_last());
        assert(s.drop_last()[t] == s[t]);
        t
    }
}

/// A dependency cycle admits no start-up order: whatever `startup_order` refuses as
/// a cycle has none, and whatever it orders has no cycle.
pub proof fn cycle_has_no_order(cells: Seq<CellRef>, out: Seq<Seq<char>>, s: Set<Seq<char>>)
    requires
        valid_order(cells, out),
    ensures
        !cycle_in(cells, s),
{
    if cycle_in(cells, s) {
        let n0 = choose|n: Seq<char>| #[trigger] s.contains(n);
        assert(is_cell(cells, n0));
        assert(out.contains(n0));
        let k0 = choose|k: int| 0 <= k < out.len() && out[k] == n0;
        let j = lemma_first_in(out, s, k0 + 1);
        let d = choose|d: Seq<char>| #[trigger] depends(cells, out[j], d) && s.contains(d);
        let t = choose|t: int| 0 <= t < j && out[t] == d;
        assert(s.contains(out[t]));
    }
}

proof fn lemma_first_in(out: Seq<Seq<char>>, s: Set<Seq<char>>, len: int) -> (j: int)
    requires
        0 < len <= out.len(),
        exists|k: int| 0 <= k < len && s.contains(out[k]),
    ensures
        0 <= j < len,
        s.contains(out[j]),
        forall|k: int| 0 <= k < j ==> !s.contains(out[k]),
    decreases len,
{
    if len > 1 && exists|k: int| 0 <= k < len - 1 && s.contains(out[k]) {
        lemma_first_in(out, s, len - 1)
    } else {
        let k = choose|k: int| 0 <= k < len && s.contains(out[k]);
        assert(k == len - 1);
        len - 1
    }
}

} // verus!
