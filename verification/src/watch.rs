//! Cell directory watching: comparing two scans of the watched roots into load and
//! unload actions, and turning those actions into control requests. Scanning the
//! disk and talking to the control socket are left to the embedding program.

use vstd::prelude::*;

use crate::control::{ControlRequest, ControlResponse};
use crate::error::{is_validation, Error, Result};
use crate::text::{owned, same_text};

verus! {

/// What to watch and how.
#[derive(Debug, Clone)]
pub struct WatchConfig {
    pub roots: Vec<String>,
    /// Poll interval, or the debounce floor for file events (ms).
    pub interval_ms: u64,
    pub auto_bind: bool,
    /// Prefer file-system events (needs the `notify` build).
    pub use_notify: bool,
}

/// A Cell directory found by a scan.
#[derive(Debug, Clone)]
pub struct WatchedCell {
    pub dir: String,
    pub name: String,
    pub digest: String,
}

/// What a scan difference asks of the Host.
#[derive(Debug, Clone)]
pub enum WatchAction {
    Load { dir: String, replace: bool },
    Unload { name: String },
}

/// An action by value.
pub enum ActionView {
    Load(Seq<char>, bool),
    Unload(Seq<char>),
}

/// The value of an action.
pub open spec fn action_view(a: WatchAction) -> ActionView {
    match a {
        WatchAction::Load { dir, replace } => ActionView::Load(dir@, replace),
        WatchAction::Unload { name } => ActionView::Unload(name@),
    }
}

/// The values of a list of actions.
pub open spec fn action_views(s: Seq<WatchAction>) -> Seq<ActionView> {
    s.map_values(|a: WatchAction| action_view(a))
}

/// Position of the first scanned Cell in directory `dir`, or -1.
pub open spec fn dir_index(cells: Seq<WatchedCell>, dir: Seq<char>) -> int
    decreases cells.len(),
{
    if cells.len() == 0 {
        -1
    } else if cells[0].dir@ == dir {
        0
    } else {
        let k = dir_index(cells.drop_first(), dir);
        if k < 0 {
            -1
        } else {
            k + 1
        }
    }
}

/// The loads for the first `n` Cells of `next`: new directories are loaded, changed
/// ones (other digest) reloaded.
pub open spec fn loads(prev: Seq<WatchedCell>, next: Seq<WatchedCell>, n: int) -> Seq<ActionView>
    decreases n,
{
    if n <= 0 || n > next.len() {
        Seq::empty()
    } else {
        let rest = loads(prev, next, n - 1);
        let c = next[n - 1];
        let k = dir_index(prev, c.dir@);
        if k < 0 {
            rest.push(ActionView::Load(c.dir@, false))
        } else if prev[k].digest@ != c.digest@ {
            rest.push(ActionView::Load(c.dir@, true))
        } else {
            rest
        }
    }
}

/// The unloads for the first `n` Cells of `prev`: directories gone from `next`.
pub open spec fn unloads(prev: Seq<WatchedCell>, next: Seq<WatchedCell>, n: int) -> Seq<ActionView>
    decreases n,
{
    if n <= 0 || n > prev.len() {
        Seq::empty()
    } else {
        let rest = unloads(prev, next, n - 1);
        let c = prev[n - 1];
        if dir_index(next, c.dir@) < 0 {
            rest.push(ActionView::Unload(c.name@))
        } else {
            rest
        }
    }
}

proof fn lemma_dir_index(cells: Seq<WatchedCell>, dir: Seq<char>)
    ensures
        -1 <= dir_index(cells, dir) < cells.len(),
        dir_index(cells, dir) >= 0 ==> cells[dir_index(cells, dir)].dir@ == dir && forall|j: int|
            0 <= j < dir_index(cells, dir) ==> (#[trigger] cells[j]).dir@ != dir,
        dir_index(cells, dir) < 0 ==> forall|j: int| 0 <= j < cells.len() ==> (#[trigger] cells[j]).dir@ != dir,
    decreases cells.len(),
{
    if cells.len() > 0 {
        lemma_dir_index(cells.drop_first(), dir);
        let k = dir_index(cells.drop_first(), dir);
        assert forall|j: int| 1 <= j < cells.len() implies cells[j] == cells.drop_first()[j - 1] by {}
    }
}

/// No two Cells of a scan share a directory (a scan keyed by directory).
pub open spec fn dirs_unique(cells: Seq<WatchedCell>) -> bool {
    forall|a: int, b: int| 0 <= a < b < cells.len() ==> (#[trigger] cells[a]).dir@ != (#[trigger] cells[b]).dir@
}

proof fn lemma_same_scan_loads(s: Seq<WatchedCell>, n: int)
    requires
        dirs_unique(s),
        0 <= n <= s.len(),
    ensures
        loads(s, s, n) == Seq::<ActionView>::empty(),
        unloads(s, s, n) == Seq::<ActionView>::empty(),
    decreases n,
{
    if n > 0 {
        lemma_same_scan_loads(s, n - 1);
        lemma_dir_index(s, s[n - 1].dir@);
        let k = dir_index(s, s[n - 1].dir@);
        assert(k >= 0);
        if k != n - 1 {
            assert(s[k].dir@ == s[n - 1].dir@);
        }
    }
}

/// Comparing a scan with itself asks for nothing: no load, no unload.
pub proof fn unchanged_scan_no_actions(s: Seq<WatchedCell>)
    requires
        dirs_unique(s),
    ensures
        loads(s, s, s.len() as int) + unloads(s, s, s.len() as int) == Seq::<ActionView>::empty(),
{
    lemma_same_scan_loads(s, s.len() as int);
    assert(Seq::<ActionView>::empty() + Seq::<ActionView>::empty() =~= Seq::<ActionView>::empty());
}

proof fn lemma_new_dir_loaded(prev: Seq<WatchedCell>, next: Seq<WatchedCell>, n: int, j: int)
    requires
        0 <= j < n <= next.len(),
        dir_index(prev, next[j].dir@) < 0,
    ensures
        loads(prev, next, n).contains(ActionView::Load(next[j].dir@, false)),
    decreases n,
{
    if j < n - 1 {
        lemma_new_dir_loaded(prev, next, n - 1, j);
        let rest = loads(prev, next, n - 1);
        let k = choose|k: int| 0 <= k < rest.len() && rest[k] == ActionView::Load(next[j].dir@, false);
        assert(loads(prev, next, n)[k] == rest[k]);
    } else {
        let l = loads(prev, next, n);
        assert(l[l.len() - 1] == ActionView::Load(next[j].dir@, false));
    }
}

proof fn lemma_gone_dir_unloaded(prev: Seq<WatchedCell>, next: Seq<WatchedCell>, n: int, j: int)
    requires
        0 <= j < n <= prev.len(),
        dir_index(next, prev[j].dir@) < 0,
    ensures
        unloads(prev, next, n).contains(ActionView::Unload(prev[j].name@)),
    decreases n,
{
    if j < n - 1 {
        lemma_gone_dir_unloaded(prev, next, n - 1, j);
        let rest = unloads(prev, next, n - 1);
        let k = choose|k: int| 0 <= k < rest.len() && rest[k] == ActionView::Unload(prev[j].name@);
        assert(unloads(prev, next, n)[k] == rest[k]);
    } else {
        let l = unloads(prev, next, n);
        assert(l[l.len() - 1] == ActionView::Unload(prev[j].name@));
    }
}

/// Every directory that appears is loaded fresh, and every Cell whose directory is
/// gone is unloaded.
pub proof fn changes_become_actions(prev: Seq<WatchedCell>, next: Seq<WatchedCell>)
    ensures
        forall|j: int|
            0 <= j < next.len() && dir_index(prev, (#[trigger] next[j]).dir@) < 0 ==> (loads(prev, next, next.len() as int)
                + unloads(prev, next, prev.len() as int)).contains(ActionView::Load(next[j].dir@, false)),
        forall|j: int|
            0 <= j < prev.len() && dir_index(next, (#[trigger] prev[j]).dir@) < 0 ==> (loads(prev, next, next.len() as int)
                + unloads(prev, next, prev.len() as int)).contains(ActionView::Unload(prev[j].name@)),
{
    let a = loads(prev, next, next.len() as int);
    let b = unloads(prev, next, prev.len() as int);
    assert forall|j: int| 0 <= j < next.len() && dir_index(prev, (#[trigger] next[j]).dir@) < 0 implies (a + b).contains(
        ActionView::Load(next[j].dir@, false),
    ) by {
        lemma_new_dir_loaded(prev, next, next.len() as int, j);
        let k = choose|k: int| 0 <= k < a.len() && a[k] == ActionView::Load(next[j].dir@, false);
        assert((a + b)[k] == a[k]);
    }
    assert forall|j: int| 0 <= j < prev.len() && dir_index(next, (#[trigger] prev[j]).dir@) < 0 implies (a + b).contains(
        ActionView::Unload(prev[j].name@),
    ) by {
        lemma_gone_dir_unloaded(prev, next, prev.len() as int, j);
        let k = choose|k: int| 0 <= k < b.len() && b[k] == ActionView::Unload(prev[j].name@);
        assert((a + b)[a.len() + k] == b[k]);
    }
}

/// Directories strictly ascend along a scan (the order of a map keyed by directory).
pub open spec fn dirs_sorted(cells: Seq<WatchedCell>) -> bool {
    forall|a: int, b: int|
        0 <= a < b < cells.len() ==> crate::text::text_lt((#[trigger] cells[a]).dir@, (#[trigger] cells[b]).dir@)
}

/// The directory a load action names.
pub open spec fn load_dir(a: ActionView) -> Seq<char> {
    match a {
        ActionView::Load(d, _) => d,
        ActionView::Unload(n) => n,
    }
}

proof fn lemma_loads_shape(prev: Seq<WatchedCell>, next: Seq<WatchedCell>, n: int)
    requires
        dirs_sorted(next),
        0 <= n <= next.len(),
    ensures
        forall|a: int|
            0 <= a < loads(prev, next, n).len() ==> exists|k: int|
                0 <= k < n && #[trigger] loads(prev, next, n)[a] == ActionView::Load(
                    next[k].dir@,
                    dir_index(prev, next[k].dir@) >= 0,
                ),
        forall|a: int, b: int|
            0 <= a < b < loads(prev, next, n).len() ==> crate::text::text_lt(
                load_dir(#[trigger] loads(prev, next, n)[a]),
                load_dir(#[trigger] loads(prev, next, n)[b]),
            ),
    decreases n,
{
    if n > 0 {
        lemma_loads_shape(prev, next, n - 1);
        let rest = loads(prev, next, n - 1);
        let l = loads(prev, next, n);
        assert forall|a: int| 0 <= a < rest.len() implies l[a] == rest[a] by {}
        assert forall|a: int| 0 <= a < l.len() implies exists|k: int|
            0 <= k < n && #[trigger] l[a] == ActionView::Load(next[k].dir@, dir_index(prev, next[k].dir@) >= 0) by {
            if a < rest.len() {
                let k = choose|k: int|
                    0 <= k < n - 1 && #[trigger] rest[a] == ActionView::Load(next[k].dir@, dir_index(prev, next[k].dir@) >= 0);
                assert(l[a] == ActionView::Load(next[k].dir@, dir_index(prev, next[k].dir@) >= 0));
            } else {
                assert(l[a] == ActionView::Load(next[n - 1].dir@, dir_index(prev, next[n - 1].dir@) >= 0));
            }
        }
        assert forall|a: int, b: int| 0 <= a < b < l.len() implies crate::text::text_lt(
            load_dir(#[trigger] l[a]),
            load_dir(#[trigger] l[b]),
        ) by {
            if b < rest.len() {
                assert(l[a] == rest[a] && l[b] == rest[b]);
            } else {
                let k = choose|k: int|
                    0 <= k < n - 1 && #[trigger] rest[a] == ActionView::Load(next[k].dir@, dir_index(prev, next[k].dir@) >= 0);
                assert(l[a] == rest[a]);
                assert(crate::text::text_lt(next[k].dir@, next[n - 1].dir@));
            }
        }
    }
}

/// With scans in directory order (as maps keyed by directory are), the loads come in
/// ascending directory order, and a load replaces exactly when the directory was
/// scanned before: `Load { dir, replace: prev has dir }`.
pub proof fn loads_in_directory_order(prev: Seq<WatchedCell>, next: Seq<WatchedCell>)
    requires
        dirs_sorted(next),
    ensures
        forall|a: int, b: int|
            0 <= a < b < loads(prev, next, next.len() as int).len() ==> crate::text::text_lt(
                load_dir(#[trigger] loads(prev, next, next.len() as int)[a]),
                load_dir(#[trigger] loads(prev, next, next.len() as int)[b]),
            ),
        forall|a: int|
            0 <= a < loads(prev, next, next.len() as int).len() ==> exists|k: int|
                0 <= k < next.len() && #[trigger] loads(prev, next, next.len() as int)[a] == ActionView::Load(
                    next[k].dir@,
                    dir_index(prev, next[k].dir@) >= 0,
                ),
{
    lemma_loads_shape(prev, next, next.len() as int);
}

/// A scan as a map from directory to the Cell first scanned there.
pub open spec fn scan_map(cells: Seq<WatchedCell>) -> Map<Seq<char>, WatchedCell> {
    Map::new(|d: Seq<char>| dir_index(cells, d) >= 0, |d: Seq<char>| cells[dir_index(cells, d)])
}

/// The loads for the first `n` Cells of `next` against the map `prev`: a directory
/// not in the map is loaded fresh; one whose Cell changed digest is reloaded.
pub open spec fn map_loads(prev: Map<Seq<char>, WatchedCell>, next: Seq<WatchedCell>, n: int) -> Seq<ActionView>
    decreases n,
{
    if n <= 0 || n > next.len() {
        Seq::empty()
    } else {
        let rest = map_loads(prev, next, n - 1);
        let c = next[n - 1];
        if !prev.contains_key(c.dir@) {
            rest.push(ActionView::Load(c.dir@, false))
        } else if prev[c.dir@].digest@ != c.digest@ {
            rest.push(ActionView::Load(c.dir@, prev.contains_key(c.dir@)))
        } else {
            rest
        }
    }
}

/// The unloads for the first `n` Cells of `prev` against the map `next`: a Cell
/// whose directory is not in the map is unloaded by name.
pub open spec fn map_unloads(prev: Seq<WatchedCell>, next: Map<Seq<char>, WatchedCell>, n: int) -> Seq<ActionView>
    decreases n,
{
    if n <= 0 || n > prev.len() {
        Seq::empty()
    } else {
        let rest = map_unloads(prev, next, n - 1);
        if !next.contains_key(prev[n - 1].dir@) {
            rest.push(ActionView::Unload(prev[n - 1].name@))
        } else {
            rest
        }
    }
}

proof fn lemma_map_forms(prev: Seq<WatchedCell>, next: Seq<WatchedCell>, n: int, m: int)
    requires
        0 <= n <= next.len(),
        0 <= m <= prev.len(),
    ensures
        loads(prev, next, n) == map_loads(scan_map(prev), next, n),
        unloads(prev, next, m) == map_unloads(prev, scan_map(next), m),
    decreases n + m,
{
    if n > 0 {
        lemma_map_forms(prev, next, n - 1, m);
        lemma_dir_index(prev, next[n - 1].dir@);
    }
    if m > 0 {
        lemma_map_forms(prev, next, n, m - 1);
        lemma_dir_index(next, prev[m - 1].dir@);
    }
}

/// The actions asked for are the difference of the two scans as maps from directory
/// to Cell, keys taken in the scans' order: each directory of `next` not in `prev`
/// is loaded fresh, each whose digest changed is reloaded (`replace` exactly when
/// `prev` has it), then each Cell of `prev` whose directory `next` lacks is
/// unloaded by name. A scan of distinct directories is exactly its map.
pub proof fn diff_is_map_difference(prev: Seq<WatchedCell>, next: Seq<WatchedCell>)
    ensures
        loads(prev, next, next.len() as int) + unloads(prev, next, prev.len() as int) == map_loads(
            scan_map(prev),
            next,
            next.len() as int,
        ) + map_unloads(prev, scan_map(next), prev.len() as int),
        dirs_unique(prev) ==> forall|j: int|
            0 <= j < prev.len() ==> scan_map(prev).contains_key((#[trigger] prev[j]).dir@) && scan_map(prev)[prev[j].dir@]
                == prev[j],
{
    lemma_map_forms(prev, next, next.len() as int, prev.len() as int);
    if dirs_unique(prev) {
        assert forall|j: int| 0 <= j < prev.len() implies scan_map(prev).contains_key((#[trigger] prev[j]).dir@)
            && scan_map(prev)[prev[j].dir@] == prev[j] by {
            lemma_dir_index(prev, prev[j].dir@);
            let k = dir_index(prev, prev[j].dir@);
            if k != j {
                if k < j {
                    assert(prev[k].dir@ == prev[j].dir@);
                } else {
                    assert(prev[j].dir@ != prev[j].dir@);
                }
            }
        }
    }
}

fn find_dir(cells: &[WatchedCell], dir: &str) -> (r: Option<usize>)
    ensures
        match r {
            Some(i) => i as int == dir_index(cells@, dir@) && i < cells@.len(),
            None => dir_index(cells@, dir@) < 0,
        },
{
    proof {
        lemma_dir_index(cells@, dir@);
    }
    let mut i: usize = 0;
    while i < cells.len()
        invariant
            i <= cells@.len(),
            forall|j: int| 0 <= j < i ==> (#[trigger] cells@[j]).dir@ != dir@,
            -1 <= dir_index(cells@, dir@) < cells@.len(),
            dir_index(cells@, dir@) >= 0 ==> cells@[dir_index(cells@, dir@)].dir@ == dir@ && forall|j: int|
                0 <= j < dir_index(cells@, dir@) ==> (#[trigger] cells@[j]).dir@ != dir@,
            dir_index(cells@, dir@) < 0 ==> forall|j: int| 0 <= j < cells@.len() ==> (#[trigger] cells@[j]).dir@ != dir@,
        decreases cells@.len() - i,
    {
        if same_text(cells[i].dir.as_str(), dir) {
            return Some(i);
        }
        i = i + 1;
    }
    None
}

/// The actions that take the Host from scan `prev` to scan `next`: loads and
/// reloads in `next`'s order, then unloads in `prev`'s order.
pub fn diff_watch(prev: &[WatchedCell], next: &[WatchedCell]) -> (r: Vec<WatchAction>)
    ensures
        action_views(r@) == loads(prev@, next@, next@.len() as int) + unloads(prev@, next@, prev@.len() as int),
{
    let mut actions: Vec<WatchAction> = Vec::new();
    let mut i: usize = 0;
    while i < next.len()
        invariant
            i <= next@.len(),
            action_views(actions@) == loads(prev@, next@, i as int),
        decreases next@.len() - i,
    {
        let c = &next[i];
        let ghost before = actions@;
        match find_dir(prev, c.dir.as_str()) {
            None => {
                actions.push(WatchAction::Load { dir: c.dir.clone(), replace: false });
            },
            Some(k) => {
                if !same_text(prev[k].digest.as_str(), c.digest.as_str()) {
                    actions.push(WatchAction::Load { dir: c.dir.clone(), replace: true });
                }
            },
        }
        proof {
            assert(action_views(actions@) =~= loads(prev@, next@, i + 1));
        }
        i = i + 1;
    }
    let ghost mid = actions@;
    let mut j: usize = 0;
    while j < prev.len()
        invariant
            j <= prev@.len(),
            actions@.len() >= mid.len(),
            action_views(mid) == loads(prev@, next@, next@.len() as int),
            action_views(actions@) == action_views(mid) + unloads(prev@, next@, j as int),
        decreases prev@.len() - j,
    {
        let c = &prev[j];
        let ghost before = actions@;
        match find_dir(next, c.dir.as_str()) {
            None => {
                let a = WatchAction::Unload { name: c.name.clone() };
                actions.push(a);
                proof {
                    assert(action_views(actions@) =~= action_views(before).push(ActionView::Unload(c.name@)));
                    assert(unloads(prev@, next@, j + 1) == unloads(prev@, next@, j as int).push(ActionView::Unload(c.name@)));
                }
            },
            Some(_) => {
                proof {
                    assert(unloads(prev@, next@, j + 1) == unloads(prev@, next@, j as int));
                }
            },
        }
        proof {
            assert(action_views(actions@) =~= action_views(mid) + unloads(prev@, next@, j + 1));
        }
        j = j + 1;
    }
    actions
}

/// The control request for one action.
pub fn watch_request(action: &WatchAction) -> (r: ControlRequest)
    ensures
        match action_view(*action) {
            ActionView::Load(dir, replace) => r.op@ == "load"@ && (r.path matches Some(p) && p@ == dir)
                && r.replace == replace,
            ActionView::Unload(name) => r.op@ == "unload"@ && (r.cell matches Some(c) && c@ == name),
        },
        r.schema@ == crate::control::control_schema(),
{
    match action {
        WatchAction::Load { dir, replace } => ControlRequest::load(dir.clone(), *replace),
        WatchAction::Unload { name } => ControlRequest::unload(name.clone()),
    }
}

/// The requests a watcher sends for `actions`: each action's request, followed by
/// an applying `auto_bind` after every load when `auto_bind` is on.
pub fn watch_requests(actions: &[WatchAction], auto_bind: bool) -> (r: Vec<ControlRequest>)
    ensures
        r@.len() == actions@.len() + if auto_bind { load_count(actions@) } else { 0 },
{
    let mut out: Vec<ControlRequest> = Vec::new();
    let mut i: usize = 0;
    while i < actions.len()
        invariant
            i <= actions@.len(),
            out@.len() == i + if auto_bind { load_count(actions@.take(i as int)) } else { 0 },
        decreases actions@.len() - i,
    {
        let a = &actions[i];
        out.push(watch_request(a));
        proof {
            assert(actions@.take(i + 1).drop_last() =~= actions@.take(i as int));
        }
        if auto_bind && matches!(a, WatchAction::Load { .. }) {
            out.push(ControlRequest::auto_bind(true));
        }
        i = i + 1;
    }
    assert(actions@.take(actions@.len() as int) =~= actions@);
    out
}

/// How many actions are loads.
pub open spec fn load_count(s: Seq<WatchAction>) -> nat
    decreases s.len(),
{
    if s.len() == 0 {
        0
    } else {
        load_count(s.drop_last()) + if s.last() is Load { 1nat } else { 0nat }
    }
}

/// What an answer to a watch request amounts to: success, or the answer's error
/// (a generic one when it gave none).
pub fn settle_watch_reply(resp: &ControlResponse) -> (r: Result<()>)
    ensures
        resp.ok ==> r is Ok,
        !resp.ok ==> (r matches Err(e) && is_validation(
            e,
            match resp.error {
                Some(m) => m@,
                None => "watch action failed"@,
            },
        )),
{
    if resp.ok {
        return Ok(());
    }
    match &resp.error {
        Some(m) => Err(Error::Validation(m.clone())),
        None => Err(Error::Validation(owned("watch action failed"))),
    }
}

/// Sends a control request and returns the answer.
pub trait ControlClient {
    fn call(&self, req: ControlRequest) -> Result<ControlResponse>;
}

/// `r` is the control request for `action`.
pub open spec fn is_watch_request(action: WatchAction, r: ControlRequest) -> bool {
    &&& match action_view(action) {
        ActionView::Load(dir, replace) => r.op@ == "load"@ && (r.path matches Some(p) && p@ == dir) && r.replace == replace,
        ActionView::Unload(name) => r.op@ == "unload"@ && (r.cell matches Some(c) && c@ == name),
    }
    &&& r.schema@ == crate::control::control_schema()
}

/// What to do after an answer: send the next request, or finish with a result.
pub enum WatchNext {
    Send(ControlRequest),
    Finish(Result<()>),
}

/// The step after the answer to the request for `actions[answered]`: a failed send
/// finishes with its error, an error answer with a validation error carrying its
/// text (a generic one when it gave none); otherwise the next action's request is
/// sent, or, after the last, the run finishes with success.
pub fn watch_step(actions: &[WatchAction], answered: usize, answer: Result<ControlResponse>) -> (r: WatchNext)
    requires
        answered < actions@.len(),
    ensures
        match answer {
            Err(e) => r == WatchNext::Finish(Err(e)),
            Ok(resp) => {
                &&& !resp.ok ==> (r matches WatchNext::Finish(Err(e)) && is_validation(
                    e,
                    match resp.error {
                        Some(m) => m@,
                        None => "watch action failed"@,
                    },
                ))
                &&& resp.ok && answered + 1 < actions@.len() ==> (r matches WatchNext::Send(q) && is_watch_request(
                    actions@[answered + 1],
                    q,
                ))
                &&& resp.ok && answered + 1 == actions@.len() ==> r == WatchNext::Finish(Ok(()))
            },
        },
{
    match answer {
        Err(e) => WatchNext::Finish(Err(e)),
        Ok(resp) => match settle_watch_reply(&resp) {
            Err(e) => WatchNext::Finish(Err(e)),
            Ok(()) => {
                let n = actions.len();
                if answered < n - 1 {
                    WatchNext::Send(watch_request(&actions[answered + 1]))
                } else {
                    WatchNext::Finish(Ok(()))
                }
            },
        },
    }
}

/// The outcome of sending the requests of `actions` from position `i` on, when the
/// answers received are `answers`: a failed send ends with its error, an error
/// answer with a validation error carrying its text (a generic one when it gave
/// none); after the last action answered well, success. Every action sent has an
/// answer.
pub open spec fn watch_run(actions: Seq<WatchAction>, answers: Seq<Result<ControlResponse>>, i: int, r: Result<()>) -> bool
    decreases actions.len() - i,
{
    if i >= actions.len() {
        r is Ok
    } else if i < 0 || i >= answers.len() {
        false
    } else {
        match answers[i] {
            Err(e) => r == Err::<(), Error>(e) && answers.len() == i + 1,
            Ok(resp) => if !resp.ok {
                answers.len() == i + 1 && (r matches Err(e) && is_validation(
                    e,
                    match resp.error {
                        Some(m) => m@,
                        None => "watch action failed"@,
                    },
                ))
            } else {
                watch_run(actions, answers, i + 1, r)
            },
        }
    }
}

/// A good answer: sent, and answered without error.
pub open spec fn answered_ok(a: Result<ControlResponse>) -> bool {
    a matches Ok(resp) && resp.ok
}

proof fn lemma_watch_run_skip(actions: Seq<WatchAction>, answers: Seq<Result<ControlResponse>>, j: int, i: int, r: Result<()>)
    requires
        0 <= j <= i <= actions.len(),
        i <= answers.len(),
        forall|k: int| j <= k < i ==> answered_ok(#[trigger] answers[k]),
        watch_run(actions, answers, i, r),
    ensures
        watch_run(actions, answers, j, r),
    decreases i - j,
{
    if j < i {
        lemma_watch_run_skip(actions, answers, j + 1, i, r);
        assert(answered_ok(answers[j]));
    }
}

/// Sends each action's request in order, stopping at the first that fails to be
/// sent or is answered with an error; each step is decided by `watch_step`. The
/// requests sent are the actions' requests, first to last, and the result is what
/// `watch_run` says of the answers received.
pub fn apply_watch_actions(client: &dyn ControlClient, actions: &[WatchAction]) -> (r: Result<()>)
    ensures
        actions@.len() == 0 ==> r is Ok,
        exists|sent: Seq<ControlRequest>, answers: Seq<Result<ControlResponse>>|
            #![trigger watch_run(actions@, answers, 0, r), sent.len()]
            sent.len() == answers.len() && answers.len() <= actions@.len() && (forall|k: int|
                0 <= k < sent.len() ==> is_watch_request(actions@[k], #[trigger] sent[k])) && watch_run(
                actions@,
                answers,
                0,
                r,
            ),
{
    if actions.len() == 0 {
        proof {
            assert(watch_run(actions@, Seq::empty(), 0, Ok(())));
            assert(Seq::<ControlRequest>::empty().len() == 0);
        }
        return Ok(());
    }
    let n = actions.len();
    let mut req = watch_request(&actions[0]);
    let ghost mut sent: Seq<ControlRequest> = Seq::empty();
    let ghost mut answers: Seq<Result<ControlResponse>> = Seq::empty();
    let mut i: usize = 0;
    loop
        invariant
            n == actions@.len(),
            i < n,
            is_watch_request(actions@[i as int], req),
            sent.len() == i,
            answers.len() == i,
            forall|k: int| 0 <= k < i ==> is_watch_request(actions@[k], #[trigger] sent[k]),
            forall|k: int| 0 <= k < i ==> answered_ok(#[trigger] answers[k]),
        decreases actions@.len() - i,
    {
        let ghost this_req = req;
        let answer = client.call(req);
        let ghost a = answer;
        let step = watch_step(actions, i, answer);
        proof {
            let s0 = sent;
            let a0 = answers;
            sent = sent.push(this_req);
            answers = answers.push(a);
            assert forall|k: int| 0 <= k < i implies sent[k] == s0[k] && answers[k] == a0[k] by {}
        }
        match step {
            WatchNext::Send(q) => {
                req = q;
                i = i + 1;
            },
            WatchNext::Finish(r) => {
                proof {
                    assert(watch_run(actions@, answers, i as int, r)) by {
                        if answered_ok(a) {
                            assert(watch_run(actions@, answers, i + 1, r));
                        }
                    }
                    lemma_watch_run_skip(actions@, answers, 0, i as int, r);
                    assert forall|k: int| 0 <= k < sent.len() implies is_watch_request(actions@[k], #[trigger] sent[k]) by {
                        if k == i {
                            assert(sent[k] == this_req);
                        }
                    }
                    assert(sent.len() == answers.len() && answers.len() <= actions@.len());
                }
                return r;
            },
        }
    }
}

/// Whether this build reacts to file-system events: it polls instead.
pub fn notify_feature_enabled() -> (r: bool)
    ensures
        !r,
{
    false
}

} // verus!
