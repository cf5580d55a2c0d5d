//! The policy gate: which permissions a Cell may have, and the admission decision.

use vstd::prelude::*;

use crate::error::{Error, Result};
use crate::manifest::cell::{CellManifest, FsGrant, FsMode};
use crate::text::{chars_of, eq_ignore_case, join2, join3, lower_chars, lower_seq, owned, string_of};

verus! {

/// Grants held by a Host. With `default_allow` unset, a Cell is admitted only when
/// every permission it asks for is granted.
#[derive(Debug, Clone)]
pub struct PolicyGate {
    /// When false (default), only explicitly granted permissions are allowed.
    pub default_allow: bool,
    pub granted_network: Vec<String>,
    pub granted_process: Vec<String>,
    pub granted_secrets: Vec<String>,
    pub granted_peers: Vec<String>,
    pub granted_filesystem: Vec<String>,
}

impl Default for PolicyGate {
    fn default() -> (r: Self)
        ensures
            !r.default_allow,
            r.granted_network@.len() == 0,
            r.granted_process@.len() == 0,
            r.granted_secrets@.len() == 0,
            r.granted_peers@.len() == 0,
            r.granted_filesystem@.len() == 0,
    {
        PolicyGate {
            default_allow: false,
            granted_network: Vec::new(),
            granted_process: Vec::new(),
            granted_secrets: Vec::new(),
            granted_peers: Vec::new(),
            granted_filesystem: Vec::new(),
        }
    }
}

/// Outcome of admission, with the reasons.
#[derive(Debug, Clone)]
pub struct AdmissionDecision {
    pub admitted: bool,
    pub reasons: Vec<String>,
}

/// The views of a list of strings.
pub open spec fn texts(v: Seq<String>) -> Seq<Seq<char>> {
    v.map_values(|s: String| s@)
}

/// `x` is granted by the list: listed as is, or `*` is listed.
pub open spec fn covered(granted: Seq<Seq<char>>, x: Seq<char>) -> bool {
    exists|j: int| 0 <= j < granted.len() && (granted[j] == x || granted[j] == "*"@)
}

/// The requested entries the grants do not cover, each with `prefix` in front.
pub open spec fn denied_in(
    requested: Seq<Seq<char>>,
    granted: Seq<Seq<char>>,
    prefix: Seq<char>,
) -> Seq<Seq<char>>
    decreases requested.len(),
{
    if requested.len() == 0 {
        Seq::empty()
    } else {
        let rest = denied_in(requested.drop_last(), granted, prefix);
        if covered(granted, requested.last()) {
            rest
        } else {
            rest.push(prefix + requested.last())
        }
    }
}

/// `Ro` or `Rw`, as `{:?}` prints a mode.
pub open spec fn mode_name(m: FsMode) -> Seq<char> {
    match m {
        FsMode::Ro => "Ro"@,
        FsMode::Rw => "Rw"@,
    }
}

/// `path:Mode` for a filesystem grant.
pub open spec fn fs_label(g: FsGrant) -> Seq<char> {
    g.path@ + ":"@ + mode_name(g.mode)
}

/// A filesystem request is granted by `*`, by its path, or by `path:mode` in any case.
pub open spec fn fs_covered(granted: Seq<Seq<char>>, g: FsGrant) -> bool {
    exists|j: int|
        0 <= j < granted.len() && (granted[j] == "*"@ || lower_seq(granted[j]) == lower_seq(
            fs_label(g),
        ) || granted[j] == g.path@)
}

/// Filesystem requests not granted, as `filesystem:path:mode` in lower case.
pub open spec fn fs_denied(requested: Seq<FsGrant>, granted: Seq<Seq<char>>) -> Seq<Seq<char>>
    decreases requested.len(),
{
    if requested.len() == 0 {
        Seq::empty()
    } else {
        let rest = fs_denied(requested.drop_last(), granted);
        if fs_covered(granted, requested.last()) {
            rest
        } else {
            rest.push("filesystem:"@ + lower_seq(fs_label(requested.last())))
        }
    }
}

/// Everything `cell` asks for that `gate` does not grant, in the order admission lists it.
pub open spec fn denied_list(gate: PolicyGate, cell: CellManifest) -> Seq<Seq<char>> {
    let p = cell.spec.permissions;
    denied_in(texts(p.network@), texts(gate.granted_network@), "network:"@) + denied_in(
        texts(p.process@),
        texts(gate.granted_process@),
        "process:"@,
    ) + denied_in(texts(p.secrets@), texts(gate.granted_secrets@), "secret:"@) + denied_in(
        texts(p.peers@),
        texts(gate.granted_peers@),
        "peer:"@,
    ) + fs_denied(p.filesystem@, texts(gate.granted_filesystem@))
}

/// `items` joined with `sep` between them.
pub open spec fn joined(items: Seq<Seq<char>>, sep: Seq<char>) -> Seq<char>
    decreases items.len(),
{
    if items.len() == 0 {
        Seq::empty()
    } else if items.len() == 1 {
        items[0]
    } else {
        joined(items.drop_last(), sep) + sep + items.last()
    }
}

/// Whether `x` is granted by `granted`.
fn is_covered(granted: &Vec<String>, x: &String) -> (r: bool)
    ensures
        r == covered(texts(granted@), x@),
{
    let star = owned("*");
    let mut j: usize = 0;
    while j < granted.len()
        invariant
            j <= granted@.len(),
            star@ == "*"@,
            forall|t: int| 0 <= t < j ==> !(granted@[t]@ == x@ || granted@[t]@ == "*"@),
        decreases granted@.len() - j,
    {
        if granted[j] == *x || granted[j] == star {
            assert(texts(granted@)[j as int] == granted@[j as int]@);
            return true;
        }
        j = j + 1;
    }
    proof {
        if covered(texts(granted@), x@) {
            let t = choose|t: int|
                0 <= t < texts(granted@).len() && (texts(granted@)[t] == x@ || texts(granted@)[t]
                    == "*"@);
            assert(texts(granted@)[t] == granted@[t]@);
        }
    }
    false
}

/// Appends the uncovered requests of `requested`, prefixed, to `out`.
fn push_denied(out: &mut Vec<String>, requested: &Vec<String>, granted: &Vec<String>, prefix: &str)
    ensures
        texts(final(out)@) == texts(old(out)@) + denied_in(texts(requested@), texts(granted@), prefix@),
{
    let mut i: usize = 0;
    while i < requested.len()
        invariant
            i <= requested@.len(),
            texts(out@) == texts(old(out)@) + denied_in(
                texts(requested@.take(i as int)),
                texts(granted@),
                prefix@,
            ),
        decreases requested@.len() - i,
    {
        let ghost before = out@;
        let item = &requested[i];
        let ok = is_covered(granted, item);
        proof {
            let t = texts(requested@.take(i + 1));
            assert(t.drop_last() =~= texts(requested@.take(i as int)));
            assert(t.last() == requested@[i as int]@);
        }
        if !ok {
            out.push(join2(prefix, item.as_str()));
            assert(texts(out@) =~= texts(before).push(prefix@ + item@));
        } else {
            assert(texts(out@) =~= texts(before));
        }
        i = i + 1;
    }
    assert(requested@.take(requested@.len() as int) =~= requested@);
}

/// The mode's name, as `{:?}` prints it.
pub fn mode_text(m: FsMode) -> (r: &'static str)
    ensures
        r@ == mode_name(m),
{
    match m {
        FsMode::Ro => "Ro",
        FsMode::Rw => "Rw",
    }
}

/// Whether a filesystem request is granted.
fn fs_is_covered(granted: &Vec<String>, g: &FsGrant) -> (r: bool)
    ensures
        r == fs_covered(texts(granted@), *g),
{
    let label = chars_of(join3(g.path.as_str(), ":", mode_text(g.mode)).as_str());
    let star = owned("*");
    let mut j: usize = 0;
    while j < granted.len()
        invariant
            j <= granted@.len(),
            star@ == "*"@,
            label@ == fs_label(*g),
            forall|t: int|
                0 <= t < j ==> !(granted@[t]@ == "*"@ || lower_seq(granted@[t]@) == lower_seq(
                    fs_label(*g),
                ) || granted@[t]@ == g.path@),
        decreases granted@.len() - j,
    {
        let gj = chars_of(granted[j].as_str());
        if granted[j] == star || eq_ignore_case(&gj, &label) || granted[j] == g.path {
            assert(texts(granted@)[j as int] == granted@[j as int]@);
            return true;
        }
        j = j + 1;
    }
    proof {
        if fs_covered(texts(granted@), *g) {
            let t = choose|t: int|
                0 <= t < texts(granted@).len() && (texts(granted@)[t] == "*"@ || lower_seq(
                    texts(granted@)[t],
                ) == lower_seq(fs_label(*g)) || texts(granted@)[t] == g.path@);
            assert(texts(granted@)[t] == granted@[t]@);
        }
    }
    false
}

/// Appends the uncovered filesystem requests to `out`.
fn push_fs_denied(out: &mut Vec<String>, requested: &Vec<FsGrant>, granted: &Vec<String>)
    ensures
        texts(final(out)@) == texts(old(out)@) + fs_denied(requested@, texts(granted@)),
{
    let mut i: usize = 0;
    while i < requested.len()
        invariant
            i <= requested@.len(),
            texts(out@) == texts(old(out)@) + fs_denied(requested@.take(i as int), texts(granted@)),
        decreases requested@.len() - i,
    {
        let ghost before = out@;
        let g = &requested[i];
        let ok = fs_is_covered(granted, g);
        proof {
            let t = requested@.take(i + 1);
            assert(t.drop_last() =~= requested@.take(i as int));
            assert(t.last() == requested@[i as int]);
        }
        if !ok {
            let label = chars_of(join3(g.path.as_str(), ":", mode_text(g.mode)).as_str());
            let low = lower_chars(&label);
            let key = string_of(low.as_slice());
            out.push(join2("filesystem:", key.as_str()));
            assert(texts(out@) =~= texts(before).push("filesystem:"@ + lower_seq(fs_label(*g))));
        } else {
            assert(texts(out@) =~= texts(before));
        }
        i = i + 1;
    }
    assert(requested@.take(requested@.len() as int) =~= requested@);
}

/// `items` joined with `sep`.
pub fn join_all(items: &Vec<String>, sep: &str) -> (r: String)
    ensures
        r@ == joined(texts(items@), sep@),
{
    let mut r = String::new();
    let mut i: usize = 0;
    assert(texts(items@.take(0)) =~= Seq::<Seq<char>>::empty());
    while i < items.len()
        invariant
            i <= items@.len(),
            r@ == joined(texts(items@.take(i as int)), sep@),
        decreases items@.len() - i,
    {
        proof {
            let t = texts(items@.take(i + 1));
            assert(t.drop_last() =~= texts(items@.take(i as int)));
            assert(t.last() == items@[i as int]@);
            if i == 0 {
                assert(t.len() == 1);
            }
        }
        if i > 0 {
            r.append(sep);
        }
        r.append(items[i].as_str());
        i = i + 1;
    }
    assert(items@.take(items@.len() as int) =~= items@);
    r
}

/// Adds `value` unless it is already listed.
pub fn push_unique(list: &mut Vec<String>, value: String)
    ensures
        texts(old(list)@).contains(value@) ==> final(list)@ == old(list)@,
        !texts(old(list)@).contains(value@) ==> final(list)@ == old(list)@.push(value),
{
    let mut j: usize = 0;
    while j < list.len()
        invariant
            j <= list@.len(),
            forall|t: int| 0 <= t < j ==> list@[t]@ != value@,
        decreases list@.len() - j,
    {
        if list[j] == value {
            assert(texts(list@)[j as int] == value@);
            return;
        }
        j = j + 1;
    }
    proof {
        if texts(list@).contains(value@) {
            let t = choose|t: int| 0 <= t < texts(list@).len() && texts(list@)[t] == value@;
            assert(texts(list@)[t] == list@[t]@);
        }
    }
    list.push(value);
}

/// `list` after granting each of `gs` in turn, without duplicates.
pub open spec fn with_all(list: Seq<Seq<char>>, gs: Seq<Seq<char>>) -> Seq<Seq<char>>
    decreases gs.len(),
{
    if gs.len() == 0 {
        list
    } else {
        with_unique(with_all(list, gs.drop_last()), gs.last())
    }
}

/// Adds each of `items` to `list` unless already there.
pub fn push_all_unique(list: &mut Vec<String>, items: &Vec<String>)
    ensures
        texts(final(list)@) == with_all(texts(old(list)@), texts(items@)),
{
    let mut i: usize = 0;
    assert(items@.take(0) =~= Seq::<String>::empty());
    while i < items.len()
        invariant
            i <= items@.len(),
            texts(list@) == with_all(texts(old(list)@), texts(items@.take(i as int))),
        decreases items@.len() - i,
    {
        let ghost before = texts(list@);
        push_unique(list, items[i].clone());
        proof {
            assert(texts(items@.take(i + 1)).drop_last() =~= texts(items@.take(i as int)));
            assert(texts(items@.take(i + 1)).last() == items@[i as int]@);
            if before.contains(items@[i as int]@) {
                assert(texts(list@) == before);
            } else {
                assert(texts(list@) =~= before.push(items@[i as int]@));
            }
        }
        i = i + 1;
    }
    assert(items@.take(items@.len() as int) =~= items@);
}

/// Removes every entry equal to `target`.
pub fn remove_all(list: &mut Vec<String>, target: &str)
    ensures
        texts(final(list)@) == texts(old(list)@).filter(|g: Seq<char>| g != target@),
{
    let mut old_list: Vec<String> = Vec::new();
    core::mem::swap(list, &mut old_list);
    let mut i: usize = 0;
    while i < old_list.len()
        invariant
            i <= old_list@.len(),
            texts(list@) == texts(old_list@.take(i as int)).filter(|g: Seq<char>| g != target@),
        decreases old_list@.len() - i,
    {
        let ghost before = list@;
        let keep = !crate::text::same_text(old_list[i].as_str(), target);
        proof {
            let t = texts(old_list@.take(i + 1));
            assert(t.drop_last() =~= texts(old_list@.take(i as int)));
            assert(t.last() == old_list@[i as int]@);
            reveal_with_fuel(Seq::filter, 1);
        }
        if keep {
            list.push(old_list[i].clone());
            assert(texts(list@) =~= texts(before).push(old_list@[i as int]@));
        } else {
            assert(texts(list@) =~= texts(before));
        }
        i = i + 1;
    }
    assert(old_list@.take(old_list@.len() as int) =~= old_list@);
}

impl PolicyGate {
    /// Admission of `cell`. With `default_allow` every Cell is admitted. Otherwise the
    /// Cell is admitted exactly when nothing it asks for is left ungranted; when
    /// something is, the error names the Cell and lists every missing grant.
    pub fn admit_cell(&self, cell: &CellManifest) -> (r: Result<AdmissionDecision>)
        ensures
            self.default_allow ==> (r matches Ok(d) && d.admitted && texts(d.reasons@) == seq![
                "defaultAllow=true"@,
            ]),
            !self.default_allow && denied_list(*self, *cell).len() == 0 ==> (r matches Ok(d)
                && d.admitted && texts(d.reasons@) == seq![
                "all requested permissions empty or granted"@,
            ]),
            !self.default_allow && denied_list(*self, *cell).len() > 0 ==> (r matches Err(e) && e
                matches Error::PolicyDenied(m) && m@ == "cell `"@ + cell.metadata.name@
                + "` needs approval for: "@ + joined(denied_list(*self, *cell), ", "@)),
            (forall|x: Seq<char>|
                #[trigger] texts(cell.spec.permissions.network@).contains(x) ==> texts(self.granted_network@).contains(x)
                    || texts(self.granted_network@).contains("*"@)) && (forall|x: Seq<char>|
                #[trigger] texts(cell.spec.permissions.process@).contains(x) ==> texts(self.granted_process@).contains(x)
                    || texts(self.granted_process@).contains("*"@)) && (forall|x: Seq<char>|
                #[trigger] texts(cell.spec.permissions.secrets@).contains(x) ==> texts(self.granted_secrets@).contains(x)
                    || texts(self.granted_secrets@).contains("*"@)) && (forall|x: Seq<char>|
                #[trigger] texts(cell.spec.permissions.peers@).contains(x) ==> texts(self.granted_peers@).contains(x)
                    || texts(self.granted_peers@).contains("*"@)) && (forall|k: int|
                0 <= k < cell.spec.permissions.filesystem@.len() ==> texts(self.granted_filesystem@).contains("*"@)
                    || texts(self.granted_filesystem@).contains(
                    (#[trigger] cell.spec.permissions.filesystem@[k]).path@,
                )) ==> (r matches Ok(d) && d.admitted),
            !self.default_allow && (exists|x: Seq<char>|
                #[trigger] texts(cell.spec.permissions.network@).contains(x) && !texts(self.granted_network@).contains(x)
                    && !texts(self.granted_network@).contains("*"@)) ==> r is Err,
            !self.default_allow && (exists|x: Seq<char>|
                #[trigger] texts(cell.spec.permissions.process@).contains(x) && !texts(self.granted_process@).contains(x)
                    && !texts(self.granted_process@).contains("*"@)) ==> r is Err,
            !self.default_allow && (exists|x: Seq<char>|
                #[trigger] texts(cell.spec.permissions.secrets@).contains(x) && !texts(self.granted_secrets@).contains(x)
                    && !texts(self.granted_secrets@).contains("*"@)) ==> r is Err,
            !self.default_allow && (exists|x: Seq<char>|
                #[trigger] texts(cell.spec.permissions.peers@).contains(x) && !texts(self.granted_peers@).contains(x)
                    && !texts(self.granted_peers@).contains("*"@)) ==> r is Err,
    {
        proof {
            grants_decide_admission(*self, *cell);
        }
        if self.default_allow {
            let mut reasons = Vec::new();
            reasons.push(owned("defaultAllow=true"));
            assert(texts(reasons@) =~= seq!["defaultAllow=true"@]);
            return Ok(AdmissionDecision { admitted: true, reasons });
        }
        let p = &cell.spec.permissions;
        let mut denied: Vec<String> = Vec::new();
        assert(texts(denied@) =~= Seq::<Seq<char>>::empty());
        push_denied(&mut denied, &p.network, &self.granted_network, "network:");
        push_denied(&mut denied, &p.process, &self.granted_process, "process:");
        push_denied(&mut denied, &p.secrets, &self.granted_secrets, "secret:");
        push_denied(&mut denied, &p.peers, &self.granted_peers, "peer:");
        push_fs_denied(&mut denied, &p.filesystem, &self.granted_filesystem);
        assert(texts(denied@) =~= denied_list(*self, *cell));
        if denied.len() == 0 {
            let mut reasons = Vec::new();
            reasons.push(owned("all requested permissions empty or granted"));
            assert(texts(reasons@) =~= seq!["all requested permissions empty or granted"@]);
            Ok(AdmissionDecision { admitted: true, reasons })
        } else {
            let list = join_all(&denied, ", ");
            Err(
                Error::PolicyDenied(
                    join4p("cell `", cell.metadata.name.as_str(), "` needs approval for: ", list.as_str()),
                ),
            )
        }
    }

    /// Grants network access to `target` (no duplicates).
    pub fn grant_network(&mut self, target: String)
        ensures
            texts(final(self).granted_network@) == with_unique(texts(old(self).granted_network@), target@),
            final(self).default_allow == old(self).default_allow,
            final(self).granted_process == old(self).granted_process,
            final(self).granted_secrets == old(self).granted_secrets,
            final(self).granted_peers == old(self).granted_peers,
            final(self).granted_filesystem == old(self).granted_filesystem,
    {
        push_unique(&mut self.granted_network, target);
    }

    /// Grants running `target` (no duplicates).
    pub fn grant_process(&mut self, target: String)
        ensures
            texts(final(self).granted_process@) == with_unique(texts(old(self).granted_process@), target@),
            final(self).default_allow == old(self).default_allow,
            final(self).granted_network == old(self).granted_network,
            final(self).granted_secrets == old(self).granted_secrets,
            final(self).granted_peers == old(self).granted_peers,
            final(self).granted_filesystem == old(self).granted_filesystem,
    {
        push_unique(&mut self.granted_process, target);
    }

    /// Grants the secret `target` (no duplicates).
    pub fn grant_secret(&mut self, target: String)
        ensures
            texts(final(self).granted_secrets@) == with_unique(texts(old(self).granted_secrets@), target@),
            final(self).default_allow == old(self).default_allow,
            final(self).granted_network == old(self).granted_network,
            final(self).granted_process == old(self).granted_process,
            final(self).granted_peers == old(self).granted_peers,
            final(self).granted_filesystem == old(self).granted_filesystem,
    {
        push_unique(&mut self.granted_secrets, target);
    }

    /// Grants talking to the peer `target` (no duplicates).
    pub fn grant_peer(&mut self, target: String)
        ensures
            texts(final(self).granted_peers@) == with_unique(texts(old(self).granted_peers@), target@),
            final(self).default_allow == old(self).default_allow,
            final(self).granted_network == old(self).granted_network,
            final(self).granted_process == old(self).granted_process,
            final(self).granted_secrets == old(self).granted_secrets,
            final(self).granted_filesystem == old(self).granted_filesystem,
    {
        push_unique(&mut self.granted_peers, target);
    }

    /// Grants filesystem access `target` (no duplicates).
    pub fn grant_filesystem(&mut self, target: String)
        ensures
            texts(final(self).granted_filesystem@) == with_unique(texts(old(self).granted_filesystem@), target@),
            final(self).default_allow == old(self).default_allow,
            final(self).granted_network == old(self).granted_network,
            final(self).granted_process == old(self).granted_process,
            final(self).granted_secrets == old(self).granted_secrets,
            final(self).granted_peers == old(self).granted_peers,
    {
        push_unique(&mut self.granted_filesystem, target);
    }

    /// Revokes every network grant equal to `target`.
    pub fn revoke_network(&mut self, target: &str)
        ensures
            texts(final(self).granted_network@) == texts(old(self).granted_network@).filter(|g: Seq<char>| g != target@),
            final(self).default_allow == old(self).default_allow,
            final(self).granted_process == old(self).granted_process,
            final(self).granted_secrets == old(self).granted_secrets,
            final(self).granted_peers == old(self).granted_peers,
            final(self).granted_filesystem == old(self).granted_filesystem,
    {
        remove_all(&mut self.granted_network, target);
    }

    /// Revokes every process grant equal to `target`.
    pub fn revoke_process(&mut self, target: &str)
        ensures
            texts(final(self).granted_process@) == texts(old(self).granted_process@).filter(|g: Seq<char>| g != target@),
            final(self).default_allow == old(self).default_allow,
            final(self).granted_network == old(self).granted_network,
            final(self).granted_secrets == old(self).granted_secrets,
            final(self).granted_peers == old(self).granted_peers,
            final(self).granted_filesystem == old(self).granted_filesystem,
    {
        remove_all(&mut self.granted_process, target);
    }

    /// Revokes every secret grant equal to `target`.
    pub fn revoke_secret(&mut self, target: &str)
        ensures
            texts(final(self).granted_secrets@) == texts(old(self).granted_secrets@).filter(|g: Seq<char>| g != target@),
            final(self).default_allow == old(self).default_allow,
            final(self).granted_network == old(self).granted_network,
            final(self).granted_process == old(self).granted_process,
            final(self).granted_peers == old(self).granted_peers,
            final(self).granted_filesystem == old(self).granted_filesystem,
    {
        remove_all(&mut self.granted_secrets, target);
    }

    /// Revokes every peer grant equal to `target`.
    pub fn revoke_peer(&mut self, target: &str)
        ensures
            texts(final(self).granted_peers@) == texts(old(self).granted_peers@).filter(|g: Seq<char>| g != target@),
            final(self).default_allow == old(self).default_allow,
            final(self).granted_network == old(self).granted_network,
            final(self).granted_process == old(self).granted_process,
            final(self).granted_secrets == old(self).granted_secrets,
            final(self).granted_filesystem == old(self).granted_filesystem,
    {
        remove_all(&mut self.granted_peers, target);
    }

    /// Revokes every filesystem grant equal to `target`.
    pub fn revoke_filesystem(&mut self, target: &str)
        ensures
            texts(final(self).granted_filesystem@) == texts(old(self).granted_filesystem@).filter(|g: Seq<char>| g != target@),
            final(self).default_allow == old(self).default_allow,
            final(self).granted_network == old(self).granted_network,
            final(self).granted_process == old(self).granted_process,
            final(self).granted_secrets == old(self).granted_secrets,
            final(self).granted_peers == old(self).granted_peers,
    {
        remove_all(&mut self.granted_filesystem, target);
    }
}

/// `list` with `x` added at the end unless already present.
pub open spec fn with_unique(list: Seq<Seq<char>>, x: Seq<char>) -> Seq<Seq<char>> {
    if list.contains(x) {
        list
    } else {
        list.push(x)
    }
}

fn join4p(a: &str, b: &str, c: &str, d: &str) -> (r: String)
    ensures
        r@ == a@ + b@ + c@ + d@,
{
    crate::text::join4(a, b, c, d)
}

/// A granted entry covers itself: after `grant_*(x)`, a request for `x` is no longer
/// denied for that kind.
pub proof fn grant_covers(list: Seq<Seq<char>>, x: Seq<char>)
    ensures
        covered(with_unique(list, x), x),
{
    let l = with_unique(list, x);
    if list.contains(x) {
        let j = choose|j: int| 0 <= j < list.len() && list[j] == x;
        assert(l[j] == x);
    } else {
        assert(l[l.len() - 1] == x);
    }
}

/// Once revoked, an entry is gone from the list.
pub proof fn revoke_removes(list: Seq<Seq<char>>, x: Seq<char>)
    ensures
        !list.filter(|g: Seq<char>| g != x).contains(x),
{
    let f = list.filter(|g: Seq<char>| g != x);
    if f.contains(x) {
        let j = choose|j: int| 0 <= j < f.len() && f[j] == x;
        assert((|g: Seq<char>| g != x)(f[j]));
    }
}

/// Requests the grants fully cover are never denied: if every requested entry is
/// covered, nothing of that kind is listed.
pub proof fn all_covered_none_denied(requested: Seq<Seq<char>>, granted: Seq<Seq<char>>, prefix: Seq<char>)
    requires
        forall|i: int| 0 <= i < requested.len() ==> covered(granted, #[trigger] requested[i]),
    ensures
        denied_in(requested, granted, prefix).len() == 0,
    decreases requested.len(),
{
    if requested.len() > 0 {
        let d = requested.drop_last();
        assert forall|i: int| 0 <= i < d.len() implies covered(granted, #[trigger] d[i]) by {
            assert(d[i] == requested[i]);
        }
        all_covered_none_denied(d, granted, prefix);
        assert(covered(granted, requested[requested.len() - 1]));
    }
}

/// A grant covers a request exactly when the request itself or `*` is granted.
pub proof fn covered_means_listed_or_star(granted: Seq<Seq<char>>, x: Seq<char>)
    ensures
        covered(granted, x) <==> granted.contains(x) || granted.contains("*"@),
{
    if granted.contains(x) {
        let j = choose|j: int| 0 <= j < granted.len() && granted[j] == x;
        assert(granted[j] == x);
    }
    if granted.contains("*"@) {
        let j = choose|j: int| 0 <= j < granted.len() && granted[j] == "*"@;
        assert(granted[j] == "*"@);
    }
}

/// A request is listed as denied exactly when it is neither granted itself nor
/// covered by a `*` grant: nothing is denied when every request is granted or `*`
/// is, and some request is denied as soon as one is neither.
pub proof fn denied_exactly_when_ungranted(requested: Seq<Seq<char>>, granted: Seq<Seq<char>>, prefix: Seq<char>)
    ensures
        denied_in(requested, granted, prefix).len() == 0 <==> forall|x: Seq<char>|
            #[trigger] requested.contains(x) ==> granted.contains(x) || granted.contains("*"@),
    decreases requested.len(),
{
    if requested.len() > 0 {
        let d = requested.drop_last();
        denied_exactly_when_ungranted(d, granted, prefix);
        covered_means_listed_or_star(granted, requested.last());
        if forall|x: Seq<char>| #[trigger] requested.contains(x) ==> granted.contains(x) || granted.contains("*"@) {
            assert forall|x: Seq<char>| #[trigger] d.contains(x) implies granted.contains(x) || granted.contains("*"@) by {
                let j = choose|j: int| 0 <= j < d.len() && d[j] == x;
                assert(requested[j] == x);
                assert(requested.contains(x));
            }
            assert(requested.contains(requested.last()));
        } else {
            let x = choose|x: Seq<char>|
                #[trigger] requested.contains(x) && !(granted.contains(x) || granted.contains("*"@));
            let j = choose|j: int| 0 <= j < requested.len() && requested[j] == x;
            if j < requested.len() - 1 {
                assert(d[j] == x);
                assert(d.contains(x));
            }
        }
    }
}

/// A filesystem request granted by `*` or by its path is never denied.
pub proof fn fs_granted_none_denied(requested: Seq<FsGrant>, granted: Seq<Seq<char>>)
    requires
        forall|k: int|
            0 <= k < requested.len() ==> granted.contains("*"@) || granted.contains((#[trigger] requested[k]).path@),
    ensures
        fs_denied(requested, granted).len() == 0,
    decreases requested.len(),
{
    if requested.len() > 0 {
        let d = requested.drop_last();
        assert forall|k: int| 0 <= k < d.len() implies granted.contains("*"@) || granted.contains(
            (#[trigger] d[k]).path@,
        ) by {
            assert(d[k] == requested[k]);
        }
        fs_granted_none_denied(d, granted);
        let g = requested.last();
        assert(granted.contains("*"@) || granted.contains(requested[requested.len() - 1].path@));
        if granted.contains("*"@) {
            let j = choose|j: int| 0 <= j < granted.len() && granted[j] == "*"@;
            assert(granted[j] == "*"@);
        } else {
            let j = choose|j: int| 0 <= j < granted.len() && granted[j] == g.path@;
            assert(granted[j] == g.path@);
        }
    }
}

/// What admission decides, in terms of the grants: a Cell each of whose network,
/// process, secret and peer requests is granted itself or by a `*` grant, and each
/// of whose filesystem requests is granted by `*` or by its path, has nothing
/// denied; a Cell with a network, process, secret or peer request that is neither
/// granted nor covered by `*` has something denied.
pub proof fn grants_decide_admission(gate: PolicyGate, cell: CellManifest)
    ensures
        (forall|x: Seq<char>|
            #[trigger] texts(cell.spec.permissions.network@).contains(x) ==> texts(gate.granted_network@).contains(x)
                || texts(gate.granted_network@).contains("*"@)) && (forall|x: Seq<char>|
            #[trigger] texts(cell.spec.permissions.process@).contains(x) ==> texts(gate.granted_process@).contains(x)
                || texts(gate.granted_process@).contains("*"@)) && (forall|x: Seq<char>|
            #[trigger] texts(cell.spec.permissions.secrets@).contains(x) ==> texts(gate.granted_secrets@).contains(x)
                || texts(gate.granted_secrets@).contains("*"@)) && (forall|x: Seq<char>|
            #[trigger] texts(cell.spec.permissions.peers@).contains(x) ==> texts(gate.granted_peers@).contains(x)
                || texts(gate.granted_peers@).contains("*"@)) && (forall|k: int|
            0 <= k < cell.spec.permissions.filesystem@.len() ==> texts(gate.granted_filesystem@).contains("*"@)
                || texts(gate.granted_filesystem@).contains((#[trigger] cell.spec.permissions.filesystem@[k]).path@))
            ==> denied_list(gate, cell).len() == 0,
        (exists|x: Seq<char>|
            #[trigger] texts(cell.spec.permissions.network@).contains(x) && !texts(gate.granted_network@).contains(x)
                && !texts(gate.granted_network@).contains("*"@)) ==> denied_list(gate, cell).len() > 0,
        (exists|x: Seq<char>|
            #[trigger] texts(cell.spec.permissions.process@).contains(x) && !texts(gate.granted_process@).contains(x)
                && !texts(gate.granted_process@).contains("*"@)) ==> denied_list(gate, cell).len() > 0,
        (exists|x: Seq<char>|
            #[trigger] texts(cell.spec.permissions.secrets@).contains(x) && !texts(gate.granted_secrets@).contains(x)
                && !texts(gate.granted_secrets@).contains("*"@)) ==> denied_list(gate, cell).len() > 0,
        (exists|x: Seq<char>|
            #[trigger] texts(cell.spec.permissions.peers@).contains(x) && !texts(gate.granted_peers@).contains(x)
                && !texts(gate.granted_peers@).contains("*"@)) ==> denied_list(gate, cell).len() > 0,
{
    let p = cell.spec.permissions;
    denied_exactly_when_ungranted(texts(p.network@), texts(gate.granted_network@), "network:"@);
    denied_exactly_when_ungranted(texts(p.process@), texts(gate.granted_process@), "process:"@);
    denied_exactly_when_ungranted(texts(p.secrets@), texts(gate.granted_secrets@), "secret:"@);
    denied_exactly_when_ungranted(texts(p.peers@), texts(gate.granted_peers@), "peer:"@);
    if forall|k: int|
        0 <= k < p.filesystem@.len() ==> texts(gate.granted_filesystem@).contains("*"@) || texts(
            gate.granted_filesystem@,
        ).contains((#[trigger] p.filesystem@[k]).path@) {
        fs_granted_none_denied(p.filesystem@, texts(gate.granted_filesystem@));
    }
}

} // verus!
