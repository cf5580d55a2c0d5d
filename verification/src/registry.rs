//! The local registry: registered Cell instances, kept in instance-id order, with
//! unique instance ids and unique Cell names.

use vstd::prelude::*;

use crate::error::{is_not_found, is_validation, Error, Result};
use crate::lifecycle::{routable, CellState, Lifecycle};
use crate::manifest::cell::{Capability, CellManifest};
use crate::text::{chars_of, join3, text_less, text_lt};

verus! {

/// A registered Cell instance.
#[derive(Debug, Clone)]
pub struct CellRecord {
    pub instance_id: String,
    pub manifest: CellManifest,
    pub lifecycle: Lifecycle,
}

/// The record is consistent: its lifecycle is well formed and belongs to its Cell.
pub open spec fn record_wf(r: CellRecord) -> bool {
    r.lifecycle.wf() && r.lifecycle.cell_name() == r.manifest.metadata.name@
}

/// The Cell name of a record.
pub open spec fn rec_name(r: CellRecord) -> Seq<char> {
    r.manifest.metadata.name@
}

/// The state of a record.
pub open spec fn rec_state(r: CellRecord) -> CellState {
    r.lifecycle.current()
}

/// The record provides a capability named `cap` (at `version`, when given).
pub open spec fn provides_cap(r: CellRecord, cap: Seq<char>, version: Option<Seq<char>>) -> bool {
    exists|k: int|
        0 <= k < r.manifest.spec.provides@.len() && (#[trigger] r.manifest.spec.provides@[k]).name@
            == cap && match version {
            Some(v) => r.manifest.spec.provides@[k].version@ == v,
            None => true,
        }
}

impl CellRecord {
    /// The lifecycle state.
    pub fn state(&self) -> (r: CellState)
        ensures
            r == rec_state(*self),
    {
        self.lifecycle.state()
    }

    /// `(name, version)` of every provided capability, in manifest order.
    pub fn provides(&self) -> (r: Vec<(String, String)>)
        ensures
            r@.len() == self.manifest.spec.provides@.len(),
            forall|k: int|
                0 <= k < r@.len() ==> (#[trigger] r@[k]).0@ == self.manifest.spec.provides@[k].name@
                    && r@[k].1@ == self.manifest.spec.provides@[k].version@,
    {
        let mut out: Vec<(String, String)> = Vec::new();
        let mut i: usize = 0;
        while i < self.manifest.spec.provides.len()
            invariant
                i <= self.manifest.spec.provides@.len(),
                out@.len() == i,
                forall|k: int|
                    0 <= k < i ==> (#[trigger] out@[k]).0@ == self.manifest.spec.provides@[k].name@
                        && out@[k].1@ == self.manifest.spec.provides@[k].version@,
            decreases self.manifest.spec.provides@.len() - i,
        {
            let c: &Capability = &self.manifest.spec.provides[i];
            out.push((c.name.clone(), c.version.clone()));
            i = i + 1;
        }
        out
    }
}

/// Registered Cells.
#[derive(Debug)]
pub struct LocalRegistry {
    records: Vec<CellRecord>,
}

impl Default for LocalRegistry {
    fn default() -> (r: Self)
        ensures
            r.wf(),
            r.records().len() == 0,
    {
        LocalRegistry { records: Vec::new() }
    }
}

/// Instance ids strictly increase along the list.
pub open spec fn ids_sorted(recs: Seq<CellRecord>) -> bool {
    forall|i: int, j: int|
        0 <= i < j < recs.len() ==> text_lt(
            (#[trigger] recs[i]).instance_id@,
            (#[trigger] recs[j]).instance_id@,
        )
}

/// No two records share a Cell name.
pub open spec fn names_unique(recs: Seq<CellRecord>) -> bool {
    forall|i: int, j: int|
        0 <= i < recs.len() && 0 <= j < recs.len() && i != j ==> rec_name(#[trigger] recs[i])
            != rec_name(#[trigger] recs[j])
}

/// Position of the record named `name`, or -1.
pub open spec fn name_index(recs: Seq<CellRecord>, name: Seq<char>) -> int {
    if exists|i: int| 0 <= i < recs.len() && rec_name(#[trigger] recs[i]) == name {
        choose|i: int| 0 <= i < recs.len() && rec_name(#[trigger] recs[i]) == name
    } else {
        -1
    }
}

/// Position of the record with instance id `id`, or -1.
pub open spec fn id_index(recs: Seq<CellRecord>, id: Seq<char>) -> int {
    if exists|i: int| 0 <= i < recs.len() && (#[trigger] recs[i]).instance_id@ == id {
        choose|i: int| 0 <= i < recs.len() && (#[trigger] recs[i]).instance_id@ == id
    } else {
        -1
    }
}

/// A Cell taken out by name can be registered again under its instance id: once
/// its record is removed from well-formed records, neither its name nor its id is
/// held by any other record, which is what `register` asks to succeed.
pub proof fn removed_cell_can_return(recs: Seq<CellRecord>, name: Seq<char>)
    requires
        ids_sorted(recs),
        names_unique(recs),
        name_index(recs, name) >= 0,
    ensures
        name_index(recs.remove(name_index(recs, name)), name) < 0,
        id_index(
            recs.remove(name_index(recs, name)),
            recs[name_index(recs, name)].instance_id@,
        ) < 0,
        rec_name(recs[name_index(recs, name)]) == name,
{
    let i = name_index(recs, name);
    let rest = recs.remove(i);
    assert(rec_name(recs[i]) == name);
    if name_index(rest, name) >= 0 {
        let k = name_index(rest, name);
        let k0 = if k < i { k } else { k + 1 };
        assert(rest[k] == recs[k0]);
        assert(rec_name(recs[k0]) == rec_name(recs[i]));
    }
    if id_index(rest, recs[i].instance_id@) >= 0 {
        let k = id_index(rest, recs[i].instance_id@);
        let k0 = if k < i { k } else { k + 1 };
        assert(rest[k] == recs[k0]);
        sorted_ids_unique(recs, k0, i);
    }
}

/// Ids are unique when they are sorted.
pub proof fn sorted_ids_unique(recs: Seq<CellRecord>, i: int, j: int)
    requires
        ids_sorted(recs),
        0 <= i < recs.len(),
        0 <= j < recs.len(),
        i != j,
    ensures
        recs[i].instance_id@ != recs[j].instance_id@,
{
    if i < j {
        assert(text_lt(recs[i].instance_id@, recs[j].instance_id@));
        crate::text::lemma_text_lt_irrefl(recs[i].instance_id@);
    } else {
        assert(text_lt(recs[j].instance_id@, recs[i].instance_id@));
        crate::text::lemma_text_lt_irrefl(recs[j].instance_id@);
    }
}

impl LocalRegistry {
    /// The records, in instance-id order.
    pub closed spec fn records(&self) -> Seq<CellRecord> {
        self.records@
    }

    /// Sorted by instance id, names unique, every record consistent.
    pub open spec fn wf(&self) -> bool {
        &&& ids_sorted(self.records())
        &&& names_unique(self.records())
        &&& forall|i: int| 0 <= i < self.records().len() ==> record_wf(#[trigger] self.records()[i])
    }

    /// An empty registry.
    pub fn new() -> (r: Self)
        ensures
            r.wf(),
            r.records().len() == 0,
    {
        LocalRegistry { records: Vec::new() }
    }

    /// Index of the record named `name`.
    fn find_name(&self, name: &str) -> (r: Option<usize>)
        requires
            self.wf(),
        ensures
            match r {
                Some(i) => i < self.records().len() && rec_name(self.records()[i as int]) == name@
                    && name_index(self.records(), name@) == i,
                None => name_index(self.records(), name@) == -1 && forall|k: int|
                    0 <= k < self.records().len() ==> rec_name(#[trigger] self.records()[k]) != name@,
            },
    {
        let target = chars_of(name);
        let mut i: usize = 0;
        while i < self.records.len()
            invariant
                self.wf(),
                i <= self.records@.len(),
                target@ == name@,
                forall|k: int| 0 <= k < i ==> rec_name(#[trigger] self.records@[k]) != name@,
            decreases self.records@.len() - i,
        {
            if crate::text::same_text(self.records[i].manifest.metadata.name.as_str(), name) {
                proof {
                    let recs = self.records@;
                    assert(rec_name(recs[i as int]) == name@);
                    let c = choose|c: int| 0 <= c < recs.len() && rec_name(#[trigger] recs[c]) == name@;
                    if c != i {
                        assert(rec_name(recs[c]) != rec_name(recs[i as int]));
                    }
                }
                return Some(i);
            }
            i = i + 1;
        }
        None
    }

    /// Index of the record with instance id `id`.
    fn find_id(&self, id: &str) -> (r: Option<usize>)
        requires
            self.wf(),
        ensures
            match r {
                Some(i) => i < self.records().len() && self.records()[i as int].instance_id@ == id@
                    && id_index(self.records(), id@) == i,
                None => id_index(self.records(), id@) == -1 && forall|k: int|
                    0 <= k < self.records().len() ==> (#[trigger] self.records()[k]).instance_id@
                        != id@,
            },
    {
        let mut i: usize = 0;
        while i < self.records.len()
            invariant
                self.wf(),
                i <= self.records@.len(),
                forall|k: int| 0 <= k < i ==> (#[trigger] self.records@[k]).instance_id@ != id@,
            decreases self.records@.len() - i,
        {
            if crate::text::same_text(self.records[i].instance_id.as_str(), id) {
                proof {
                    let recs = self.records@;
                    let c = choose|c: int| 0 <= c < recs.len() && (#[trigger] recs[c]).instance_id@ == id@;
                    if c != i {
                        sorted_ids_unique(recs, c, i as int);
                    }
                }
                return Some(i);
            }
            i = i + 1;
        }
        None
    }

    /// Registers a Cell as `instance_id`, in state `Discovered`. An instance id or a Cell
    /// name that is already registered is a validation error and nothing changes.
    pub fn register(&mut self, instance_id: String, manifest: CellManifest) -> (r: Result<()>)
        requires
            old(self).wf(),
        ensures
            final(self).wf(),
            id_index(old(self).records(), instance_id@) >= 0 ==> (r matches Err(e) && is_validation(
                e,
                "instance `"@ + instance_id@ + "` exists"@,
            )) && final(self).records() == old(self).records(),
            id_index(old(self).records(), instance_id@) < 0 && name_index(old(self).records(), manifest.metadata.name@) >= 0
                ==> (r matches Err(e) && is_validation(
                e,
                "cell name `"@ + manifest.metadata.name@ + "` already registered"@,
            )) && final(self).records() == old(self).records(),
            id_index(old(self).records(), instance_id@) < 0 && name_index(old(self).records(), manifest.metadata.name@) < 0
                ==> r is Ok && exists|p: int|
                0 <= p <= old(self).records().len() && final(self).records() == old(self).records().insert(
                    p,
                    final(self).records()[p],
                ) && final(self).records()[p].instance_id@ == instance_id@
                    && final(self).records()[p].manifest == manifest
                    && final(self).records()[p].lifecycle.current() == CellState::Discovered
                    && final(self).records()[p].lifecycle.log().len() == 0,
    {
        if let Some(_) = self.find_id(instance_id.as_str()) {
            return Err(Error::Validation(join3("instance `", instance_id.as_str(), "` exists")));
        }
        if let Some(_) = self.find_name(manifest.metadata.name.as_str()) {
            return Err(
                Error::Validation(
                    join3("cell name `", manifest.metadata.name.as_str(), "` already registered"),
                ),
            );
        }
        let id_chars = chars_of(instance_id.as_str());
        let mut p: usize = 0;
        let mut found = false;
        while p < self.records.len() && !found
            invariant
                p <= self.records@.len(),
                id_chars@ == instance_id@,
                self.records@ == old(self).records@,
                forall|k: int| 0 <= k < self.records@.len() ==> (#[trigger] self.records@[k]).instance_id@ != instance_id@,
                forall|k: int| 0 <= k < p ==> text_lt((#[trigger] self.records@[k]).instance_id@, instance_id@),
                found ==> p < self.records@.len() && text_lt(instance_id@, self.records@[p as int].instance_id@),
            decreases self.records@.len() - p + (if found { 0int } else { 1int }),
        {
            let other = chars_of(self.records[p].instance_id.as_str());
            if text_less(&id_chars, &other) {
                found = true;
            } else {
                proof {
                    crate::text::lemma_text_lt_total(instance_id@, self.records@[p as int].instance_id@);
                }
                p = p + 1;
            }
        }
        let ghost old_recs = self.records@;
        proof {
            // every later record sorts after the new id
            assert forall|k: int| p <= k < old_recs.len() implies text_lt(instance_id@, #[trigger] old_recs[k].instance_id@) by {
                if k > p {
                    assert(text_lt(old_recs[p as int].instance_id@, old_recs[k].instance_id@));
                    crate::text::lemma_text_lt_trans(instance_id@, old_recs[p as int].instance_id@, old_recs[k].instance_id@);
                }
            }
        }
        let name = manifest.metadata.name.clone();
        let lifecycle = Lifecycle::new(name);
        let rec = CellRecord { instance_id, manifest, lifecycle };
        self.records.insert(p, rec);
        proof {
            let recs = self.records@;
            assert(recs =~= old_recs.insert(p as int, rec));
            assert forall|i: int, j: int| 0 <= i < j < recs.len() implies text_lt(
                (#[trigger] recs[i]).instance_id@,
                (#[trigger] recs[j]).instance_id@,
            ) by {
                if j < p {
                    assert(recs[i] == old_recs[i] && recs[j] == old_recs[j]);
                } else if j == p {
                    assert(recs[i] == old_recs[i]);
                } else if i == p {
                    assert(recs[j] == old_recs[j - 1]);
                } else if i < p {
                    assert(recs[i] == old_recs[i] && recs[j] == old_recs[j - 1]);
                    crate::text::lemma_text_lt_trans(old_recs[i].instance_id@, instance_id@, old_recs[j - 1].instance_id@);
                } else {
                    assert(recs[i] == old_recs[i - 1] && recs[j] == old_recs[j - 1]);
                }
            }
            assert forall|i: int, j: int|
                0 <= i < recs.len() && 0 <= j < recs.len() && i != j implies rec_name(#[trigger] recs[i])
                    != rec_name(#[trigger] recs[j]) by {
                if i != p && j != p {
                    let oi = if i < p { i } else { i - 1 };
                    let oj = if j < p { j } else { j - 1 };
                    assert(recs[i] == old_recs[oi] && recs[j] == old_recs[oj]);
                } else if i == p {
                    let oj = if j < p { j } else { j - 1 };
                    assert(recs[j] == old_recs[oj]);
                } else {
                    let oi = if i < p { i } else { i - 1 };
                    assert(recs[i] == old_recs[oi]);
                }
            }
            assert forall|i: int| 0 <= i < recs.len() implies record_wf(#[trigger] recs[i]) by {
                if i < p {
                    assert(recs[i] == old_recs[i]);
                } else if i > p {
                    assert(recs[i] == old_recs[i - 1]);
                }
            }
            assert(recs[p as int] == rec);
            assert(0 <= p <= old_recs.len() && recs == old_recs.insert(p as int, recs[p as int]));
        }
        Ok(())
    }

    /// The record with instance id `instance_id`.
    pub fn get(&self, instance_id: &str) -> (r: Option<&CellRecord>)
        requires
            self.wf(),
        ensures
            id_index(self.records(), instance_id@) < 0 ==> r is None,
            id_index(self.records(), instance_id@) >= 0 ==> r == Some(&self.records()[id_index(self.records(), instance_id@)]),
    {
        match self.find_id(instance_id) {
            Some(i) => Some(&self.records[i]),
            None => None,
        }
    }

    /// Mutable access to the record with instance id `instance_id`.
    pub fn get_mut(&mut self, instance_id: &str) -> (r: Option<&mut CellRecord>)
        requires
            old(self).wf(),
        ensures
            id_index(old(self).records(), instance_id@) < 0 ==> r is None && *final(self) == *old(self),
            id_index(old(self).records(), instance_id@) >= 0 ==> (r matches Some(m) && *m
                == old(self).records()[id_index(old(self).records(), instance_id@)]
                && final(self).records() == old(self).records().update(
                id_index(old(self).records(), instance_id@),
                *final(m),
            )),
    {
        match self.find_id(instance_id) {
            Some(i) => Some(&mut self.records[i]),
            None => None,
        }
    }

    /// The record of the Cell named `name`.
    pub fn by_name(&self, name: &str) -> (r: Option<&CellRecord>)
        requires
            self.wf(),
        ensures
            name_index(self.records(), name@) < 0 ==> r is None,
            name_index(self.records(), name@) >= 0 ==> r == Some(&self.records()[name_index(self.records(), name@)]),
    {
        match self.find_name(name) {
            Some(i) => Some(&self.records[i]),
            None => None,
        }
    }

    /// Mutable access to the record of the Cell named `name`.
    pub fn by_name_mut(&mut self, name: &str) -> (r: Option<&mut CellRecord>)
        requires
            old(self).wf(),
        ensures
            name_index(old(self).records(), name@) < 0 ==> r is None && *final(self) == *old(self),
            name_index(old(self).records(), name@) >= 0 ==> (r matches Some(m) && *m
                == old(self).records()[name_index(old(self).records(), name@)]
                && final(self).records() == old(self).records().update(
                name_index(old(self).records(), name@),
                *final(m),
            )),
    {
        match self.find_name(name) {
            Some(i) => Some(&mut self.records[i]),
            None => None,
        }
    }

    /// Routable records that provide `capability` (at `version`, when given), in
    /// instance-id order.
    pub fn find_providers(&self, capability: &str, version: Option<&str>) -> (r: Vec<&CellRecord>)
        requires
            self.wf(),
        ensures
            r@.len() <= self.records().len(),
            forall|k: int| 0 <= k < r@.len() ==> {
                &&& routable(rec_state(*#[trigger] r@[k]))
                &&& provides_cap(*r@[k], capability@, opt_view(version))
            },
            derefs(r@) == filter_refs(self.records(), capability@, opt_view(version)),
    {
        let mut out: Vec<&CellRecord> = Vec::new();
        let mut i: usize = 0;
        while i < self.records.len()
            invariant
                i <= self.records@.len(),
                derefs(out@) == filter_refs(self.records@.take(i as int), capability@, opt_view(version)),
            decreases self.records@.len() - i,
        {
            let rec = &self.records[i];
            let keep = rec.state().can_route() && provides_match(rec, capability, version);
            proof {
                assert(self.records@.take(i + 1).drop_last() =~= self.records@.take(i as int));
                reveal_with_fuel(filter_refs, 1);
            }
            let ghost before = out@;
            if keep {
                out.push(rec);
                assert(derefs(out@) =~= derefs(before).push(*rec));
            }
            i = i + 1;
        }
        assert(self.records@.take(self.records@.len() as int) =~= self.records@);
        proof {
            lemma_filter_refs(self.records@, capability@, opt_view(version));
            assert forall|k: int| 0 <= k < out@.len() implies #[trigger] out@[k] == derefs(out@)[k] by {}
        }
        out
    }

    /// The records, in instance-id order.
    pub fn iter(&self) -> (r: &[CellRecord])
        ensures
            r@ == self.records(),
    {
        self.records.as_slice()
    }

    /// Number of registered Cells.
    pub fn len(&self) -> (r: usize)
        ensures
            r == self.records().len(),
    {
        self.records.len()
    }

    /// Whether nothing is registered.
    pub fn is_empty(&self) -> (r: bool)
        ensures
            r == (self.records().len() == 0),
    {
        self.records.len() == 0
    }

    /// Removes and returns the record with instance id `instance_id`; unknown ids are a
    /// not-found error naming the id, and nothing changes.
    pub fn remove(&mut self, instance_id: &str) -> (r: Result<CellRecord>)
        requires
            old(self).wf(),
        ensures
            final(self).wf(),
            id_index(old(self).records(), instance_id@) < 0 ==> (r matches Err(e) && is_not_found(e, instance_id@))
                && final(self).records() == old(self).records(),
            id_index(old(self).records(), instance_id@) >= 0 ==> r == Ok::<CellRecord, Error>(
                old(self).records()[id_index(old(self).records(), instance_id@)],
            ) && final(self).records() == old(self).records().remove(
                id_index(old(self).records(), instance_id@),
            ),
    {
        match self.find_id(instance_id) {
            None => Err(Error::NotFound(crate::text::owned(instance_id))),
            Some(i) => {
                let ghost old_recs = self.records@;
                let rec = self.records.remove(i);
                proof {
                    let recs = self.records@;
                    assert forall|a: int, b: int| 0 <= a < b < recs.len() implies text_lt(
                        (#[trigger] recs[a]).instance_id@,
                        (#[trigger] recs[b]).instance_id@,
                    ) by {
                        let oa = if a < i { a } else { a + 1 };
                        let ob = if b < i { b } else { b + 1 };
                        assert(recs[a] == old_recs[oa] && recs[b] == old_recs[ob]);
                    }
                    assert forall|a: int, b: int|
                        0 <= a < recs.len() && 0 <= b < recs.len() && a != b implies rec_name(#[trigger] recs[a])
                            != rec_name(#[trigger] recs[b]) by {
                        let oa = if a < i { a } else { a + 1 };
                        let ob = if b < i { b } else { b + 1 };
                        assert(recs[a] == old_recs[oa] && recs[b] == old_recs[ob]);
                    }
                    assert forall|a: int| 0 <= a < recs.len() implies record_wf(#[trigger] recs[a]) by {
                        let oa = if a < i { a } else { a + 1 };
                        assert(recs[a] == old_recs[oa]);
                    }
                }
                Ok(rec)
            },
        }
    }

    /// Removes and returns the record of the Cell named `name`; unknown names are a
    /// not-found error naming the Cell, and nothing changes.
    pub fn remove_by_name(&mut self, name: &str) -> (r: Result<CellRecord>)
        requires
            old(self).wf(),
        ensures
            final(self).wf(),
            name_index(old(self).records(), name@) < 0 ==> (r matches Err(e) && is_not_found(e, name@))
                && final(self).records() == old(self).records(),
            name_index(old(self).records(), name@) >= 0 ==> r == Ok::<CellRecord, Error>(
                old(self).records()[name_index(old(self).records(), name@)],
            ) && final(self).records() == old(self).records().remove(
                name_index(old(self).records(), name@),
            ),
    {
        match self.find_name(name) {
            None => Err(Error::NotFound(crate::text::owned(name))),
            Some(i) => {
                let id = self.records[i].instance_id.clone();
                proof {
                    let recs = self.records@;
                    let c = choose|c: int| 0 <= c < recs.len() && (#[trigger] recs[c]).instance_id@ == id@;
                    if c != i {
                        sorted_ids_unique(recs, c, i as int);
                    }
                }
                self.remove(id.as_str())
            },
        }
    }
}

/// The records a list of references points to.
pub open spec fn derefs(v: Seq<&CellRecord>) -> Seq<CellRecord> {
    v.map_values(|x: &CellRecord| *x)
}

/// An optional string slice by its view.
pub open spec fn opt_view(v: Option<&str>) -> Option<Seq<char>> {
    match v {
        Some(s) => Some(s@),
        None => None,
    }
}

/// References to the routable records providing the capability, in order.
pub open spec fn filter_refs(recs: Seq<CellRecord>, cap: Seq<char>, version: Option<Seq<char>>) -> Seq<CellRecord>
    decreases recs.len(),
{
    if recs.len() == 0 {
        Seq::empty()
    } else {
        let rest = filter_refs(recs.drop_last(), cap, version);
        if routable(rec_state(recs.last())) && provides_cap(recs.last(), cap, version) {
            rest.push(recs.last())
        } else {
            rest
        }
    }
}

proof fn lemma_filter_refs(recs: Seq<CellRecord>, cap: Seq<char>, version: Option<Seq<char>>)
    ensures
        filter_refs(recs, cap, version).len() <= recs.len(),
        forall|k: int| 0 <= k < filter_refs(recs, cap, version).len() ==> {
            &&& routable(rec_state(#[trigger] filter_refs(recs, cap, version)[k]))
            &&& provides_cap(filter_refs(recs, cap, version)[k], cap, version)
        },
    decreases recs.len(),
{
    if recs.len() > 0 {
        lemma_filter_refs(recs.drop_last(), cap, version);
    }
}

/// Whether `rec` provides `capability` (at `version`, when given).
pub fn provides_match(rec: &CellRecord, capability: &str, version: Option<&str>) -> (r: bool)
    ensures
        r == provides_cap(*rec, capability@, opt_view(version)),
{
    let mut k: usize = 0;
    while k < rec.manifest.spec.provides.len()
        invariant
            k <= rec.manifest.spec.provides@.len(),
            forall|t: int|
                0 <= t < k ==> !((#[trigger] rec.manifest.spec.provides@[t]).name@ == capability@
                    && match opt_view(version) {
                    Some(v) => rec.manifest.spec.provides@[t].version@ == v,
                    None => true,
                }),
        decreases rec.manifest.spec.provides@.len() - k,
    {
        let p = &rec.manifest.spec.provides[k];
        let name_ok = crate::text::same_text(p.name.as_str(), capability);
        let ver_ok = match version {
            Some(v) => crate::text::same_text(p.version.as_str(), v),
            None => true,
        };
        if name_ok && ver_ok {
            return true;
        }
        k = k + 1;
    }
    false
}

} // verus!
