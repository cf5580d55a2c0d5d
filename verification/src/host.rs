//! The Host: registers, admits and activates Cells, keeps the binding generation,
//! routes invocations to the in-process, subprocess or WASI executor, and records
//! what it does on the audit trail and the event bus.

use vstd::prelude::*;

use crate::audit::{numbers_after, AuditKind, AuditLog};
use crate::binding::{
    apply_proposal, edge_views, proposed_views, refusal, ActiveBinding, BindingApplyResult, BindingSet,
};
use crate::bus::{bus_view, bus_views, published, BusEvent, BusView, EventBus};
use crate::discover::{discover_providers, ProviderInfo};
use crate::envelope::{envelope_problem, Envelope};
use crate::json::{array_json, json_bool, json_text, json_u64, jv, pair, JsonValue, JsonView, NumView};
use crate::error::{is_binding, is_not_found, is_validation, Error, Result};
use crate::execute::{HandlerView, InProcessExecutor};
use crate::lifecycle::{routable, CellState};
use crate::manifest::binding_proposal::{BindingProposal, ProposalMetadata, ProposalSpec, ProposedBinding};
use crate::manifest::cell::{CellManifest, RuntimeKind};
use crate::policy::{denied_list, push_all_unique, with_all, AdmissionDecision, PolicyGate};
use crate::registry::{name_index, rec_name, rec_state, CellRecord, LocalRegistry};
use crate::state::{HostStateBindings, HostStateFile, HostStatePolicy};
use crate::subprocess::{ProcessRunner, SubprocessExecutor, SubprocessSpec};
use crate::table::NameTable;
use crate::text::{decimal_text, join2, join3, join4, join5, owned, same_text};
use crate::wasi::WasiExecutor;

verus! {

/// What the Host needs from the file system. The embedding program supplies it.
pub trait HostEnv: Send + Sync {
    /// Reads and parses the Cell manifest at `yaml_path`.
    fn load_cell(&self, yaml_path: &str) -> Result<CellManifest>;

    /// Reads and parses the binding proposal at `path`.
    fn load_proposal(&self, path: &str) -> Result<BindingProposal>;

    /// Writes the durable state file at `path`.
    fn save_state(&self, path: &str, state: &HostStateFile) -> Result<()>;

}

/// Registers, admits and activates Cells; applies bindings; invokes Cells.
pub struct Host {
    registry: LocalRegistry,
    policy: PolicyGate,
    bindings: BindingSet,
    inprocess: InProcessExecutor,
    subprocess: SubprocessExecutor,
    wasi: WasiExecutor,
    cell_dirs: NameTable<String>,
    program_aliases: NameTable<String>,
    audit: AuditLog,
    bus: EventBus,
    persist_path: Option<String>,
    persist_enabled: bool,
    env: Option<Box<dyn HostEnv>>,
}

/// The Cell named `name` is registered.
pub open spec fn known(reg: LocalRegistry, name: Seq<char>) -> bool {
    name_index(reg.records(), name) >= 0
}

/// The record of the Cell named `name`.
pub open spec fn record_of(reg: LocalRegistry, name: Seq<char>) -> CellRecord {
    reg.records()[name_index(reg.records(), name)]
}

/// The policy lets `cell` in.
pub open spec fn admits(gate: PolicyGate, cell: CellManifest) -> bool {
    gate.default_allow || denied_list(gate, cell).len() == 0
}

impl Host {
    /// The registry.
    pub closed spec fn reg(&self) -> LocalRegistry {
        self.registry
    }

    /// The policy gate.
    pub closed spec fn gate(&self) -> PolicyGate {
        self.policy
    }

    /// The live bindings.
    pub closed spec fn live(&self) -> BindingSet {
        self.bindings
    }

    /// The in-process executor.
    pub closed spec fn inproc(&self) -> InProcessExecutor {
        self.inprocess
    }

    /// The subprocess executor.
    pub closed spec fn subproc(&self) -> SubprocessExecutor {
        self.subprocess
    }

    /// The WASI executor.
    pub closed spec fn wasm(&self) -> WasiExecutor {
        self.wasi
    }

    /// Directories Cells were loaded from.
    pub closed spec fn dirs(&self) -> Map<Seq<char>, String> {
        self.cell_dirs.as_map()
    }

    /// Names of the Cells loaded from a directory, in load order.
    pub closed spec fn dir_names(&self) -> Seq<Seq<char>> {
        self.cell_dirs.names()
    }

    /// Program aliases for subprocess entrypoints.
    pub closed spec fn aliases(&self) -> Map<Seq<char>, String> {
        self.program_aliases.as_map()
    }

    /// The audit trail.
    pub closed spec fn trail(&self) -> AuditLog {
        self.audit
    }

    /// The event bus.
    pub closed spec fn events_bus(&self) -> EventBus {
        self.bus
    }

    /// Where durable state goes, and whether writes are on.
    pub closed spec fn persist(&self) -> (Option<String>, bool) {
        (self.persist_path, self.persist_enabled)
    }

    /// Whether a file-system access is installed.
    pub closed spec fn has_env(&self) -> bool {
        self.env is Some
    }

    /// Every part is consistent.
    pub closed spec fn wf(&self) -> bool {
        &&& self.registry.wf()
        &&& self.inprocess.wf()
        &&& self.subprocess.wf()
        &&& self.wasi.wf()
        &&& self.cell_dirs.wf()
        &&& self.program_aliases.wf()
        &&& self.audit.wf()
        &&& self.bus.wf()
    }

    /// A consistent Host has a consistent registry (names and ids unique, records
    /// well formed), executors, audit trail and bus.
    pub proof fn lemma_wf_parts(&self)
        requires
            self.wf(),
        ensures
            self.reg().wf(),
            self.inproc().wf(),
            self.subproc().wf(),
            self.wasm().wf(),
            self.trail().wf(),
            self.events_bus().wf(),
    {
    }

    /// An empty Host: no Cells, no grants, no bindings.
    pub fn new() -> (r: Self)
        ensures
            r.wf(),
            r.reg().records().len() == 0,
            r.live().current_generation() == 0,
            r.live().items().len() == 0,
            !r.gate().default_allow,
            r.gate().granted_network@.len() == 0,
            r.gate().granted_process@.len() == 0,
            r.gate().granted_filesystem@.len() == 0,
            r.gate().granted_secrets@.len() == 0,
            r.gate().granted_peers@.len() == 0,
            r.inproc().names().len() == 0,
            r.subproc().count() == 0,
            r.wasm().count() == 0,
            r.trail().kept().len() == 0,
            r.events_bus().kept().len() == 0,
            r.persist() == (None::<String>, false),
            !r.has_env(),
            r.dirs() == Map::<Seq<char>, String>::empty(),
            r.dir_names().len() == 0,
            r.aliases() == Map::<Seq<char>, String>::empty(),
    {
        Host {
            registry: LocalRegistry::new(),
            policy: PolicyGate::default(),
            bindings: BindingSet::default(),
            inprocess: InProcessExecutor::new(),
            subprocess: SubprocessExecutor::new(),
            wasi: WasiExecutor::new(),
            cell_dirs: NameTable::new(),
            program_aliases: NameTable::new(),
            audit: AuditLog::default(),
            bus: EventBus::default(),
            persist_path: None,
            persist_enabled: false,
            env: None,
        }
    }

    /// Installs the file-system access the Host uses.
    pub fn set_env(&mut self, env: Box<dyn HostEnv>)
        ensures
            final(self).has_env(),
            final(self).reg() == old(self).reg(),
            final(self).live() == old(self).live(),
            final(self).gate() == old(self).gate(),
            final(self).inproc() == old(self).inproc(),
            final(self).subproc() == old(self).subproc(),
            final(self).wasm() == old(self).wasm(),
            final(self).dirs() == old(self).dirs(),
            final(self).dir_names() == old(self).dir_names(),
            final(self).aliases() == old(self).aliases(),
            final(self).trail() == old(self).trail(),
            final(self).events_bus() == old(self).events_bus(),
            final(self).persist() == old(self).persist(),
            final(self).wf() == old(self).wf(),
    {
        self.env = Some(env);
    }

    /// Installs the runner that starts subprocess Cells.
    pub fn set_process_runner(&mut self, runner: Box<dyn ProcessRunner>)
        requires
            old(self).wf(),
        ensures
            final(self).wf(),
            final(self).reg() == old(self).reg(),
            final(self).live() == old(self).live(),
            final(self).gate() == old(self).gate(),
            final(self).subproc().specs() == old(self).subproc().specs(),
            final(self).subproc().count() == old(self).subproc().count(),
            final(self).subproc().has_runner(),
            final(self).inproc() == old(self).inproc(),
            final(self).wasm() == old(self).wasm(),
            final(self).dirs() == old(self).dirs(),
            final(self).dir_names() == old(self).dir_names(),
            final(self).aliases() == old(self).aliases(),
            final(self).trail() == old(self).trail(),
            final(self).events_bus() == old(self).events_bus(),
            final(self).persist() == old(self).persist(),
            final(self).has_env() == old(self).has_env(),
    {
        self.subprocess.set_runner(runner);
    }

    /// The registry.
    pub fn registry(&self) -> (r: &LocalRegistry)
        ensures
            *r == self.reg(),
    {
        &self.registry
    }

    /// The live bindings.
    pub fn bindings(&self) -> (r: &BindingSet)
        ensures
            *r == self.live(),
    {
        &self.bindings
    }

    /// The policy gate.
    pub fn policy(&self) -> (r: &PolicyGate)
        ensures
            *r == self.gate(),
    {
        &self.policy
    }

    /// The policy gate, to change grants.
    pub fn policy_mut(&mut self) -> (r: &mut PolicyGate)
        ensures
            *r == old(self).gate(),
            final(self).gate() == *final(r),
            final(self).reg() == old(self).reg(),
            final(self).live() == old(self).live(),
            final(self).wf() == old(self).wf(),
    {
        &mut self.policy
    }

    /// The in-process executor, to register handlers.
    pub fn executor_mut(&mut self) -> (r: &mut InProcessExecutor)
        ensures
            *r == old(self).inproc(),
            final(self).inproc() == *final(r),
            final(self).reg() == old(self).reg(),
            final(self).live() == old(self).live(),
    {
        &mut self.inprocess
    }

    /// The subprocess executor.
    pub fn subprocess_mut(&mut self) -> (r: &mut SubprocessExecutor)
        ensures
            *r == old(self).subproc(),
            final(self).subproc() == *final(r),
            final(self).reg() == old(self).reg(),
            final(self).live() == old(self).live(),
    {
        &mut self.subprocess
    }

    /// The WASI executor.
    pub fn wasi_mut(&mut self) -> (r: &mut WasiExecutor)
        ensures
            *r == old(self).wasm(),
            final(self).wasm() == *final(r),
            final(self).reg() == old(self).reg(),
            final(self).live() == old(self).live(),
    {
        &mut self.wasi
    }

    /// Maps an entrypoint token to a program path for subprocess Cells.
    pub fn set_program_alias(&mut self, name: String, path: String)
        requires
            old(self).wf(),
        ensures
            final(self).wf(),
            final(self).aliases() == old(self).aliases().insert(name@, path),
            final(self).reg() == old(self).reg(),
            final(self).live() == old(self).live(),
    {
        self.program_aliases.insert(name, path);
    }

    /// Turns durable state writes on or off, to `path`.
    pub fn set_persist(&mut self, path: String, enabled: bool)
        ensures
            final(self).persist() == (Some(path), enabled),
            final(self).wf() == old(self).wf(),
            final(self).reg() == old(self).reg(),
            final(self).live() == old(self).live(),
            final(self).gate() == old(self).gate(),
    {
        self.persist_path = Some(path);
        self.persist_enabled = enabled;
    }

    /// Where durable state goes.
    pub fn persist_path(&self) -> (r: Option<&str>)
        ensures
            match r {
                Some(p) => self.persist().0 matches Some(q) && p@ == q@,
                None => self.persist().0 is None,
            },
    {
        match &self.persist_path {
            Some(p) => Some(p.as_str()),
            None => None,
        }
    }

    /// The audit trail.
    pub fn audit(&self) -> (r: &AuditLog)
        ensures
            *r == self.trail(),
    {
        &self.audit
    }

    /// The event bus.
    pub fn bus(&self) -> (r: &EventBus)
        ensures
            *r == self.events_bus(),
    {
        &self.bus
    }

    /// Routable capability providers, optionally of one capability.
    pub fn discover(&self, capability: Option<&str>) -> (r: Vec<ProviderInfo>)
        requires
            self.wf(),
        ensures
            crate::discover::key_sorted(crate::discover::pviews(r@)),
            crate::discover::pviews(r@).to_multiset() == crate::discover::all_caps(
                self.reg().records(),
                crate::registry::opt_view(capability),
            ).to_multiset(),
    {
        discover_providers(&self.registry, capability)
    }
}

/// What `apply_binding_proposal` does with `proposal` to a Host `before`, leaving
/// `after` and answering `r`.
pub open spec fn proposal_outcome(before: Host, after: Host, proposal: BindingProposal, r: Result<BindingApplyResult>) -> bool {
    &&& after.reg() == before.reg()
    &&& after.gate() == before.gate()
    &&& refusal(before.live().current_generation(), proposal) is Some ==> (r matches Ok(res) && res
        matches BindingApplyResult::Rejected { reason } && reason@ == refusal(
        before.live().current_generation(),
        proposal,
    )->0) && after.live().items() == before.live().items() && after.live().current_generation()
        == before.live().current_generation()
    &&& refusal(before.live().current_generation(), proposal) is None ==> {
        &&& r is Ok <==> crate::manifest::binding_proposal::proposal_problem(proposal) is None
            && crate::binding::all_pairs_ok(before.reg().records(), proposal.spec.bindings@)
        &&& r is Ok ==> (r matches Ok(res) && res matches BindingApplyResult::Applied { generation }
            && generation == proposal.metadata.generation) && after.live().current_generation()
            == proposal.metadata.generation && edge_views(after.live().items()) == proposed_views(proposal.spec.bindings@)
        &&& r is Err ==> after.live() == before.live()
    }
}

/// What registering `cell`, read from `path`, as `instance_id` does to a Host
/// `before`: the Cell's directory is remembered (the parent of `path`, when it has
/// one), then the Cell is registered as `register_cell` registers it.
pub open spec fn registered_from(
    before: Host,
    after: Host,
    instance_id: Seq<char>,
    path: Seq<char>,
    cell: CellManifest,
    r: Result<()>,
) -> bool {
    let n = cell.metadata.name@;
    &&& match crate::paths::parent_of(path) {
        Some(d) => after.dirs().contains_key(n) && after.dirs()[n]@ == d && after.dirs().remove(n) == before.dirs().remove(n),
        None => after.dirs() == before.dirs(),
    }
    &&& r is Ok <==> crate::registry::id_index(before.reg().records(), instance_id) < 0 && name_index(
        before.reg().records(),
        n,
    ) < 0
    &&& r is Err ==> after.reg().records() == before.reg().records()
    &&& r is Ok ==> exists|p: int|
        0 <= p <= before.reg().records().len() && after.reg().records() == before.reg().records().insert(
            p,
            after.reg().records()[p],
        ) && after.reg().records()[p].instance_id@ == instance_id && after.reg().records()[p].manifest == cell
            && after.reg().records()[p].lifecycle.current() == CellState::Discovered
}

/// No record of `recs` but the one named `n` has instance id `id`.
pub open spec fn id_free_but(recs: Seq<CellRecord>, id: Seq<char>, n: Seq<char>) -> bool {
    forall|j: int| 0 <= j < recs.len() && (#[trigger] recs[j]).instance_id@ == id ==> crate::registry::rec_name(recs[j]) == n
}

/// What loading `m`, read from the package in `dir`, does to a Host `before`.
pub open spec fn loaded_from(
    before: Host,
    after: Host,
    dir: Seq<char>,
    replace: bool,
    m: CellManifest,
    r: Result<(String, CellState)>,
) -> bool {
    let n = m.metadata.name@;
    let id = n + "@"@ + m.metadata.version@;
    &&& after.gate() == before.gate()
    &&& known(before.reg(), n) && !replace ==> (r matches Err(e) && is_validation(
        e,
        "cell `"@ + n + "` already loaded (pass replace=true to reload)"@,
    )) && after.reg() == before.reg() && after.live() == before.live() && after.dirs() == before.dirs()
    &&& !replace ==> after.live() == before.live()
    &&& r is Ok <==> (!known(before.reg(), n) || replace) && id_free_but(before.reg().records(), id, n) && admits(
        before.gate(),
        m,
    ) && m.spec.runtime.kind != RuntimeKind::Wasi
    &&& r matches Ok((nm, s)) ==> nm@ == n && s == CellState::Active && known(after.reg(), n) && after.dirs().contains_key(n)
        && after.dirs()[n]@ == dir
}

/// In records with unique names, the one named `n` at `i` is where `name_index` points.
pub proof fn lemma_name_at(recs: Seq<CellRecord>, n: Seq<char>, i: int)
    requires
        crate::registry::names_unique(recs),
        0 <= i < recs.len(),
        crate::registry::rec_name(recs[i]) == n,
    ensures
        name_index(recs, n) == i,
{
    let k = name_index(recs, n);
    assert(crate::registry::rec_name(recs[i]) == n);
    if k != i {
        assert(crate::registry::rec_name(recs[k]) != crate::registry::rec_name(recs[i]));
    }
}

/// Without a record named `n`, an id is free exactly when no record holds it.
pub proof fn lemma_free_ids(recs: Seq<CellRecord>, id: Seq<char>, n: Seq<char>)
    requires
        name_index(recs, n) < 0,
    ensures
        crate::registry::id_index(recs, id) < 0 <==> id_free_but(recs, id, n),
{
    if crate::registry::id_index(recs, id) >= 0 {
        let k = crate::registry::id_index(recs, id);
        assert(recs[k].instance_id@ == id);
        assert(crate::registry::rec_name(recs[k]) != n);
    }
}

/// After taking out the record named `n` at `i`, an id is free exactly when only
/// that record held it.
pub proof fn lemma_removed_ids(recs0: Seq<CellRecord>, recs2: Seq<CellRecord>, i: int, id: Seq<char>, n: Seq<char>)
    requires
        crate::registry::names_unique(recs0),
        0 <= i < recs0.len(),
        crate::registry::rec_name(recs0[i]) == n,
        recs2.len() == recs0.len() - 1,
        forall|j: int|
            0 <= j < recs2.len() ==> crate::registry::rec_name(#[trigger] recs2[j]) != n && recs2[j] == recs0[if j
                < i {
                j
            } else {
                j + 1
            }],
    ensures
        crate::registry::id_index(recs2, id) < 0 <==> id_free_but(recs0, id, n),
{
    if crate::registry::id_index(recs2, id) >= 0 {
        let k = crate::registry::id_index(recs2, id);
        assert(recs2[k].instance_id@ == id);
        let k0 = if k < i { k } else { k + 1 };
        assert(recs0[k0] == recs2[k]);
    } else {
        assert forall|j: int| 0 <= j < recs0.len() && (#[trigger] recs0[j]).instance_id@ == id implies crate::registry::rec_name(
            recs0[j],
        ) == n by {
            if j != i {
                let j2 = if j < i { j } else { j - 1 };
                assert(recs2[j2] == recs0[j]);
            }
        }
    }
}

/// What `Host::invoke` does: routes `request` for `capability` from `consumer` to the bound provider.
pub open spec fn invoke_outcome(before: Host, after: Host, consumer: Seq<char>, capability: Seq<char>, request: Envelope, r: Result<Envelope>) -> bool {
    &&& after.reg() == before.reg()
    &&& after.live() == before.live()
    &&& after.gate() == before.gate()
    &&& crate::binding::first_edge(before.live().items(), consumer, capability) < 0 ==> (r matches Err(e)
        && is_binding(e, "no binding for consumer `"@ + consumer + "` capability `"@ + capability + "`"@))
    &&& crate::binding::first_edge(before.live().items(), consumer, capability) >= 0 ==> {
        let p = before.live().items()[crate::binding::first_edge(
            before.live().items(),
            consumer,
            capability,
        )].provider@;
        &&& !known(before.reg(), p) ==> (r matches Err(e) && is_not_found(e, p))
        &&& known(before.reg(), p) && !routable(rec_state(record_of(before.reg(), p))) ==> (r matches Err(e)
            && is_binding(
            e,
            "provider `"@ + p + "` not routable ("@ + crate::lifecycle::state_name(
                rec_state(record_of(before.reg(), p)),
            ) + ")"@,
        ))
        &&& known(before.reg(), p) && routable(rec_state(record_of(before.reg(), p))) && routed_problem(
            request,
            capability,
        ) is Some ==> (r matches Err(e) && crate::error::is_validation(e, routed_problem(request, capability)->0))
        &&& known(before.reg(), p) && routable(rec_state(record_of(before.reg(), p))) && routed_problem(
            request,
            capability,
        ) is None ==> executor_outcome(
            before,
            p,
            record_of(before.reg(), p).manifest.spec.runtime.kind,
            request,
            capability,
            r,
        )
    }
}

/// What `Host::unload_cell` does: stops the Cell named `name` and removes it with its directory, executors and bindings.
pub open spec fn unload_outcome(before: Host, after: Host, name: Seq<char>, r: Result<CellState>) -> bool {
    &&& after.gate() == before.gate()
    &&& !known(before.reg(), name) ==> (r matches Err(e) && is_not_found(e, name)) && after.reg()
        == before.reg() && after.live() == before.live()
    &&& known(before.reg(), name) && rec_state(record_of(before.reg(), name)) == CellState::Staged ==> r is Err
        && after.reg().records() == before.reg().records() && after.live() == before.live()
    &&& known(before.reg(), name) && rec_state(record_of(before.reg(), name)) != CellState::Staged ==> {
        &&& r == Ok::<CellState, Error>(stopped_from(rec_state(record_of(before.reg(), name))))
        &&& after.reg().records() == before.reg().records().remove(
            name_index(before.reg().records(), name),
        )
        &&& !known(after.reg(), name)
        &&& !after.dirs().contains_key(name)
        &&& !after.inproc().has(name)
        &&& !after.subproc().specs().contains_key(name)
        &&& !after.wasm().specs().contains_key(name)
        &&& after.live().items() == crate::binding::without_cell(before.live().items(), name)
    }
}

/// What `Host::load_cell_dir` does: reads `cell.yaml` in `dir` and loads it.
pub open spec fn load_dir_outcome(before: Host, after: Host, dir: Seq<char>, replace: bool, r: Result<(String, CellState)>) -> bool {
    &&& after.gate() == before.gate()
    &&& !replace ==> after.live() == before.live()
    &&& r matches Ok((n, s)) ==> known(after.reg(), n@) && s == CellState::Active && after.dirs().contains_key(
        n@,
    ) && after.dirs()[n@]@ == dir
    &&& !before.has_env() ==> (r matches Err(Error::Io(m)) && m@ == "no host environment to read files"@)
        && after.reg() == before.reg() && after.dirs() == before.dirs()
    &&& before.has_env() ==> (r is Err && after.reg() == before.reg() && after.dirs() == before.dirs()) || exists|m: CellManifest| #[trigger] loaded_from(before, after, dir, replace, m, r)
}

/// What `Host::apply_binding_proposal_path` does: reads the proposal at `path` and applies it.
pub open spec fn apply_path_outcome(before: Host, after: Host, path: Seq<char>, r: Result<BindingApplyResult>) -> bool {
    &&& after.reg() == before.reg()
    &&& after.gate() == before.gate()
    &&& r matches Ok(BindingApplyResult::Rejected { .. }) ==> after.live().items() == before.live().items()
    &&& r is Err ==> after.live() == before.live()
    &&& !before.has_env() ==> (r matches Err(Error::Io(m)) && m@ == "no host environment to read files"@)
    &&& before.has_env() ==> (r is Err && after.live() == before.live()) || exists|p: BindingProposal|
        #[trigger] proposal_outcome(before, after, p, r)
}

/// What `Host::auto_bind` does: proposes the automatic bindings and, when `apply` and they change something, applies them.
pub open spec fn auto_bind_outcome(before: Host, after: Host, apply: bool, include_optional: bool, r: Result<(BindingProposal, Option<BindingApplyResult>)>) -> bool {
    &&& after.reg() == before.reg()
    &&& after.gate() == before.gate()
    &&& r matches Ok((p, applied)) ==> {
        &&& proposed_views(p.spec.bindings@) == crate::autobind::auto_edges(
            edge_views(before.live().items()),
            before.reg().records(),
            include_optional,
        )
        &&& p.metadata.generation == before.live().current_generation() + 1
        &&& p.spec.replace_generation == Some(before.live().current_generation())
        &&& applied is None <==> (!apply || !would_change(before.live().items(), p.spec.bindings@))
        &&& applied is None ==> after.live() == before.live()
        &&& applied matches Some(BindingApplyResult::Applied { generation }) ==> generation
            == p.metadata.generation && after.live().current_generation() == generation
            && edge_views(after.live().items()) == proposed_views(p.spec.bindings@)
    }
    &&& r is Err ==> apply && after.live() == before.live()
}

/// What `Host::propose_from_cell` does: asks the Cell `cell_name` for a binding proposal and, when `apply`, applies it.
pub open spec fn propose_from_outcome(before: Host, after: Host, cell_name: Seq<char>, apply: bool, r: Result<(BindingProposal, Option<BindingApplyResult>)>) -> bool {
    &&& after.reg() == before.reg()
    &&& after.gate() == before.gate()
    &&& !known(before.reg(), cell_name) ==> (r matches Err(e) && is_not_found(e, cell_name))
    &&& known(before.reg(), cell_name) && !routable(rec_state(record_of(before.reg(), cell_name))) ==> (r
        matches Err(e) && is_binding(
        e,
        "cell `"@ + cell_name + "` not routable ("@ + crate::lifecycle::state_name(
            rec_state(record_of(before.reg(), cell_name)),
        ) + ")"@,
    ))
    &&& known(before.reg(), cell_name) && routable(rec_state(record_of(before.reg(), cell_name))) && !offers(
        record_of(before.reg(), cell_name).manifest,
        "binding-propose"@,
    ) ==> (r matches Err(e) && crate::error::is_validation(
        e,
        "cell `"@ + cell_name + "` does not provide binding-propose"@,
    ))
    &&& r matches Ok((p, applied)) ==> {
        &&& crate::manifest::binding_proposal::proposal_problem(p) is None
        &&& applied is None <==> !apply
        &&& applied is None ==> after.live() == before.live()
    }
    &&& r matches Ok((p, Some(a))) ==> proposal_outcome(before, after, p, Ok(a))
}

/// What activating the Cell `name` announces on the bus: its new state, then each
/// capability it provides, in order.
pub open spec fn activation_events(name: Seq<char>, provides: Seq<crate::manifest::cell::Capability>) -> Seq<BusView> {
    seq![BusView::CellState(name, CellState::Active)] + provides.map_values(
        |c: crate::manifest::cell::Capability| BusView::CapabilityAvailable(name, c.name@, c.version@),
    )
}

/// The live edge `b` cannot be restored over `recs`: a field is empty, or the pair
/// cannot be bound.
pub open spec fn restore_blocked(recs: Seq<CellRecord>, b: ActiveBinding) -> bool {
    ||| b.consumer@.len() == 0
    ||| b.provider@.len() == 0
    ||| b.capability@.len() == 0
    ||| crate::binding::pair_problem(
        recs,
        ProposedBinding { consumer: b.consumer, provider: b.provider, capability: b.capability, required: b.required },
    ) is Some
}

/// Cell `i` is the first of `cells` with its name.
pub open spec fn first_listed(cells: Seq<crate::manifest::aiman::CellRef>, i: int) -> bool {
    forall|j: int| 0 <= j < i ==> (#[trigger] cells[j]).name@ != cells[i].name@
}

/// The first Cell of `cells` named `n` must start: it is not optional.
pub open spec fn required_at(cells: Seq<crate::manifest::aiman::CellRef>, n: Seq<char>) -> bool {
    exists|j: int| 0 <= j < cells.len() && (#[trigger] cells[j]).name@ == n && first_listed(cells, j) && !cells[j].optional
}

/// The names of a list of strings.
pub open spec fn views_of(v: Seq<String>) -> Seq<Seq<char>> {
    v.map_values(|s: String| s@)
}

/// The Cell of record `rec` can be activated under `gate`: admitted, on the
/// activation path, and not WASI (this build has no engine).
pub open spec fn activation_ok(gate: PolicyGate, rec: CellRecord) -> bool {
    &&& admits(gate, rec.manifest)
    &&& crate::lifecycle::path_index(rec_state(rec)) >= 0
    &&& rec.manifest.spec.runtime.kind != RuntimeKind::Wasi
}

/// Every Cell other than `n` known in `before` is known in `after` with the same record.
pub open spec fn keeps_others(before: LocalRegistry, after: LocalRegistry, n: Seq<char>) -> bool {
    forall|k: Seq<char>| k != n && #[trigger] known(before, k) ==> known(after, k) && record_of(after, k) == record_of(before, k)
}

/// After inserting a record at `p`, a record named other than the inserted one is still found.
pub proof fn lemma_record_kept_insert(before: Seq<CellRecord>, after: Seq<CellRecord>, p: int, k: Seq<char>)
    requires
        0 <= p <= before.len(),
        after == before.insert(p, after[p]),
        crate::registry::names_unique(after),
        rec_name(after[p]) != k,
        name_index(before, k) >= 0,
    ensures
        name_index(after, k) >= 0,
        after[name_index(after, k)] == before[name_index(before, k)],
{
    let i = name_index(before, k);
    let j = if i < p { i } else { i + 1 };
    assert(after[j] == before[i]);
    assert(rec_name(before[i]) == k);
    lemma_name_at(after, k, j);
}

/// `v` is taken from `o` in order: its entries sit at the increasing positions `idx`.
pub open spec fn in_order_of(v: Seq<Seq<char>>, o: Seq<Seq<char>>, idx: Seq<int>) -> bool {
    &&& idx.len() == v.len()
    &&& forall|k: int| 0 <= k < idx.len() ==> 0 <= #[trigger] idx[k] < o.len() && o[idx[k]] == v[k]
    &&& forall|a: int, b: int| 0 <= a < b < idx.len() ==> #[trigger] idx[a] < #[trigger] idx[b]
}

/// How many entries of `s` are true.
pub open spec fn count_true(s: Seq<bool>) -> nat
    decreases s.len(),
{
    if s.len() == 0 {
        0
    } else {
        count_true(s.drop_last()) + if s.last() {
            1nat
        } else {
            0nat
        }
    }
}

/// What was found for recorded entry `i`: nothing when the list is shorter.
pub open spec fn found_at(found: Seq<Option<Result<CellManifest>>>, i: int) -> Option<Result<CellManifest>> {
    if 0 <= i < found.len() {
        found[i]
    } else {
        None
    }
}

/// The newest audit event is a failed restore of `name` with text `detail`.
pub open spec fn restore_failure_recorded(h: Host, name: Seq<char>, detail: Seq<char>) -> bool {
    &&& h.trail().kept().len() > 0
    &&& h.trail().kept().last().kind == AuditKind::InvokeFailed
    &&& h.trail().kept().last().cell matches Some(c) && c@ == name
    &&& h.trail().kept().last().detail@ == detail
}

/// Loading the manifest `m` for a recorded entry went as `load_cell_manifest` says,
/// with outcome `res`; `loaded` tells whether it succeeded, and a failure is recorded.
pub open spec fn restore_loaded(before: Host, after: Host, name: Seq<char>, m: CellManifest, res: Result<(String, CellState)>, loaded: bool) -> bool {
    &&& loaded == res is Ok
    &&& res matches Err(e) ==> restore_failure_recorded(
        after,
        name,
        "restore load failed: "@ + (crate::error::error_prefix(e) + crate::error::error_detail(e)),
    )
}

/// One recorded entry `name` in directory `path` restored: a registered name is left
/// alone; a missing file or a failed read is recorded; a manifest read is loaded (as
/// `load_cell_manifest` with no replacing), a failure recorded. `loaded` tells
/// whether the Cell was loaded.
#[verifier::opaque]
pub open spec fn restore_step(before: Host, after: Host, name: Seq<char>, path: Seq<char>, found: Option<Result<CellManifest>>, loaded: bool) -> bool {
    &&& after.gate() == before.gate()
    &&& after.live() == before.live()
    &&& known(before.reg(), name) ==> !loaded && after.reg() == before.reg() && after.dirs() == before.dirs()
    &&& !known(before.reg(), name) ==> match found {
        None => !loaded && after.reg() == before.reg() && after.dirs() == before.dirs() && restore_failure_recorded(
            after,
            name,
            "restore skip missing "@ + path,
        ),
        Some(Err(e)) => !loaded && after.reg() == before.reg() && after.dirs() == before.dirs()
            && restore_failure_recorded(
            after,
            name,
            "restore load failed: "@ + (crate::error::error_prefix(e) + crate::error::error_detail(e)),
        ),
        Some(Ok(m)) => exists|res: Result<(String, CellState)>|
            #[trigger] loaded_from(before, after, path, false, m, res) && restore_loaded(before, after, name, m, res, loaded),
    }
}

/// `hs` walks from `first` to `last` one recorded entry at a time, `flags` telling
/// which entries were loaded.
pub open spec fn restore_chain(
    first: Host,
    last: Host,
    dirs: Seq<(String, String)>,
    found: Seq<Option<Result<CellManifest>>>,
    hs: Seq<Host>,
    flags: Seq<bool>,
) -> bool {
    &&& hs.len() == dirs.len() + 1
    &&& flags.len() == dirs.len()
    &&& hs[0] == first
    &&& hs[dirs.len() as int] == last
    &&& forall|j: int|
        0 <= j < dirs.len() ==> restore_step(#[trigger] hs[j], hs[j + 1], dirs[j].0@, dirs[j].1@, found_at(found, j), flags[j])
}

/// Restoring the recorded entries `dirs`, with `found` read for them, took a Host
/// with `before`'s Cells, directories and bindings (and the merged grants of
/// `after`) one entry at a time to `after`'s Cells and directories, loading `n`
/// of them.
pub open spec fn restore_run(before: Host, after: Host, dirs: Seq<(String, String)>, found: Seq<Option<Result<CellManifest>>>, n: nat) -> bool {
    exists|first: Host, last: Host, hs: Seq<Host>, flags: Seq<bool>|
        #[trigger] restore_chain(first, last, dirs, found, hs, flags) && first.reg() == before.reg() && first.dirs()
            == before.dirs() && first.live() == before.live() && first.gate() == after.gate() && last.reg()
            == after.reg() && last.dirs() == after.dirs() && n == count_true(flags)
}

/// The state after `drain_and_stop` from `s` (other than `Staged`).
pub open spec fn stopped_from(s: CellState) -> CellState {
    if s == CellState::Failed || s == CellState::RolledBack {
        s
    } else {
        CellState::Stopped
    }
}

impl Host {
    /// Writes durable state when persistence is on and a path and a file system are
    /// set; failures are ignored.
    fn maybe_save_state(&self)
        requires
            self.wf(),
    {
        let _ = self.save_state();
    }

    /// Writes durable state when persistence is on and a path is set.
    pub fn save_state(&self) -> (r: Result<()>)
        requires
            self.wf(),
        ensures
            !self.persist().1 ==> r is Ok,
            self.persist().0 is None ==> r is Ok,
            self.persist().1 && self.persist().0 is Some && !self.has_env() ==> (r matches Err(Error::Io(m)) && m@
                == "no host environment to write state"@),
    {
        if !self.persist_enabled {
            return Ok(());
        }
        let path = match &self.persist_path {
            Some(p) => p,
            None => {
                return Ok(());
            },
        };
        let state = self.export_state();
        match &self.env {
            Some(env) => env.save_state(path.as_str(), &state),
            None => Err(Error::Io(owned("no host environment to write state"))),
        }
    }

    /// The durable state: Cell directories, bindings and grants.
    pub fn export_state(&self) -> (r: HostStateFile)
        requires
            self.wf(),
        ensures
            r.schema@ == crate::state::host_state_schema(),
            r.bindings.generation == self.live().current_generation(),
            r.bindings.items@ == self.live().items(),
            r.policy.default_allow == self.gate().default_allow,
            r.policy.granted_network@ == self.gate().granted_network@,
            r.policy.granted_process@ == self.gate().granted_process@,
            r.policy.granted_filesystem@ == self.gate().granted_filesystem@,
            r.policy.granted_secrets@ == self.gate().granted_secrets@,
            r.policy.granted_peers@ == self.gate().granted_peers@,
            r.cell_dirs@.len() == self.dir_names().len(),
            crate::table::strictly_by_name(r.cell_dirs@),
            forall|i: int|
                0 <= i < r.cell_dirs@.len() ==> self.dirs().contains_key((#[trigger] r.cell_dirs@[i]).0@)
                    && r.cell_dirs@[i].1@ == self.dirs()[r.cell_dirs@[i].0@]@,
    {
        let dirs = self.cell_dirs.pairs_by_name();
        let items = self.bindings.duplicate();
        HostStateFile {
            schema: crate::state::host_state_schema_text(),
            cell_dirs: dirs,
            bindings: HostStateBindings { generation: self.bindings.generation(), items: items.into_items() },
            policy: HostStatePolicy {
                default_allow: self.policy.default_allow,
                granted_network: copy_texts(&self.policy.granted_network),
                granted_process: copy_texts(&self.policy.granted_process),
                granted_filesystem: copy_texts(&self.policy.granted_filesystem),
                granted_secrets: copy_texts(&self.policy.granted_secrets),
                granted_peers: copy_texts(&self.policy.granted_peers),
            },
        }
    }

    /// Grants processes, network targets and paths for this session, recording each
    /// grant on the audit trail.
    pub fn grant_many(&mut self, process: Vec<String>, network: Vec<String>, filesystem: Vec<String>)
        requires
            old(self).wf(),
        ensures
            final(self).wf(),
            crate::policy::texts(final(self).gate().granted_process@) == with_all(
                crate::policy::texts(old(self).gate().granted_process@),
                crate::policy::texts(process@),
            ),
            crate::policy::texts(final(self).gate().granted_network@) == with_all(
                crate::policy::texts(old(self).gate().granted_network@),
                crate::policy::texts(network@),
            ),
            crate::policy::texts(final(self).gate().granted_filesystem@) == with_all(
                crate::policy::texts(old(self).gate().granted_filesystem@),
                crate::policy::texts(filesystem@),
            ),
            final(self).gate().default_allow == old(self).gate().default_allow,
            final(self).gate().granted_secrets == old(self).gate().granted_secrets,
            final(self).gate().granted_peers == old(self).gate().granted_peers,
            final(self).reg() == old(self).reg(),
            final(self).live() == old(self).live(),
            final(self).inproc() == old(self).inproc(),
            final(self).subproc() == old(self).subproc(),
            final(self).wasm() == old(self).wasm(),
            final(self).dirs() == old(self).dirs(),
            final(self).dir_names() == old(self).dir_names(),
            final(self).aliases() == old(self).aliases(),
            final(self).persist() == old(self).persist(),
            final(self).has_env() == old(self).has_env(),
    {
        let mut i: usize = 0;
        assert(process@.take(0) =~= Seq::<String>::empty());
        while i < process.len()
            invariant
                self.wf(),
                i <= process@.len(),
                crate::policy::texts(self.policy.granted_process@) == with_all(
                    crate::policy::texts(old(self).policy.granted_process@),
                    crate::policy::texts(process@.take(i as int)),
                ),
                self.policy.default_allow == old(self).policy.default_allow,
                self.policy.granted_network == old(self).policy.granted_network,
                self.policy.granted_filesystem == old(self).policy.granted_filesystem,
                self.policy.granted_secrets == old(self).policy.granted_secrets,
                self.policy.granted_peers == old(self).policy.granted_peers,
                self.registry == old(self).registry,
                self.bindings == old(self).bindings,
                self.inprocess == old(self).inprocess,
                self.subprocess == old(self).subprocess,
                self.wasi == old(self).wasi,
                self.cell_dirs == old(self).cell_dirs,
                self.program_aliases == old(self).program_aliases,
                self.persist_path == old(self).persist_path,
                self.persist_enabled == old(self).persist_enabled,
                self.env == old(self).env,
            decreases process@.len() - i,
        {
            let g = &process[i];
            self.policy.grant_process(g.clone());
            self.audit.record(AuditKind::PolicyGrant, None, join2("process:", g.as_str()));
            proof {
                assert(crate::policy::texts(process@.take(i + 1)).drop_last() =~= crate::policy::texts(process@.take(i as int)));
                assert(crate::policy::texts(process@.take(i + 1)).last() == g@);
            }
            i = i + 1;
        }
        assert(process@.take(process@.len() as int) =~= process@);
        let mut i: usize = 0;
        assert(network@.take(0) =~= Seq::<String>::empty());
        while i < network.len()
            invariant
                self.wf(),
                i <= network@.len(),
                crate::policy::texts(self.policy.granted_network@) == with_all(
                    crate::policy::texts(old(self).policy.granted_network@),
                    crate::policy::texts(network@.take(i as int)),
                ),
                crate::policy::texts(self.policy.granted_process@) == with_all(
                    crate::policy::texts(old(self).policy.granted_process@),
                    crate::policy::texts(process@),
                ),
                self.policy.default_allow == old(self).policy.default_allow,
                self.policy.granted_filesystem == old(self).policy.granted_filesystem,
                self.policy.granted_secrets == old(self).policy.granted_secrets,
                self.policy.granted_peers == old(self).policy.granted_peers,
                self.registry == old(self).registry,
                self.bindings == old(self).bindings,
                self.inprocess == old(self).inprocess,
                self.subprocess == old(self).subprocess,
                self.wasi == old(self).wasi,
                self.cell_dirs == old(self).cell_dirs,
                self.program_aliases == old(self).program_aliases,
                self.persist_path == old(self).persist_path,
                self.persist_enabled == old(self).persist_enabled,
                self.env == old(self).env,
            decreases network@.len() - i,
        {
            let g = &network[i];
            self.policy.grant_network(g.clone());
            self.audit.record(AuditKind::PolicyGrant, None, join2("network:", g.as_str()));
            proof {
                assert(crate::policy::texts(network@.take(i + 1)).drop_last() =~= crate::policy::texts(network@.take(i as int)));
                assert(crate::policy::texts(network@.take(i + 1)).last() == g@);
            }
            i = i + 1;
        }
        assert(network@.take(network@.len() as int) =~= network@);
        let mut i: usize = 0;
        assert(filesystem@.take(0) =~= Seq::<String>::empty());
        while i < filesystem.len()
            invariant
                self.wf(),
                i <= filesystem@.len(),
                crate::policy::texts(self.policy.granted_filesystem@) == with_all(
                    crate::policy::texts(old(self).policy.granted_filesystem@),
                    crate::policy::texts(filesystem@.take(i as int)),
                ),
                crate::policy::texts(self.policy.granted_process@) == with_all(
                    crate::policy::texts(old(self).policy.granted_process@),
                    crate::policy::texts(process@),
                ),
                crate::policy::texts(self.policy.granted_network@) == with_all(
                    crate::policy::texts(old(self).policy.granted_network@),
                    crate::policy::texts(network@),
                ),
                self.policy.default_allow == old(self).policy.default_allow,
                self.policy.granted_secrets == old(self).policy.granted_secrets,
                self.policy.granted_peers == old(self).policy.granted_peers,
                self.registry == old(self).registry,
                self.bindings == old(self).bindings,
                self.inprocess == old(self).inprocess,
                self.subprocess == old(self).subprocess,
                self.wasi == old(self).wasi,
                self.cell_dirs == old(self).cell_dirs,
                self.program_aliases == old(self).program_aliases,
                self.persist_path == old(self).persist_path,
                self.persist_enabled == old(self).persist_enabled,
                self.env == old(self).env,
            decreases filesystem@.len() - i,
        {
            let g = &filesystem[i];
            self.policy.grant_filesystem(g.clone());
            self.audit.record(AuditKind::PolicyGrant, None, join2("filesystem:", g.as_str()));
            proof {
                assert(crate::policy::texts(filesystem@.take(i + 1)).drop_last() =~= crate::policy::texts(filesystem@.take(i as int)));
                assert(crate::policy::texts(filesystem@.take(i + 1)).last() == g@);
            }
            i = i + 1;
        }
        assert(filesystem@.take(filesystem@.len() as int) =~= filesystem@);
        self.maybe_save_state();
    }

    /// Registers a Cell as `instance_id` (see `LocalRegistry::register`) and records
    /// it on the audit trail.
    pub fn register_cell(&mut self, instance_id: String, manifest: CellManifest) -> (r: Result<()>)
        requires
            old(self).wf(),
        ensures
            final(self).wf(),
            final(self).gate() == old(self).gate(),
            final(self).live() == old(self).live(),
            final(self).inproc() == old(self).inproc(),
            final(self).dirs() == old(self).dirs(),
            r is Err ==> final(self).reg().records() == old(self).reg().records(),
            r is Ok <==> crate::registry::id_index(old(self).reg().records(), instance_id@) < 0 && name_index(
                old(self).reg().records(),
                manifest.metadata.name@,
            ) < 0,
            r is Ok ==> exists|p: int|
                0 <= p <= old(self).reg().records().len() && final(self).reg().records()
                    == old(self).reg().records().insert(p, final(self).reg().records()[p])
                    && final(self).reg().records()[p].instance_id@ == instance_id@
                    && final(self).reg().records()[p].manifest == manifest
                    && final(self).reg().records()[p].lifecycle.current() == CellState::Discovered,
    {
        let name = manifest.metadata.name.clone();
        let ghost iid = instance_id@;
        let ghost m = manifest;
        self.registry.register(instance_id, manifest)?;
        let ghost recs = self.registry.records();
        assert(exists|p: int|
            0 <= p <= old(self).registry.records().len() && recs == old(self).registry.records().insert(p, recs[p])
                && recs[p].instance_id@ == iid && recs[p].manifest == m && recs[p].lifecycle.current()
                == CellState::Discovered);
        self.audit.record(AuditKind::Registered, Some(name), owned("cell registered"));
        proof {
            let p = choose|p: int|
                0 <= p <= old(self).registry.records().len() && recs == old(self).registry.records().insert(p, recs[p])
                    && recs[p].instance_id@ == iid && recs[p].manifest == m && recs[p].lifecycle.current()
                    == CellState::Discovered;
            assert(self.reg().records() == recs);
            assert(0 <= p <= old(self).reg().records().len() && self.reg().records() == old(self).reg().records().insert(
                p,
                self.reg().records()[p],
            ) && self.reg().records()[p].instance_id@ == iid && self.reg().records()[p].manifest == m
                && self.reg().records()[p].lifecycle.current() == CellState::Discovered);
        }
        Ok(())
    }

    /// Admission of the registered Cell `name` by the policy gate.
    pub fn admit_cell(&self, name: &str) -> (r: Result<AdmissionDecision>)
        requires
            self.wf(),
        ensures
            !known(self.reg(), name@) ==> (r matches Err(e) && is_not_found(e, name@)),
            known(self.reg(), name@) ==> (r is Ok <==> admits(self.gate(), record_of(self.reg(), name@).manifest)),
            known(self.reg(), name@) && !admits(self.gate(), record_of(self.reg(), name@).manifest) ==> (r matches Err(e)
                && e matches Error::PolicyDenied(m) && m@ == "cell `"@ + record_of(self.reg(), name@).manifest.metadata.name@
                + "` needs approval for: "@ + crate::policy::joined(
                denied_list(self.gate(), record_of(self.reg(), name@).manifest),
                ", "@,
            )),
            r matches Ok(d) ==> d.admitted,
    {
        let rec = match self.registry.by_name(name) {
            Some(r) => r,
            None => {
                return Err(Error::NotFound(owned(name)));
            },
        };
        self.policy.admit_cell(&rec.manifest)
    }

    /// Drains and stops the Cell `name`, recording it on the audit trail and the bus.
    pub fn stop_cell(&mut self, name: &str) -> (r: Result<CellState>)
        requires
            old(self).wf(),
        ensures
            final(self).wf(),
            final(self).gate() == old(self).gate(),
            final(self).live() == old(self).live(),
            final(self).inproc() == old(self).inproc(),
            final(self).subproc() == old(self).subproc(),
            final(self).wasm() == old(self).wasm(),
            !known(old(self).reg(), name@) ==> (r matches Err(e) && is_not_found(e, name@)) && final(self).reg()
                == old(self).reg(),
            known(old(self).reg(), name@) ==> {
                let i = name_index(old(self).reg().records(), name@);
                let before = old(self).reg().records()[i];
                &&& r is Err <==> rec_state(before) == CellState::Staged
                &&& r is Err ==> final(self).reg().records() == old(self).reg().records()
                &&& r is Ok ==> {
                    &&& r == Ok::<CellState, Error>(stopped_from(rec_state(before)))
                    &&& final(self).reg().records().len() == old(self).reg().records().len()
                    &&& forall|j: int|
                        0 <= j < old(self).reg().records().len() && j != i ==> #[trigger] final(self).reg().records()[j]
                            == old(self).reg().records()[j]
                    &&& final(self).reg().records()[i].instance_id == before.instance_id
                    &&& final(self).reg().records()[i].manifest == before.manifest
                    &&& rec_state(final(self).reg().records()[i]) == stopped_from(rec_state(before))
                }
            },
    {
        let ghost i = name_index(self.registry.records(), name@);
        let rec = match self.registry.by_name_mut(name) {
            Some(r) => r,
            None => {
                return Err(Error::NotFound(owned(name)));
            },
        };
        proof {
            assert(crate::registry::record_wf(old(self).registry.records()[i]));
        }
        rec.lifecycle.drain_and_stop()?;
        let state = rec.state();
        proof {
            let recs = self.registry.records();
            assert forall|a: int| 0 <= a < recs.len() implies crate::registry::record_wf(#[trigger] recs[a]) by {
                if a != i {
                    assert(recs[a] == old(self).registry.records()[a]);
                }
            }
            assert forall|a: int, b: int|
                0 <= a < recs.len() && 0 <= b < recs.len() && a != b implies crate::registry::rec_name(
                #[trigger] recs[a],
            ) != crate::registry::rec_name(#[trigger] recs[b]) by {
                assert(crate::registry::rec_name(recs[a]) == crate::registry::rec_name(old(self).registry.records()[a]));
                assert(crate::registry::rec_name(recs[b]) == crate::registry::rec_name(old(self).registry.records()[b]));
            }
            assert forall|a: int, b: int| 0 <= a < b < recs.len() implies crate::text::text_lt(
                (#[trigger] recs[a]).instance_id@,
                (#[trigger] recs[b]).instance_id@,
            ) by {
                assert(recs[a].instance_id == old(self).registry.records()[a].instance_id);
                assert(recs[b].instance_id == old(self).registry.records()[b].instance_id);
            }
        }
        let shown = state.debug_name();
        self.audit.record(AuditKind::Stopped, Some(owned(name)), shown);
        self.bus.publish(BusEvent::CellState { cell: owned(name), state });
        Ok(state)
    }

    /// Drops every executor registration of `name`.
    pub fn forget_cell_runtime(&mut self, name: &str)
        requires
            old(self).wf(),
        ensures
            final(self).wf(),
            !final(self).inproc().has(name@),
            final(self).subproc().specs() == old(self).subproc().specs().remove(name@),
            final(self).wasm().specs() == old(self).wasm().specs().remove(name@),
            final(self).reg() == old(self).reg(),
            final(self).live() == old(self).live(),
            final(self).gate() == old(self).gate(),
            final(self).dirs() == old(self).dirs(),
    {
        let _ = self.inprocess.remove(name);
        let _ = self.subprocess.remove(name);
        let _ = self.wasi.remove(name);
    }

    /// Drops the bindings that mention `name`; when any were dropped, records the new
    /// generation on the audit trail and the bus.
    fn detach_bindings_for_cell(&mut self, name: &str)
        requires
            old(self).wf(),
        ensures
            final(self).wf(),
            final(self).live().items() == crate::binding::without_cell(old(self).live().items(), name@),
            crate::binding::without_cell(old(self).live().items(), name@).len() != old(self).live().items().len()
                ==> final(self).live().current_generation() == crate::binding::bumped(
                old(self).live().current_generation(),
            ),
            crate::binding::without_cell(old(self).live().items(), name@).len() == old(self).live().items().len()
                ==> final(self).live().current_generation() == old(self).live().current_generation(),
            final(self).reg() == old(self).reg(),
            final(self).gate() == old(self).gate(),
            final(self).inproc() == old(self).inproc(),
            final(self).subproc() == old(self).subproc(),
            final(self).wasm() == old(self).wasm(),
            final(self).dirs() == old(self).dirs(),
    {
        if self.bindings.retain_without_cell(name) {
            let generation = self.bindings.generation();
            let count = self.bindings.bindings().len();
            let g = decimal_text(generation);
            let c = decimal_text(count as u64);
            let detail = join4("detach bindings generation=", g.as_str(), " count=", c.as_str());
            self.audit.record(AuditKind::BindingApplied, Some(owned(name)), detail);
            self.bus.publish(BusEvent::BindingChanged { generation, count });
        }
    }

    /// Stops the Cell `name` and removes it: its record, directory, executor
    /// registrations and every binding that mentions it.
    pub fn unload_cell(&mut self, name: &str) -> (r: Result<CellState>)
        requires
            old(self).wf(),
        ensures
            final(self).wf(),
            unload_outcome(*old(self), *final(self), name@, r),
    {
        let ghost i = name_index(self.registry.records(), name@);
        let state = self.stop_cell(name)?;
        let ghost mid = self.registry.records();
        proof {
            assert(name_index(mid, name@) == i) by {
                assert(crate::registry::rec_name(mid[i]) == name@);
                assert(crate::registry::names_unique(mid));
                let k = name_index(mid, name@);
                if k != i {
                    assert(crate::registry::rec_name(mid[k]) == name@);
                }
            }
        }
        let removed = self.registry.remove_by_name(name);
        let _ = self.cell_dirs.remove(name);
        self.forget_cell_runtime(name);
        self.detach_bindings_for_cell(name);
        self.audit.record(AuditKind::Stopped, Some(owned(name)), owned("unloaded"));
        self.maybe_save_state();
        proof {
            let recs = self.registry.records();
            assert(recs =~= old(self).registry.records().remove(i)) by {
                assert forall|j: int| 0 <= j < recs.len() implies recs[j] == old(self).registry.records().remove(i)[j] by {
                    let oj = if j < i { j } else { j + 1 };
                    assert(mid[oj] == old(self).registry.records()[oj]);
                }
            }
            if known(self.registry, name@) {
                let k = name_index(recs, name@);
                let oj = if k < i { k } else { k + 1 };
                assert(crate::registry::rec_name(old(self).registry.records()[oj]) == name@);
            }
        }
        proof {
            assert(known(old(self).registry, name@) ==> removed is Ok);
            assert(!self.cell_dirs.as_map().contains_key(name@));
            assert(!self.inprocess.has(name@));
            assert(!self.subprocess.specs().contains_key(name@));
            assert(!self.wasi.specs().contains_key(name@));
            assert(self.bindings.items() == crate::binding::without_cell(old(self).bindings.items(), name@));
        }
        match removed {
            Ok(_) => Ok(state),
            Err(e) => Err(e),
        }
    }

    /// Applies a binding proposal (see `apply_proposal`). An applied generation
    /// replaces the live bindings and is announced on the bus; either outcome is
    /// recorded on the audit trail.
    pub fn apply_binding_proposal(&mut self, proposal: BindingProposal) -> (r: Result<BindingApplyResult>)
        requires
            old(self).wf(),
        ensures
            final(self).wf(),
            final(self).reg() == old(self).reg(),
            final(self).gate() == old(self).gate(),
            final(self).inproc() == old(self).inproc(),
            final(self).dirs() == old(self).dirs(),
            refusal(old(self).live().current_generation(), proposal) is Some ==> (r matches Ok(res) && res
                matches BindingApplyResult::Rejected { reason } && reason@ == refusal(
                old(self).live().current_generation(),
                proposal,
            )->0) && final(self).live().items() == old(self).live().items()
                && final(self).live().current_generation() == old(self).live().current_generation(),
            refusal(old(self).live().current_generation(), proposal) is None ==> {
                &&& r is Ok <==> crate::manifest::binding_proposal::proposal_problem(proposal) is None
                    && crate::binding::all_pairs_ok(old(self).reg().records(), proposal.spec.bindings@)
                &&& r is Ok ==> (r matches Ok(res) && res matches BindingApplyResult::Applied { generation }
                    && generation == proposal.metadata.generation)
                    && final(self).live().current_generation() == proposal.metadata.generation
                    && edge_views(final(self).live().items()) == proposed_views(proposal.spec.bindings@)
                &&& r is Err ==> final(self).live() == old(self).live()
            },
    {
        let (next, result) = apply_proposal(&self.registry, &self.bindings, proposal)?;
        let applied = match &result {
            BindingApplyResult::Applied { generation } => {
                let count = next.bindings().len();
                let gen = *generation;
                self.bindings = next;
                let g = decimal_text(gen);
                let c = decimal_text(count as u64);
                self.audit.record(AuditKind::BindingApplied, None, join4("generation=", g.as_str(), " count=", c.as_str()));
                self.bus.publish(BusEvent::BindingChanged { generation: gen, count });
                true
            },
            BindingApplyResult::Rejected { reason } => {
                self.audit.record(AuditKind::BindingRejected, None, reason.clone());
                false
            },
        };
        if applied {
            self.maybe_save_state();
        }
        Ok(result)
    }
}

/// Copies of a list of strings.
fn copy_texts(v: &Vec<String>) -> (r: Vec<String>)
    ensures
        r@ == v@,
{
    let mut out: Vec<String> = Vec::new();
    let mut i: usize = 0;
    while i < v.len()
        invariant
            i <= v@.len(),
            out@ == v@.take(i as int),
        decreases v@.len() - i,
    {
        out.push(v[i].clone());
        assert(out@ =~= v@.take(i + 1));
        i = i + 1;
    }
    assert(out@ =~= v@);
    out
}

/// Replacing record `i` by one with the same id and Cell keeps a registry consistent.
proof fn lemma_same_identity(old_recs: Seq<CellRecord>, new_recs: Seq<CellRecord>, i: int)
    requires
        crate::registry::ids_sorted(old_recs),
        crate::registry::names_unique(old_recs),
        forall|a: int| 0 <= a < old_recs.len() ==> crate::registry::record_wf(#[trigger] old_recs[a]),
        0 <= i < old_recs.len(),
        new_recs.len() == old_recs.len(),
        forall|a: int| 0 <= a < old_recs.len() && a != i ==> #[trigger] new_recs[a] == old_recs[a],
        new_recs[i].instance_id == old_recs[i].instance_id,
        new_recs[i].manifest == old_recs[i].manifest,
        crate::registry::record_wf(new_recs[i]),
    ensures
        crate::registry::ids_sorted(new_recs),
        crate::registry::names_unique(new_recs),
        forall|a: int| 0 <= a < new_recs.len() ==> crate::registry::record_wf(#[trigger] new_recs[a]),
{
    assert forall|a: int, b: int| 0 <= a < b < new_recs.len() implies crate::text::text_lt(
        (#[trigger] new_recs[a]).instance_id@,
        (#[trigger] new_recs[b]).instance_id@,
    ) by {
        assert(new_recs[a].instance_id == old_recs[a].instance_id);
        assert(new_recs[b].instance_id == old_recs[b].instance_id);
    }
    assert forall|a: int, b: int|
        0 <= a < new_recs.len() && 0 <= b < new_recs.len() && a != b implies crate::registry::rec_name(
        #[trigger] new_recs[a],
    ) != crate::registry::rec_name(#[trigger] new_recs[b]) by {
        assert(crate::registry::rec_name(new_recs[a]) == crate::registry::rec_name(old_recs[a]));
        assert(crate::registry::rec_name(new_recs[b]) == crate::registry::rec_name(old_recs[b]));
    }
}

/// The program a subprocess Cell runs: its entrypoint token (default `kcell`),
/// through the alias table when the token has an alias.
pub open spec fn program_for(aliases: Map<Seq<char>, String>, entrypoint: Option<Seq<char>>) -> Seq<char> {
    let token = match entrypoint {
        Some(e) => e,
        None => "kcell"@,
    };
    if aliases.contains_key(token) {
        aliases[token]@
    } else {
        token
    }
}

/// The arguments a subprocess Cell gets: the words of its artifact, or `worker`.
pub open spec fn args_for(artifact: Option<Seq<char>>) -> Seq<Seq<char>> {
    match artifact {
        Some(a) => if a.len() > 0 {
            crate::text::words(a)
        } else {
            seq!["worker"@]
        },
        None => seq!["worker"@],
    }
}

/// Time limit of a Cell's calls: its resource limit, or 5 s.
pub open spec fn cell_timeout(m: CellManifest) -> u64 {
    match m.spec.resources.timeout_ms {
        Some(t) => t,
        None => 5000,
    }
}

impl Host {
    /// Admits the Cell `name`, walks its lifecycle to `Active` and registers it with
    /// its executor: the passthrough handler for in-process Cells, a process spec for
    /// subprocess Cells. A WASI Cell is activated but then refused: this build has no
    /// engine. Admission and activation are recorded on the audit trail, the new state
    /// and the Cell's capabilities on the bus.
    pub fn activate_cell(&mut self, name: &str) -> (r: Result<CellState>)
        requires
            old(self).wf(),
        ensures
            final(self).wf(),
            final(self).gate() == old(self).gate(),
            final(self).live() == old(self).live(),
            final(self).dirs() == old(self).dirs(),
            r matches Ok(s) ==> s == CellState::Active && known(final(self).reg(), name@),
            r is Err ==> final(self).events_bus() == old(self).events_bus(),
            !known(old(self).reg(), name@) || !admits(old(self).gate(), record_of(old(self).reg(), name@).manifest) ==> {
                &&& final(self).trail().kept().len() > 0
                &&& final(self).trail().kept().last().kind == AuditKind::AdmitDenied
                &&& final(self).trail().kept().last().cell matches Some(c) && c@ == name@
            },
            r is Ok ==> {
                &&& final(self).events_bus().capacity() == old(self).events_bus().capacity()
                &&& bus_views(final(self).events_bus().kept()) == published(
                    bus_views(old(self).events_bus().kept()),
                    old(self).events_bus().capacity(),
                    old(self).events_bus().next(),
                    activation_events(name@, record_of(old(self).reg(), name@).manifest.spec.provides@),
                )
                &&& final(self).events_bus().next() == numbers_after(
                    old(self).events_bus().next(),
                    activation_events(name@, record_of(old(self).reg(), name@).manifest.spec.provides@).len(),
                )
            },
            known(old(self).reg(), name@) && record_of(old(self).reg(), name@).manifest.spec.runtime.kind
                != RuntimeKind::Inprocess ==> final(self).inproc() == old(self).inproc(),
            r is Ok && record_of(old(self).reg(), name@).manifest.spec.runtime.kind == RuntimeKind::Inprocess ==> {
                &&& old(self).inproc().has(name@) ==> final(self).inproc().names() == old(self).inproc().names()
                    && final(self).inproc().kinds() == old(self).inproc().kinds()
                &&& !old(self).inproc().has(name@) ==> final(self).inproc().names() == old(self).inproc().names().push(
                    name@,
                ) && final(self).inproc().kinds() == old(self).inproc().kinds().push(HandlerView::Passthrough(name@))
            },
            !known(old(self).reg(), name@) ==> (r matches Err(e) && is_not_found(e, name@)) && final(self).reg()
                == old(self).reg(),
            known(old(self).reg(), name@) && !admits(old(self).gate(), record_of(old(self).reg(), name@).manifest) ==> (r
                matches Err(e) && e is PolicyDenied) && final(self).reg() == old(self).reg(),
            known(old(self).reg(), name@) && admits(old(self).gate(), record_of(old(self).reg(), name@).manifest)
                && crate::lifecycle::path_index(rec_state(record_of(old(self).reg(), name@))) < 0 ==> (r matches Err(e)
                && e is Lifecycle) && final(self).reg().records() == old(self).reg().records(),
            known(old(self).reg(), name@) && admits(old(self).gate(), record_of(old(self).reg(), name@).manifest)
                && crate::lifecycle::path_index(rec_state(record_of(old(self).reg(), name@))) >= 0 ==> {
                let i = name_index(old(self).reg().records(), name@);
                let before = old(self).reg().records()[i];
                let m = before.manifest;
                &&& final(self).reg().records().len() == old(self).reg().records().len()
                &&& forall|j: int|
                    0 <= j < old(self).reg().records().len() && j != i ==> #[trigger] final(self).reg().records()[j]
                        == old(self).reg().records()[j]
                &&& final(self).reg().records()[i].instance_id == before.instance_id
                &&& final(self).reg().records()[i].manifest == m
                &&& rec_state(final(self).reg().records()[i]) == CellState::Active
                &&& m.spec.runtime.kind == RuntimeKind::Wasi ==> (r matches Err(e) && crate::error::is_validation(
                    e,
                    crate::wasi::no_engine_msg(),
                ))
                &&& m.spec.runtime.kind == RuntimeKind::Inprocess ==> r == Ok::<CellState, Error>(CellState::Active)
                    && final(self).inproc().has(name@)
                &&& m.spec.runtime.kind == RuntimeKind::Subprocess ==> {
                    &&& r == Ok::<CellState, Error>(CellState::Active)
                    &&& final(self).subproc().specs().contains_key(name@)
                    &&& {
                        let sp = final(self).subproc().specs()[name@];
                        &&& sp.program@ == program_for(
                            old(self).aliases(),
                            crate::subprocess::opt_seq(m.spec.runtime.entrypoint),
                        )
                        &&& crate::policy::texts(sp.args@) == args_for(crate::subprocess::opt_seq(m.spec.runtime.artifact))
                        &&& sp.timeout_ms == cell_timeout(m)
                        &&& crate::subprocess::opt_seq(sp.workdir) == (if old(self).dirs().contains_key(name@) {
                            Some(old(self).dirs()[name@]@)
                        } else {
                            None
                        })
                    }
                }
            },
    {
        let ghost i = name_index(self.registry.records(), name@);
        match self.admit_cell(name) {
            Ok(decision) => {
                let detail = crate::policy::join_all(&decision.reasons, "; ");
                self.audit.record(AuditKind::Admitted, Some(owned(name)), detail);
            },
            Err(e) => {
                let detail = e.message();
                self.audit.record(AuditKind::AdmitDenied, Some(owned(name)), detail);
                return Err(e);
            },
        }
        let (runtime, entrypoint, artifact, timeout_ms) = match self.registry.by_name(name) {
            Some(rec) => (
                rec.manifest.spec.runtime.kind,
                copy_opt_text(&rec.manifest.spec.runtime.entrypoint),
                copy_opt_text(&rec.manifest.spec.runtime.artifact),
                match rec.manifest.spec.resources.timeout_ms {
                    Some(t) => t,
                    None => 5000,
                },
            ),
            None => {
                return Err(Error::NotFound(owned(name)));
            },
        };
        let ghost mid_recs = self.registry.records();
        match self.registry.by_name_mut(name) {
            Some(rec) => {
                proof {
                    assert(crate::registry::record_wf(mid_recs[i]));
                }
                rec.lifecycle.activate()?;
            },
            None => {
                return Err(Error::NotFound(owned(name)));
            },
        }
        proof {
            lemma_same_identity(mid_recs, self.registry.records(), i);
        }
        match runtime {
            RuntimeKind::Inprocess => {
                self.inprocess.ensure_passthrough(name);
            },
            RuntimeKind::Subprocess => {
                let token = match entrypoint {
                    Some(e) => e,
                    None => owned("kcell"),
                };
                let program = match self.program_aliases.get(token.as_str()) {
                    Some(p) => p.clone(),
                    None => token,
                };
                let args = match artifact {
                    Some(a) => {
                        if a.as_str().unicode_len() > 0 {
                            crate::text::split_white(a.as_str())
                        } else {
                            worker_args()
                        }
                    },
                    None => worker_args(),
                };
                let workdir = match self.cell_dirs.get(name) {
                    Some(d) => Some(d.clone()),
                    None => None,
                };
                proof {
                    assert(crate::policy::texts(args@) =~= args_for(crate::subprocess::opt_seq(artifact)));
                }
                self.subprocess.register(owned(name), SubprocessSpec { program, args, timeout_ms, workdir });
            },
            RuntimeKind::Wasi => {
                if !WasiExecutor::feature_enabled() {
                    return Err(Error::Validation(owned("WASI executor requires building with `--features wasi`")));
                }
            },
        }
        let ghost evs = activation_events(name@, record_of(old(self).registry, name@).manifest.spec.provides@);
        let ghost v0 = bus_views(self.bus.kept());
        let ghost cap0 = self.bus.capacity();
        let ghost next0 = self.bus.next();
        proof {
            assert(crate::registry::rec_name(self.registry.records()[i]) == name@);
            lemma_name_at(self.registry.records(), name@, i);
        }
        let (state, caps) = match self.registry.by_name(name) {
            Some(rec) => (rec.state(), rec.provides()),
            None => (CellState::Active, Vec::new()),
        };
        let shown = state.debug_name();
        self.audit.record(AuditKind::Activated, Some(owned(name)), shown);
        let ev = BusEvent::CellState { cell: owned(name), state };
        let ghost kept_before = self.bus.kept();
        let seq0 = self.bus.publish(ev);
        proof {
            crate::bus::lemma_views_push(kept_before, cap0, (seq0, ev));
            crate::bus::lemma_published_step(v0, cap0, next0, evs, 0);
            assert(evs.take(0) =~= Seq::<BusView>::empty());
            assert(evs[0] == bus_view(ev));
        }
        let ghost pre_reg = self.registry;
        let ghost pre_inproc = self.inprocess;
        let ghost pre_sub = self.subprocess;
        let mut k: usize = 0;
        while k < caps.len()
            invariant
                self.wf(),
                k <= caps@.len(),
                caps@.len() + 1 == evs.len(),
                forall|j: int|
                    0 <= j < caps@.len() ==> evs[j + 1] == BusView::CapabilityAvailable(
                        name@,
                        (#[trigger] caps@[j]).0@,
                        caps@[j].1@,
                    ),
                self.bus.capacity() == cap0,
                bus_views(self.bus.kept()) == published(v0, cap0, next0, evs.take(k + 1)),
                self.bus.next() == numbers_after(next0, (k + 1) as nat),
                self.registry == pre_reg,
                self.inprocess == pre_inproc,
                self.subprocess == pre_sub,
                self.policy == old(self).policy,
                self.bindings == old(self).bindings,
                self.cell_dirs == old(self).cell_dirs,
            decreases caps@.len() - k,
        {
            let (capability, version) = (caps[k].0.clone(), caps[k].1.clone());
            let ev = BusEvent::CapabilityAvailable { cell: owned(name), capability, version };
            let ghost kept_before = self.bus.kept();
            let seq = self.bus.publish(ev);
            proof {
                crate::bus::lemma_views_push(kept_before, cap0, (seq, ev));
                crate::bus::lemma_published_step(v0, cap0, next0, evs, (k + 1) as int);
                assert(evs[k + 1] == bus_view(ev));
            }
            k = k + 1;
        }
        proof {
            assert(evs.take(evs.len() as int) =~= evs);
        }
        Ok(state)
    }
}

fn worker_args() -> (r: Vec<String>)
    ensures
        crate::policy::texts(r@) == seq!["worker"@],
{
    let mut v: Vec<String> = Vec::new();
    v.push(owned("worker"));
    assert(crate::policy::texts(v@) =~= seq!["worker"@]);
    v
}

fn copy_opt_text(o: &Option<String>) -> (r: Option<String>)
    ensures
        crate::subprocess::opt_seq(r) == crate::subprocess::opt_seq(*o),
        r == *o,
{
    match o {
        Some(s) => Some(s.clone()),
        None => None,
    }
}

/// What is wrong with `request` once its capability is set to `capability`.
pub open spec fn routed_problem(request: Envelope, capability: Seq<char>) -> Option<Seq<char>> {
    if request.schema@ != crate::envelope::envelope_schema() {
        Some("unsupported envelope schema `"@ + request.schema@ + "`"@)
    } else if request.correlation_id@.len() == 0 {
        Some("correlationId required"@)
    } else if capability.len() == 0 {
        Some("capability required"@)
    } else {
        None
    }
}

/// How a routed call to a Cell with runtime `kind` may end, once the request is valid.
pub open spec fn executor_outcome(
    host: Host,
    cell: Seq<char>,
    kind: RuntimeKind,
    request: Envelope,
    capability: Seq<char>,
    r: Result<Envelope>,
) -> bool {
    match kind {
        RuntimeKind::Inprocess => {
            &&& !host.inproc().has(cell) ==> (r matches Err(e) && is_not_found(
                e,
                "no handler for cell `"@ + cell + "`"@,
            ))
            &&& host.inproc().has(cell) && host.inproc().kinds()[crate::table::index_in(host.inproc().names(), cell)] is Passthrough
                ==> (r matches Ok(rep) && rep.correlation_id@ == request.correlation_id@ && rep.capability@ == capability
                && crate::json::jv(rep.payload) == crate::execute::echo_payload(
                host.inproc().kinds()[crate::table::index_in(host.inproc().names(), cell)]->Passthrough_0,
                capability,
                crate::json::jv(request.payload),
            ))
        },
        RuntimeKind::Subprocess => {
            &&& !host.subproc().specs().contains_key(cell) ==> (r matches Err(e) && is_not_found(
                e,
                "no subprocess for cell `"@ + cell + "`"@,
            ))
            &&& r matches Ok(rep) ==> envelope_problem(rep) is None && rep.correlation_id@ == request.correlation_id@
        },
        RuntimeKind::Wasi => {
            &&& !host.wasm().specs().contains_key(cell) ==> (r matches Err(e) && is_not_found(
                e,
                "no wasi module for cell `"@ + cell + "`"@,
            ))
            &&& host.wasm().specs().contains_key(cell) ==> (r matches Err(e) && crate::error::is_validation(
                e,
                crate::wasi::no_engine_msg(),
            ))
        },
    }
}

impl Host {
    /// Sends a ready request to the executor of `cell_name`'s runtime.
    fn dispatch(&self, cell_name: &str, runtime: RuntimeKind, request: &Envelope) -> (r: Result<Envelope>)
        requires
            self.wf(),
            envelope_problem(*request) is None,
        ensures
            executor_outcome(*self, cell_name@, runtime, *request, request.capability@, r),
    {
        match runtime {
            RuntimeKind::Inprocess => self.inprocess.invoke(cell_name, request),
            RuntimeKind::Subprocess => self.subprocess.invoke(cell_name, request),
            RuntimeKind::Wasi => self.wasi.invoke(cell_name, request),
        }
    }

    /// Invokes the Cell `cell_name` directly (no binding lookup) for `capability`.
    /// An unknown Cell is not found; a Cell that cannot take traffic is a binding
    /// error (recorded); an invalid request is a validation error; otherwise the
    /// Cell's executor answers, and the outcome is recorded on the audit trail.
    pub fn invoke_cell(&mut self, cell_name: &str, capability: &str, request: Envelope) -> (r: Result<Envelope>)
        requires
            old(self).wf(),
        ensures
            final(self).wf(),
            final(self).reg() == old(self).reg(),
            final(self).live() == old(self).live(),
            final(self).gate() == old(self).gate(),
            final(self).inproc() == old(self).inproc(),
            final(self).subproc() == old(self).subproc(),
            final(self).wasm() == old(self).wasm(),
            !known(old(self).reg(), cell_name@) ==> (r matches Err(e) && is_not_found(e, cell_name@)),
            known(old(self).reg(), cell_name@) && !routable(rec_state(record_of(old(self).reg(), cell_name@))) ==> (r
                matches Err(e) && is_binding(
                e,
                "cell `"@ + cell_name@ + "` not routable ("@ + crate::lifecycle::state_name(
                    rec_state(record_of(old(self).reg(), cell_name@)),
                ) + ")"@,
            )),
            known(old(self).reg(), cell_name@) && routable(rec_state(record_of(old(self).reg(), cell_name@)))
                && routed_problem(request, capability@) is Some ==> (r matches Err(e) && crate::error::is_validation(
                e,
                routed_problem(request, capability@)->0,
            )),
            known(old(self).reg(), cell_name@) && routable(rec_state(record_of(old(self).reg(), cell_name@)))
                && routed_problem(request, capability@) is None ==> executor_outcome(
                *old(self),
                cell_name@,
                record_of(old(self).reg(), cell_name@).manifest.spec.runtime.kind,
                request,
                capability@,
                r,
            ),
    {
        let mut request = request;
        request.capability = owned(capability);
        let (state, runtime, timeout) = match self.registry.by_name(cell_name) {
            Some(rec) => (rec.state(), rec.manifest.spec.runtime.kind, rec.manifest.spec.resources.timeout_ms),
            None => {
                return Err(Error::NotFound(owned(cell_name)));
            },
        };
        if !state.can_route() {
            let shown = state.debug_name();
            let msg = join5("cell `", cell_name, "` not routable (", shown.as_str(), ")");
            self.audit.record(AuditKind::InvokeFailed, Some(owned(cell_name)), msg.clone());
            return Err(Error::Binding(msg));
        }
        if request.timeout_ms.is_none() {
            request.timeout_ms = timeout;
        }
        request.validate()?;
        let result = self.dispatch(cell_name, runtime, &request);
        match &result {
            Ok(_) => {
                let detail = join3("host -[", capability, "]-> ok");
                self.audit.record(AuditKind::Invoked, Some(owned(cell_name)), detail);
            },
            Err(e) => {
                let m = e.message();
                let detail = join4("host -[", capability, "]-> ", m.as_str());
                self.audit.record(AuditKind::InvokeFailed, Some(owned(cell_name)), detail);
            },
        }
        result
    }

    /// Routes `request` from `consumer` for `capability` to the provider of the first
    /// live binding that serves it. No such binding, or a provider that is gone or
    /// cannot take traffic, is an error recorded on the audit trail; an invalid
    /// request is a validation error; otherwise the provider's executor answers.
    pub fn invoke(&mut self, consumer: &str, capability: &str, request: Envelope) -> (r: Result<Envelope>)
        requires
            old(self).wf(),
        ensures
            final(self).wf(),
            invoke_outcome(*old(self), *final(self), consumer@, capability@, request, r),
    {
        let mut request = request;
        request.capability = owned(capability);
        let provider_name = match self.bindings.provider_for(consumer, capability) {
            Some(b) => b.provider.clone(),
            None => {
                let msg = join5("no binding for consumer `", consumer, "` capability `", capability, "`");
                self.audit.record(AuditKind::InvokeFailed, Some(owned(consumer)), msg.clone());
                return Err(Error::Binding(msg));
            },
        };
        let (state, runtime, timeout) = match self.registry.by_name(provider_name.as_str()) {
            Some(p) => (p.state(), p.manifest.spec.runtime.kind, p.manifest.spec.resources.timeout_ms),
            None => {
                let msg = join3("provider `", provider_name.as_str(), "` not found");
                self.audit.record(AuditKind::InvokeFailed, Some(owned(consumer)), msg);
                return Err(Error::NotFound(provider_name));
            },
        };
        if !state.can_route() {
            let shown = state.debug_name();
            let msg = join5("provider `", provider_name.as_str(), "` not routable (", shown.as_str(), ")");
            self.audit.record(AuditKind::InvokeFailed, Some(owned(consumer)), msg.clone());
            return Err(Error::Binding(msg));
        }
        if request.timeout_ms.is_none() {
            request.timeout_ms = timeout;
        }
        request.validate()?;
        let result = self.dispatch(provider_name.as_str(), runtime, &request);
        match &result {
            Ok(_) => {
                let detail = join4(consumer, " -[", capability, "]-> ok");
                self.audit.record(AuditKind::Invoked, Some(provider_name), detail);
            },
            Err(e) => {
                let m = e.message();
                let detail = join5(consumer, " -[", capability, "]-> ", m.as_str());
                self.audit.record(AuditKind::InvokeFailed, Some(provider_name), detail);
            },
        }
        result
    }
}

/// A proposal copied field by field.
pub fn copy_proposal(p: &BindingProposal) -> (r: BindingProposal)
    ensures
        r.api_version == p.api_version,
        r.kind == p.kind,
        r.metadata.proposer == p.metadata.proposer,
        r.metadata.generation == p.metadata.generation,
        r.metadata.reason == p.metadata.reason,
        r.spec.bindings@ == p.spec.bindings@,
        r.spec.replace_generation == p.spec.replace_generation,
{
    let mut edges: Vec<ProposedBinding> = Vec::new();
    let mut i: usize = 0;
    while i < p.spec.bindings.len()
        invariant
            i <= p.spec.bindings@.len(),
            edges@ == p.spec.bindings@.take(i as int),
        decreases p.spec.bindings@.len() - i,
    {
        let b = &p.spec.bindings[i];
        edges.push(
            ProposedBinding {
                consumer: b.consumer.clone(),
                provider: b.provider.clone(),
                capability: b.capability.clone(),
                required: b.required,
            },
        );
        assert(edges@ =~= p.spec.bindings@.take(i + 1));
        i = i + 1;
    }
    assert(edges@ =~= p.spec.bindings@);
    BindingProposal {
        api_version: p.api_version.clone(),
        kind: p.kind.clone(),
        metadata: ProposalMetadata {
            proposer: p.metadata.proposer.clone(),
            generation: p.metadata.generation,
            reason: match &p.metadata.reason {
                Some(x) => Some(x.clone()),
                None => None,
            },
        },
        spec: ProposalSpec { bindings: edges, replace_generation: p.spec.replace_generation },
    }
}

/// A proposal would change the live edges: a different number of edges, or an edge
/// whose consumer and capability are served by another provider (or not at all).
pub open spec fn would_change(live: Seq<ActiveBinding>, proposed: Seq<ProposedBinding>) -> bool {
    ||| proposed.len() != live.len()
    ||| exists|k: int|
        0 <= k < proposed.len() && {
            let b = #[trigger] proposed[k];
            let f = crate::binding::first_edge(live, b.consumer@, b.capability@);
            f < 0 || live[f].provider@ != b.provider@
        }
}

/// The JSON of a live edge in a registry snapshot.
pub open spec fn edge_json(b: ActiveBinding) -> JsonView {
    JsonView::Object(
        seq![
            ("capability"@, JsonView::Str(b.capability@)),
            ("consumer"@, JsonView::Str(b.consumer@)),
            ("provider"@, JsonView::Str(b.provider@)),
            ("required"@, JsonView::Bool(b.required)),
        ],
    )
}

/// The JSON of a provided capability in a registry snapshot.
pub open spec fn cap_json(c: crate::manifest::cell::Capability) -> JsonView {
    JsonView::Object(seq![("name"@, JsonView::Str(c.name@)), ("version"@, JsonView::Str(c.version@))])
}

/// The JSON of a requirement in a registry snapshot.
pub open spec fn req_json(c: crate::manifest::cell::Requirement) -> JsonView {
    JsonView::Object(
        seq![
            ("name"@, JsonView::Str(c.name@)),
            ("optional"@, JsonView::Bool(c.optional)),
            ("version"@, JsonView::Str(c.version@)),
        ],
    )
}

/// The JSON of a Cell in a registry snapshot.
pub open spec fn cell_json(r: CellRecord) -> JsonView {
    JsonView::Object(
        seq![
            ("name"@, JsonView::Str(r.manifest.metadata.name@)),
            ("provides"@, JsonView::Array(r.manifest.spec.provides@.map_values(|c| cap_json(c)))),
            ("requires"@, JsonView::Array(r.manifest.spec.requires@.map_values(|c| req_json(c)))),
        ],
    )
}

/// The routable records, in order.
pub open spec fn routable_records(recs: Seq<CellRecord>) -> Seq<CellRecord>
    decreases recs.len(),
{
    if recs.len() == 0 {
        recs
    } else if routable(rec_state(recs.last())) {
        routable_records(recs.drop_last()).push(recs.last())
    } else {
        routable_records(recs.drop_last())
    }
}

/// The registry snapshot handed to auto-config Cells.
pub open spec fn snapshot_json(recs: Seq<CellRecord>, live: Seq<ActiveBinding>, generation: u64) -> JsonView {
    JsonView::Object(
        seq![
            ("bindings"@, JsonView::Array(live.map_values(|b| edge_json(b)))),
            ("cells"@, JsonView::Array(routable_records(recs).map_values(|r| cell_json(r)))),
            ("generation"@, JsonView::Number(NumView::Unsigned(generation))),
        ],
    )
}

fn edge_to_json(b: &ActiveBinding) -> (r: JsonValue)
    ensures
        jv(r) == edge_json(*b),
{
    let mut f: Vec<(String, JsonValue)> = Vec::new();
    f.push(pair("capability", json_text(b.capability.as_str())));
    f.push(pair("consumer", json_text(b.consumer.as_str())));
    f.push(pair("provider", json_text(b.provider.as_str())));
    f.push(pair("required", json_bool(b.required)));
    let r = JsonValue::Object(f);
    proof {
        reveal(jv);
        if let JsonView::Object(ms) = jv(r) {
            assert(ms =~= seq![
                ("capability"@, JsonView::Str(b.capability@)),
                ("consumer"@, JsonView::Str(b.consumer@)),
                ("provider"@, JsonView::Str(b.provider@)),
                ("required"@, JsonView::Bool(b.required)),
            ]);
        }
    }
    r
}

fn cell_to_json(rec: &CellRecord) -> (r: JsonValue)
    ensures
        jv(r) == cell_json(*rec),
{
    let ps = &rec.manifest.spec.provides;
    let mut pv: Vec<JsonValue> = Vec::new();
    let mut i: usize = 0;
    while i < ps.len()
        invariant
            i <= ps@.len(),
            pv@.len() == i,
            forall|j: int| 0 <= j < i ==> jv(#[trigger] pv@[j]) == cap_json(ps@[j]),
        decreases ps@.len() - i,
    {
        let mut f: Vec<(String, JsonValue)> = Vec::new();
        f.push(pair("name", json_text(ps[i].name.as_str())));
        f.push(pair("version", json_text(ps[i].version.as_str())));
        let o = JsonValue::Object(f);
        proof {
            reveal(jv);
            if let JsonView::Object(ms) = jv(o) {
                assert(ms =~= seq![("name"@, JsonView::Str(ps@[i as int].name@)), ("version"@, JsonView::Str(ps@[i as int].version@))]);
            }
        }
        pv.push(o);
        i = i + 1;
    }
    let rs = &rec.manifest.spec.requires;
    let mut rv: Vec<JsonValue> = Vec::new();
    let mut i: usize = 0;
    while i < rs.len()
        invariant
            i <= rs@.len(),
            rv@.len() == i,
            forall|j: int| 0 <= j < i ==> jv(#[trigger] rv@[j]) == req_json(rs@[j]),
        decreases rs@.len() - i,
    {
        let mut f: Vec<(String, JsonValue)> = Vec::new();
        f.push(pair("name", json_text(rs[i].name.as_str())));
        f.push(pair("optional", json_bool(rs[i].optional)));
        f.push(pair("version", json_text(rs[i].version.as_str())));
        let o = JsonValue::Object(f);
        proof {
            reveal(jv);
            if let JsonView::Object(ms) = jv(o) {
                assert(ms =~= seq![
                    ("name"@, JsonView::Str(rs@[i as int].name@)),
                    ("optional"@, JsonView::Bool(rs@[i as int].optional)),
                    ("version"@, JsonView::Str(rs@[i as int].version@)),
                ]);
            }
        }
        rv.push(o);
        i = i + 1;
    }
    let pj = array_json(pv, Ghost(ps@.map_values(|c| cap_json(c))));
    let rj = array_json(rv, Ghost(rs@.map_values(|c| req_json(c))));
    let mut f: Vec<(String, JsonValue)> = Vec::new();
    f.push(pair("name", json_text(rec.manifest.metadata.name.as_str())));
    f.push(pair("provides", pj));
    f.push(pair("requires", rj));
    let r = JsonValue::Object(f);
    proof {
        reveal(jv);
        if let JsonView::Object(ms) = jv(r) {
            assert(ms =~= seq![
                ("name"@, JsonView::Str(rec.manifest.metadata.name@)),
                ("provides"@, JsonView::Array(ps@.map_values(|c| cap_json(c)))),
                ("requires"@, JsonView::Array(rs@.map_values(|c| req_json(c)))),
            ]);
        }
    }
    r
}

impl Host {
    /// The registry snapshot handed to auto-config Cells: the binding generation, the
    /// live edges, and every routable Cell with what it provides and requires.
    pub fn registry_snapshot(&self) -> (r: JsonValue)
        requires
            self.wf(),
        ensures
            jv(r) == snapshot_json(self.reg().records(), self.live().items(), self.live().current_generation()),
    {
        let recs = self.registry.iter();
        let mut cells: Vec<JsonValue> = Vec::new();
        let mut i: usize = 0;
        assert(recs@.take(0) =~= Seq::<CellRecord>::empty());
        while i < recs.len()
            invariant
                i <= recs@.len(),
                cells@.len() == routable_records(recs@.take(i as int)).len(),
                forall|j: int|
                    0 <= j < cells@.len() ==> jv(#[trigger] cells@[j]) == cell_json(routable_records(recs@.take(i as int))[j]),
            decreases recs@.len() - i,
        {
            proof {
                assert(recs@.take(i + 1).drop_last() =~= recs@.take(i as int));
                assert(recs@.take(i + 1).last() == recs@[i as int]);
            }
            if recs[i].state().can_route() {
                cells.push(cell_to_json(&recs[i]));
            }
            i = i + 1;
        }
        assert(recs@.take(recs@.len() as int) =~= recs@);
        let items = self.bindings.bindings();
        let mut edges: Vec<JsonValue> = Vec::new();
        let mut i: usize = 0;
        while i < items.len()
            invariant
                i <= items@.len(),
                edges@.len() == i,
                forall|j: int| 0 <= j < i ==> jv(#[trigger] edges@[j]) == edge_json(items@[j]),
            decreases items@.len() - i,
        {
            edges.push(edge_to_json(&items[i]));
            i = i + 1;
        }
        let ej = array_json(edges, Ghost(items@.map_values(|b| edge_json(b))));
        let cj = array_json(cells, Ghost(routable_records(recs@).map_values(|r| cell_json(r))));
        let mut f: Vec<(String, JsonValue)> = Vec::new();
        f.push(pair("bindings", ej));
        f.push(pair("cells", cj));
        f.push(pair("generation", json_u64(self.bindings.generation())));
        let r = JsonValue::Object(f);
        proof {
            reveal(jv);
            if let JsonView::Object(ms) = jv(r) {
                assert(ms =~= seq![
                    ("bindings"@, JsonView::Array(self.bindings.items().map_values(|b| edge_json(b)))),
                    ("cells"@, JsonView::Array(routable_records(self.registry.records()).map_values(|r| cell_json(r)))),
                    ("generation"@, JsonView::Number(NumView::Unsigned(self.bindings.current_generation()))),
                ]);
            }
        }
        r
    }

    /// Proposes edges for unmet requirements (see `propose_auto_bindings`), and
    /// applies the proposal when asked and when it would change the live edges.
    pub fn auto_bind(&mut self, apply: bool, include_optional: bool) -> (r: Result<
        (BindingProposal, Option<BindingApplyResult>),
    >)
        requires
            old(self).wf(),
            old(self).live().current_generation() < u64::MAX,
        ensures
            final(self).wf(),
            auto_bind_outcome(*old(self), *final(self), apply, include_optional, r),
    {
        let proposal = crate::autobind::propose_auto_bindings(&self.registry, &self.bindings, include_optional);
        let changed = proposal.spec.bindings.len() != self.bindings.bindings().len() || !same_providers(
            &self.bindings,
            &proposal.spec.bindings,
        );
        if !apply || !changed {
            return Ok((proposal, None));
        }
        let copy = copy_proposal(&proposal);
        proof {
            assert(copy.metadata == proposal.metadata);
        }
        let ghost before_apply = *self;
        let ghost c = copy;
        let result = self.apply_binding_proposal(copy)?;
        proof {
            assert(proposal_outcome(before_apply, *self, c, Ok(result)));
            assert(crate::manifest::binding_proposal::proposal_problem(c) == crate::manifest::binding_proposal::proposal_problem(proposal));
            assert(crate::binding::refusal(before_apply.live().current_generation(), c) == crate::binding::refusal(before_apply.live().current_generation(), proposal));
            assert(proposal_outcome(before_apply, *self, proposal, Ok(result)));
        }
        Ok((proposal, Some(result)))
    }

    /// Applies the bindings an AI-man declares as the next generation; with none
    /// declared, answers `Applied` at the current generation and changes nothing.
    pub fn apply_aiman_bindings(&mut self, aiman: &crate::manifest::aiman::AIManManifest) -> (r: Result<BindingApplyResult>)
        requires
            old(self).wf(),
            aiman.spec.bindings@.len() > 0 ==> old(self).live().current_generation() < u64::MAX,
        ensures
            final(self).wf(),
            final(self).reg() == old(self).reg(),
            final(self).gate() == old(self).gate(),
            aiman.spec.bindings@.len() == 0 ==> (r matches Ok(BindingApplyResult::Applied { generation })
                && generation == old(self).live().current_generation()) && final(self).live() == old(self).live(),
            aiman.spec.bindings@.len() > 0 ==> {
                &&& r is Ok ==> (r matches Ok(BindingApplyResult::Applied { generation }) && generation
                    == old(self).live().current_generation() + 1) && final(self).live().current_generation()
                    == old(self).live().current_generation() + 1 && edge_views(final(self).live().items())
                    == proposed_views(static_edges(aiman.spec.bindings@))
                &&& r is Ok <==> (forall|k: int|
                    0 <= k < aiman.spec.bindings@.len() ==> !crate::manifest::binding_proposal::edge_blank(
                        #[trigger] static_edges(aiman.spec.bindings@)[k],
                    )) && crate::binding::all_pairs_ok(old(self).reg().records(), static_edges(aiman.spec.bindings@))
                &&& r is Err ==> final(self).live() == old(self).live()
            },
    {
        if aiman.spec.bindings.len() == 0 {
            return Ok(BindingApplyResult::Applied { generation: self.bindings.generation() });
        }
        let generation = self.bindings.generation() + 1;
        let mut edges: Vec<ProposedBinding> = Vec::new();
        let mut i: usize = 0;
        while i < aiman.spec.bindings.len()
            invariant
                i <= aiman.spec.bindings@.len(),
                edges@ == static_edges(aiman.spec.bindings@.take(i as int)),
            decreases aiman.spec.bindings@.len() - i,
        {
            let b = &aiman.spec.bindings[i];
            edges.push(
                ProposedBinding {
                    consumer: b.consumer.clone(),
                    provider: b.provider.clone(),
                    capability: b.capability.clone(),
                    required: b.required,
                },
            );
            assert(edges@ =~= static_edges(aiman.spec.bindings@.take(i + 1)));
            i = i + 1;
        }
        assert(aiman.spec.bindings@.take(aiman.spec.bindings@.len() as int) =~= aiman.spec.bindings@);
        let proposal = BindingProposal {
            api_version: owned("kcell.dev/v1"),
            kind: owned("BindingProposal"),
            metadata: ProposalMetadata {
                proposer: join2("aiman:", aiman.metadata.name.as_str()),
                generation,
                reason: Some(owned("static ai-man bindings")),
            },
            spec: ProposalSpec { bindings: edges, replace_generation: Some(self.bindings.generation()) },
        };
        proof {
            reveal_strlit("kcell.dev/v1");
            reveal_strlit("BindingProposal");
            reveal_strlit("aiman:");
            assert(proposal.api_version@ == crate::manifest::cell::api_v1());
            assert(proposal.metadata.proposer@.len() > 0);
            assert(proposal.kind@ == "BindingProposal"@);
            assert(proposal.spec.bindings@ == static_edges(aiman.spec.bindings@));
        }
        self.apply_binding_proposal(proposal)
    }
}

/// Whether every proposed edge is already served by the same provider.
fn same_providers(live: &BindingSet, edges: &Vec<ProposedBinding>) -> (r: bool)
    ensures
        r == forall|k: int|
            0 <= k < edges@.len() ==> {
                let b = #[trigger] edges@[k];
                let f = crate::binding::first_edge(live.items(), b.consumer@, b.capability@);
                f >= 0 && live.items()[f].provider@ == b.provider@
            },
{
    let mut k: usize = 0;
    while k < edges.len()
        invariant
            k <= edges@.len(),
            forall|j: int|
                0 <= j < k ==> {
                    let b = #[trigger] edges@[j];
                    let f = crate::binding::first_edge(live.items(), b.consumer@, b.capability@);
                    f >= 0 && live.items()[f].provider@ == b.provider@
                },
        decreases edges@.len() - k,
    {
        let b = &edges[k];
        let same = match live.provider_for(b.consumer.as_str(), b.capability.as_str()) {
            Some(x) => same_text(x.provider.as_str(), b.provider.as_str()),
            None => false,
        };
        if !same {
            return false;
        }
        k = k + 1;
    }
    true
}

/// The proposed edges of an AI-man's static bindings.
pub open spec fn static_edges(s: Seq<crate::manifest::aiman::StaticBinding>) -> Seq<ProposedBinding> {
    s.map_values(
        |b: crate::manifest::aiman::StaticBinding|
            ProposedBinding { consumer: b.consumer, provider: b.provider, capability: b.capability, required: b.required },
    )
}

/// The Cell provides a capability named `cap`.
pub open spec fn offers(m: CellManifest, cap: Seq<char>) -> bool {
    exists|k: int| 0 <= k < m.spec.provides@.len() && (#[trigger] m.spec.provides@[k]).name@ == cap
}

fn offers_named(m: &CellManifest, cap: &str) -> (r: bool)
    ensures
        r == offers(*m, cap@),
{
    let mut i: usize = 0;
    while i < m.spec.provides.len()
        invariant
            i <= m.spec.provides@.len(),
            forall|k: int| 0 <= k < i ==> (#[trigger] m.spec.provides@[k]).name@ != cap@,
        decreases m.spec.provides@.len() - i,
    {
        if same_text(m.spec.provides[i].name.as_str(), cap) {
            return true;
        }
        i = i + 1;
    }
    false
}

impl Host {
    /// Asks the Cell `cell_name`, which must be routable and provide
    /// `binding-propose`, for a proposal over the registry snapshot; checks the
    /// proposal, and applies it when asked.
    pub fn propose_from_cell(&mut self, cell_name: &str, apply: bool) -> (r: Result<
        (BindingProposal, Option<BindingApplyResult>),
    >)
        requires
            old(self).wf(),
        ensures
            final(self).wf(),
            propose_from_outcome(*old(self), *final(self), cell_name@, apply, r),
    {
        match self.registry.by_name(cell_name) {
            Some(rec) => {
                let state = rec.state();
                if !state.can_route() {
                    let shown = state.debug_name();
                    return Err(Error::Binding(join5("cell `", cell_name, "` not routable (", shown.as_str(), ")")));
                }
                if !offers_named(&rec.manifest, "binding-propose") {
                    return Err(
                        Error::Validation(join3("cell `", cell_name, "` does not provide binding-propose")),
                    );
                }
            },
            None => {
                return Err(Error::NotFound(owned(cell_name)));
            },
        }
        let snapshot = self.registry_snapshot();
        let request = Envelope::request("binding-propose", snapshot);
        let reply = self.invoke_cell(cell_name, "binding-propose", request)?;
        let value = match crate::json::get_member(&reply.payload, "proposal") {
            Some(v) => v,
            None => {
                return Err(Error::Validation(owned("binding-propose reply missing proposal")));
            },
        };
        let proposal = crate::decode::proposal_from_json(value)?;
        crate::manifest::binding_proposal::validate_binding_proposal(&proposal)?;
        if !apply {
            return Ok((proposal, None));
        }
        let result = self.apply_binding_proposal(copy_proposal(&proposal))?;
        Ok((proposal, Some(result)))
    }

    /// Reads and applies the binding proposal at `path`. Without a file-system access
    /// this is an I/O error; a read that fails changes nothing; a proposal read is
    /// applied as `apply_binding_proposal` applies it.
    pub fn apply_binding_proposal_path(&mut self, path: &str) -> (r: Result<BindingApplyResult>)
        requires
            old(self).wf(),
        ensures
            final(self).wf(),
            apply_path_outcome(*old(self), *final(self), path@, r),
    {
        let proposal = match &self.env {
            Some(env) => env.load_proposal(path)?,
            None => {
                return Err(Error::Io(owned("no host environment to read files")));
            },
        };
        let ghost p = proposal;
        let r = self.apply_binding_proposal(proposal);
        assert(proposal_outcome(*old(self), *self, p, r));
        r
    }

    /// Reads the Cell manifest at `path`, remembers its directory, and registers it
    /// as `instance_id`. Without a file-system access this is an I/O error; a read
    /// that fails changes nothing; a manifest read is registered as `register_cell`
    /// registers it, its directory remembered first.
    pub fn register_cell_path(&mut self, instance_id: String, path: &str) -> (r: Result<()>)
        requires
            old(self).wf(),
        ensures
            final(self).wf(),
            final(self).gate() == old(self).gate(),
            final(self).live() == old(self).live(),
            r is Ok ==> final(self).reg().records().len() == old(self).reg().records().len() + 1,
            r is Err ==> final(self).reg().records() == old(self).reg().records(),
            !old(self).has_env() ==> (r matches Err(Error::Io(m)) && m@ == "no host environment to read files"@)
                && final(self).dirs() == old(self).dirs(),
            old(self).has_env() ==> (r is Err && final(self).dirs() == old(self).dirs()) || exists|c: CellManifest|
                #[trigger] registered_from(*old(self), *final(self), instance_id@, path@, c, r),
    {
        let cell = match &self.env {
            Some(env) => env.load_cell(path)?,
            None => {
                return Err(Error::Io(owned("no host environment to read files")));
            },
        };
        let ghost c = cell;
        let ghost iid = instance_id@;
        let name = cell.metadata.name.clone();
        match crate::paths::parent_dir(path) {
            Some(dir) => {
                self.cell_dirs.insert(name, dir);
                proof {
                    assert(self.dirs().remove(c.metadata.name@) =~= old(self).dirs().remove(c.metadata.name@));
                }
            },
            None => {},
        }
        let r = self.register_cell(instance_id, cell);
        assert(registered_from(*old(self), *self, iid, path@, c, r));
        r
    }

    /// Loads the Cell package in `dir` and activates it. A Cell of that name already
    /// registered is a validation error unless `replace`, which first stops and
    /// removes it (record, directory, executors, bindings). Without a file-system
    /// access this is an I/O error; a read of `cell.yaml` that fails changes nothing;
    /// a manifest read is loaded as `load_cell_manifest` loads it.
    pub fn load_cell_dir(&mut self, dir: &str, replace: bool) -> (r: Result<(String, CellState)>)
        requires
            old(self).wf(),
        ensures
            final(self).wf(),
            load_dir_outcome(*old(self), *final(self), dir@, replace, r),
    {
        let yaml = crate::paths::join_path(dir, "cell.yaml");
        let manifest = match &self.env {
            Some(env) => env.load_cell(yaml.as_str())?,
            None => {
                return Err(Error::Io(owned("no host environment to read files")));
            },
        };
        let ghost m = manifest;
        let r = self.load_cell_manifest(dir, replace, manifest);
        assert(loaded_from(*old(self), *self, dir@, replace, m, r));
        r
    }

    /// Loads the Cell `manifest`, read from the package in `dir`, and activates it.
    /// A Cell of that name already registered is a validation error unless `replace`,
    /// which first stops and removes it (record, directory, executors, bindings). The
    /// Cell is registered as `name@version`; it loads when that id is free (but for
    /// the Cell it replaces), the policy admits it and its runtime can run here.
    pub fn load_cell_manifest(&mut self, dir: &str, replace: bool, manifest: CellManifest) -> (r: Result<
        (String, CellState),
    >)
        requires
            old(self).wf(),
        ensures
            final(self).wf(),
            final(self).gate() == old(self).gate(),
            !replace ==> final(self).live() == old(self).live(),
            loaded_from(*old(self), *final(self), dir@, replace, manifest, r),
    {
        let ghost m = manifest;
        let ghost n = manifest.metadata.name@;
        let ghost id = n + "@"@ + manifest.metadata.version@;
        let ghost recs0 = self.registry.records();
        let name = manifest.metadata.name.clone();
        let version = manifest.metadata.version.clone();
        if self.registry.by_name(name.as_str()).is_some() {
            if !replace {
                return Err(
                    Error::Validation(join3("cell `", name.as_str(), "` already loaded (pass replace=true to reload)")),
                );
            }
            let ghost i = name_index(recs0, n);
            let _ = self.stop_cell(name.as_str());
            let ghost recs1 = self.registry.records();
            proof {
                assert(rec_name(recs1[i]) == n);
                lemma_name_at(recs1, n, i);
            }
            let _ = self.registry.remove_by_name(name.as_str())?;
            proof {
                let recs2 = self.registry.records();
                assert(recs2 == recs1.remove(i));
                assert forall|j: int| 0 <= j < recs2.len() implies rec_name(#[trigger] recs2[j]) != n && recs2[j]
                    == recs0[if j < i { j } else { j + 1 }] by {
                    let k = if j < i { j } else { j + 1 };
                    assert(recs2[j] == recs1[k]);
                    assert(recs1[k] == recs0[k]);
                    assert(rec_name(recs0[i]) == n);
                }
                lemma_removed_ids(recs0, recs2, i, id, n);
            }
            let _ = self.cell_dirs.remove(name.as_str());
            self.forget_cell_runtime(name.as_str());
            self.detach_bindings_for_cell(name.as_str());
            self.audit.record(AuditKind::Stopped, Some(name.clone()), owned("removed for reload"));
        } else {
            proof {
                lemma_free_ids(recs0, id, n);
            }
        }
        let ghost recs_mid = self.registry.records();
        let ghost gate_mid = self.policy;
        assert(name_index(recs_mid, n) < 0);
        assert(crate::registry::id_index(recs_mid, id) < 0 <==> id_free_but(recs0, id, n));
        self.cell_dirs.insert(name.clone(), owned(dir));
        let instance = join3(name.as_str(), "@", version.as_str());
        self.register_cell(instance, manifest)?;
        proof {
            let recs3 = self.registry.records();
            let p = choose|p: int|
                0 <= p <= recs_mid.len() && recs3 == recs_mid.insert(p, recs3[p]) && recs3[p].instance_id@ == id
                    && recs3[p].manifest == m && recs3[p].lifecycle.current() == CellState::Discovered;
            assert(rec_name(recs3[p]) == n);
            lemma_name_at(recs3, n, p);
            assert(record_of(self.registry, n) == recs3[p]);
        }
        let state = self.activate_cell(name.as_str())?;
        let detail = join2("hot-load from ", dir);
        self.audit.record(AuditKind::Registered, Some(name.clone()), detail);
        self.maybe_save_state();
        proof {
            assert(known(self.registry, name@));
        }
        Ok((name, state))
    }
}

impl Host {
    /// Restores one recorded Cell `name` from directory `path`, given what reading its
    /// `cell.yaml` found: nothing for a registered name; for an unknown one, a missing
    /// file or a read that failed is recorded on the audit trail, and a manifest read
    /// is loaded as `load_cell_manifest` loads it, a failure recorded. The answer is
    /// whether the Cell was loaded.
    pub fn restore_cell(&mut self, name: &str, path: &str, found: Option<Result<CellManifest>>) -> (r: bool)
        requires
            old(self).wf(),
        ensures
            final(self).wf(),
            final(self).gate() == old(self).gate(),
            final(self).live() == old(self).live(),
            restore_step(*old(self), *final(self), name@, path@, found, r),
    {
        reveal(restore_step);
        if self.registry.by_name(name).is_some() {
            return false;
        }
        match found {
            None => {
                let detail = join2("restore skip missing ", path);
                self.audit.record(AuditKind::InvokeFailed, Some(owned(name)), detail);
                false
            },
            Some(Err(e)) => {
                let m = e.message();
                let detail = join2("restore load failed: ", m.as_str());
                self.audit.record(AuditKind::InvokeFailed, Some(owned(name)), detail);
                false
            },
            Some(Ok(manifest)) => {
                let ghost m = manifest;
                let res = self.load_cell_manifest(path, false, manifest);
                let ghost gres = res;
                let ghost mid = *self;
                match res {
                    Ok(_) => {
                        proof {
                            assert(restore_loaded(*old(self), *self, name@, m, gres, true));
                        }
                        true
                    },
                    Err(e) => {
                        let msg = e.message();
                        let detail = join2("restore load failed: ", msg.as_str());
                        self.audit.record(AuditKind::InvokeFailed, Some(owned(name)), detail);
                        proof {
                            assert(loaded_from(*old(self), *self, path@, false, m, gres));
                            assert(restore_loaded(*old(self), *self, name@, m, gres, false));
                        }
                        false
                    },
                }
            },
        }
    }

    /// Restores the recorded Cells `dirs` one after another, `found` holding what
    /// reading each one's `cell.yaml` found; answers how many were loaded.
    fn restore_cells(&mut self, dirs: &Vec<(String, String)>, found: Vec<Option<Result<CellManifest>>>) -> (n: usize)
        requires
            old(self).wf(),
        ensures
            final(self).wf(),
            final(self).gate() == old(self).gate(),
            final(self).live() == old(self).live(),
            n <= dirs@.len(),
            exists|hs: Seq<Host>, flags: Seq<bool>|
                #[trigger] restore_chain(*old(self), *final(self), dirs@, found@, hs, flags) && n == count_true(flags),
    {
        let ghost found0 = found@;
        let mut found = found;
        let ghost h0 = *self;
        let ghost mut hs: Seq<Host> = seq![*self];
        let ghost mut flags: Seq<bool> = Seq::empty();
        let mut loaded: usize = 0;
        let mut i: usize = 0;
        while i < dirs.len()
            invariant
                self.wf(),
                self.policy == old(self).policy,
                self.bindings == old(self).bindings,
                i <= dirs@.len(),
                loaded <= i,
                loaded == count_true(flags),
                h0 == *old(self),
                hs.len() == i + 1,
                flags.len() == i,
                hs[0] == h0,
                hs[i as int] == *self,
                forall|j: int|
                    0 <= j < i ==> restore_step(
                        #[trigger] hs[j],
                        hs[j + 1],
                        dirs@[j].0@,
                        dirs@[j].1@,
                        found_at(found0, j),
                        flags[j],
                    ),
                found@ == found0.skip(if i <= found0.len() { i as int } else { found0.len() as int }),
            decreases dirs@.len() - i,
        {
            let name = &dirs[i].0;
            let path = &dirs[i].1;
            let entry = if found.len() > 0 {
                found.remove(0)
            } else {
                None
            };
            proof {
                if i < found0.len() {
                    assert(found_at(found0, i as int) == found0[i as int]);
                }
            }
            assert(entry == found_at(found0, i as int));
            let ghost before = *self;
            let ok = self.restore_cell(name.as_str(), path.as_str(), entry);
            if ok {
                loaded = loaded + 1;
            }
            proof {
                let hs0 = hs;
                let fl0 = flags;
                hs = hs.push(*self);
                flags = flags.push(ok);
                assert(flags.drop_last() =~= fl0);
                assert forall|j: int|
                    0 <= j < i + 1 implies restore_step(
                    #[trigger] hs[j],
                    hs[j + 1],
                    dirs@[j].0@,
                    dirs@[j].1@,
                    found_at(found0, j),
                    flags[j],
                ) by {
                    if j < i {
                        assert(hs[j] == hs0[j] && hs[j + 1] == hs0[j + 1] && flags[j] == fl0[j]);
                    }
                }
            }
            i = i + 1;
        }
        proof {
            assert(restore_chain(h0, *self, dirs@, found0, hs, flags));
        }
        loaded
    }

    /// Restores durable state: grants are merged in (union; `defaultAllow` is or-ed),
    /// each recorded Cell not yet registered is loaded and activated from what reading
    /// its directory's `cell.yaml` found (`found[i]` for entry `i`: nothing when the
    /// file is missing; failures are recorded and skipped, as `restore_cell` does),
    /// and recorded bindings are applied as the next generation. Returns how many
    /// Cells were loaded.
    #[verifier::rlimit(30)]
    pub fn restore_state(&mut self, state: &HostStateFile, found: Vec<Option<Result<CellManifest>>>) -> (r: Result<
        usize,
    >)
        requires
            old(self).wf(),
            state.bindings.items@.len() > 0 ==> old(self).live().current_generation() < u64::MAX,
        ensures
            final(self).wf(),
            final(self).gate().default_allow == (old(self).gate().default_allow || state.policy.default_allow),
            crate::policy::texts(final(self).gate().granted_process@) == with_all(
                crate::policy::texts(old(self).gate().granted_process@),
                crate::policy::texts(state.policy.granted_process@),
            ),
            crate::policy::texts(final(self).gate().granted_network@) == with_all(
                crate::policy::texts(old(self).gate().granted_network@),
                crate::policy::texts(state.policy.granted_network@),
            ),
            crate::policy::texts(final(self).gate().granted_filesystem@) == with_all(
                crate::policy::texts(old(self).gate().granted_filesystem@),
                crate::policy::texts(state.policy.granted_filesystem@),
            ),
            crate::policy::texts(final(self).gate().granted_secrets@) == with_all(
                crate::policy::texts(old(self).gate().granted_secrets@),
                crate::policy::texts(state.policy.granted_secrets@),
            ),
            crate::policy::texts(final(self).gate().granted_peers@) == with_all(
                crate::policy::texts(old(self).gate().granted_peers@),
                crate::policy::texts(state.policy.granted_peers@),
            ),
            r matches Ok(n) ==> n <= state.cell_dirs@.len(),
            r is Ok && state.bindings.items@.len() == 0 ==> final(self).live() == old(self).live(),
            r is Ok && state.bindings.items@.len() > 0 ==> final(self).live().current_generation()
                == old(self).live().current_generation() + 1 && edge_views(final(self).live().items()) == edge_views(
                state.bindings.items@,
            ),
            state.bindings.items@.len() == 0 ==> r is Ok,
            state.bindings.items@.len() > 0 ==> (r is Err <==> exists|i: int|
                0 <= i < state.bindings.items@.len() && restore_blocked(
                    final(self).reg().records(),
                    #[trigger] state.bindings.items@[i],
                )),
            r matches Ok(n) ==> restore_run(*old(self), *final(self), state.cell_dirs@, found@, n as nat),
    {
        let ghost found0 = found@;
        let was_persist = self.persist_enabled;
        self.persist_enabled = false;
        self.policy.default_allow = self.policy.default_allow || state.policy.default_allow;
        push_all_unique(&mut self.policy.granted_process, &state.policy.granted_process);
        push_all_unique(&mut self.policy.granted_network, &state.policy.granted_network);
        push_all_unique(&mut self.policy.granted_filesystem, &state.policy.granted_filesystem);
        push_all_unique(&mut self.policy.granted_secrets, &state.policy.granted_secrets);
        push_all_unique(&mut self.policy.granted_peers, &state.policy.granted_peers);
        let ghost h0 = *self;
        let loaded = self.restore_cells(&state.cell_dirs, found);
        let ghost h_loaded = *self;
        if state.bindings.items.len() > 0 {
            let generation = self.bindings.generation() + 1;
            let mut edges: Vec<ProposedBinding> = Vec::new();
            let mut k: usize = 0;
            while k < state.bindings.items.len()
                invariant
                    k <= state.bindings.items@.len(),
                    edges@.len() == k,
                    forall|j: int|
                        0 <= j < k ==> crate::binding::proposed_view(#[trigger] edges@[j]) == crate::binding::edge_view(
                            state.bindings.items@[j],
                        ),
                decreases state.bindings.items@.len() - k,
            {
                let b = &state.bindings.items[k];
                edges.push(
                    ProposedBinding {
                        consumer: b.consumer.clone(),
                        provider: b.provider.clone(),
                        capability: b.capability.clone(),
                        required: b.required,
                    },
                );
                k = k + 1;
            }
            assert(proposed_views(edges@) =~= edge_views(state.bindings.items@));
            let proposal = BindingProposal {
                api_version: owned("kcell.dev/v1"),
                kind: owned("BindingProposal"),
                metadata: ProposalMetadata {
                    proposer: owned("kcell:restore-state"),
                    generation,
                    reason: Some(owned("restore durable host state")),
                },
                spec: ProposalSpec { bindings: edges, replace_generation: Some(self.bindings.generation()) },
            };
            let ghost p = proposal;
            let ghost recs = self.registry.records();
            let applied = self.apply_binding_proposal(proposal);
            proof {
                reveal_strlit("kcell.dev/v1");
                reveal_strlit("BindingProposal");
                reveal_strlit("kcell:restore-state");
                assert(crate::binding::refusal(old(self).live().current_generation(), p) is None);
                assert((crate::manifest::binding_proposal::proposal_problem(p) is None && crate::binding::all_pairs_ok(
                    recs,
                    p.spec.bindings@,
                )) <==> !exists|j: int|
                    0 <= j < state.bindings.items@.len() && restore_blocked(recs, #[trigger] state.bindings.items@[j])) by {
                    let edges = p.spec.bindings@;
                    let items = state.bindings.items@;
                    assert forall|j: int| 0 <= j < edges.len() implies (crate::manifest::binding_proposal::edge_blank(
                        #[trigger] edges[j],
                    ) || crate::binding::pair_problem(recs, edges[j]) is Some) == restore_blocked(recs, items[j]) by {
                        assert(proposed_views(edges)[j] == edge_views(items)[j]);
                    }
                    assert(p.api_version@ == crate::manifest::cell::api_v1());
                    assert(p.metadata.proposer@.len() > 0);
                    assert(p.kind@ == "BindingProposal"@);
                    assert(crate::manifest::binding_proposal::proposal_problem(p) is None <==> !exists|j: int|
                        0 <= j < edges.len() && crate::manifest::binding_proposal::edge_blank(#[trigger] edges[j]));
                    if exists|j: int| 0 <= j < items.len() && restore_blocked(recs, #[trigger] items[j]) {
                        let j = choose|j: int| 0 <= j < items.len() && restore_blocked(recs, #[trigger] items[j]);
                        assert(crate::manifest::binding_proposal::edge_blank(edges[j]) || crate::binding::pair_problem(
                            recs,
                            edges[j],
                        ) is Some);
                    } else {
                        assert forall|j: int| 0 <= j < edges.len() implies !crate::manifest::binding_proposal::edge_blank(
                            #[trigger] edges[j],
                        ) && crate::binding::pair_problem(recs, edges[j]) is None by {
                            assert(!restore_blocked(recs, items[j]));
                        }
                    }
                }
            }
            let _ = applied?;
        }
        self.persist_enabled = was_persist;
        self.maybe_save_state();
        proof {
            let (hs, flags) = choose|hs: Seq<Host>, flags: Seq<bool>|
                restore_chain(h0, h_loaded, state.cell_dirs@, found0, hs, flags) && loaded == count_true(flags);
            assert(restore_chain(h0, h_loaded, state.cell_dirs@, found0, hs, flags));
        }
        Ok(loaded)
    }
}

impl Host {
    /// Starts one Cell an AI-man lists, from the manifest read for it out of `dir`:
    /// a manifest named otherwise is a validation error and changes nothing; else the
    /// directory is remembered, the Cell registered as `name@version` unless known,
    /// and activated. Whether it was activated is the answer; an optional Cell that
    /// cannot be activated is skipped (`false`), another one is an error.
    pub fn start_listed_cell(&mut self, cref: &crate::manifest::aiman::CellRef, dir: String, manifest: CellManifest) -> (r:
        Result<bool>)
        requires
            old(self).wf(),
        ensures
            final(self).wf(),
            final(self).gate() == old(self).gate(),
            final(self).live() == old(self).live(),
            keeps_others(old(self).reg(), final(self).reg(), cref.name@),
            manifest.metadata.name@ != cref.name@ ==> (r matches Err(e) && is_validation(
                e,
                "ai-man name `"@ + cref.name@ + "` != cell.yaml name `"@ + manifest.metadata.name@ + "`"@,
            )) && *final(self) == *old(self),
            manifest.metadata.name@ == cref.name@ ==> {
                let n = cref.name@;
                let id = n + "@"@ + manifest.metadata.version@;
                let registered = known(old(self).reg(), n) || crate::registry::id_index(old(self).reg().records(), id) < 0;
                let ok = if known(old(self).reg(), n) {
                    activation_ok(old(self).gate(), record_of(old(self).reg(), n))
                } else {
                    admits(old(self).gate(), manifest) && manifest.spec.runtime.kind != RuntimeKind::Wasi
                };
                &&& final(self).dirs() == old(self).dirs().insert(n, dir)
                &&& !registered ==> r is Err
                &&& registered && ok ==> r == Ok::<bool, Error>(true) && known(final(self).reg(), n) && rec_state(
                    record_of(final(self).reg(), n),
                ) == CellState::Active
                &&& registered && !ok && cref.optional ==> r == Ok::<bool, Error>(false)
                &&& registered && !ok && !cref.optional ==> r is Err
            },
    {
        if !same_text(manifest.metadata.name.as_str(), cref.name.as_str()) {
            let m = join5("ai-man name `", cref.name.as_str(), "` != cell.yaml name `", manifest.metadata.name.as_str(), "`");
            return Err(Error::Validation(m));
        }
        let ghost n = cref.name@;
        let ghost m = manifest;
        let ghost id = n + "@"@ + manifest.metadata.version@;
        let ghost recs0 = self.registry.records();
        self.cell_dirs.insert(cref.name.clone(), dir);
        let instance = join3(cref.name.as_str(), "@", manifest.metadata.version.as_str());
        if self.registry.by_name(cref.name.as_str()).is_none() {
            self.register_cell(instance, manifest)?;
            proof {
                let recs3 = self.registry.records();
                let p = choose|p: int|
                    0 <= p <= recs0.len() && recs3 == recs0.insert(p, recs3[p]) && recs3[p].instance_id@ == id
                        && recs3[p].manifest == m && recs3[p].lifecycle.current() == CellState::Discovered;
                assert(rec_name(recs3[p]) == n);
                lemma_name_at(recs3, n, p);
                assert(record_of(self.registry, n) == recs3[p]);
                assert forall|k: Seq<char>| k != n && #[trigger] known(old(self).reg(), k) implies known(self.reg(), k)
                    && record_of(self.reg(), k) == record_of(old(self).reg(), k) by {
                    lemma_record_kept_insert(recs0, recs3, p, k);
                }
            }
        }
        let ghost reg_mid = self.reg();
        let res = self.activate_cell(cref.name.as_str());
        proof {
            assert forall|k: Seq<char>| k != n && #[trigger] known(reg_mid, k) implies known(self.reg(), k) && record_of(
                self.reg(),
                k,
            ) == record_of(reg_mid, k) by {
                if known(reg_mid, n) && admits(self.gate(), record_of(reg_mid, n).manifest) && crate::lifecycle::path_index(
                    rec_state(record_of(reg_mid, n)),
                ) >= 0 {
                    let i = name_index(reg_mid.records(), n);
                    let t = name_index(reg_mid.records(), k);
                    assert(rec_name(reg_mid.records()[t]) == k);
                    assert(self.reg().records()[t] == reg_mid.records()[t]);
                    lemma_name_at(self.reg().records(), k, t);
                }
            }
        }
        match res {
            Ok(_) => Ok(true),
            Err(e) => {
                if cref.optional {
                    Ok(false)
                } else {
                    Err(e)
                }
            },
        }
    }

    /// Loads the Cells an AI-man lists (directories relative to `root`) in start-up
    /// order, registering and activating each (an optional Cell that fails to activate
    /// is skipped), then applies the AI-man's static bindings. The AI-man's policy sets
    /// `defaultAllow` first. Returns the Cells activated, in order.
    pub fn activate_aiman(&mut self, aiman: &crate::manifest::aiman::AIManManifest, root: &str) -> (r: Result<Vec<String>>)
        requires
            old(self).wf(),
            aiman.spec.bindings@.len() > 0 ==> old(self).live().current_generation() < u64::MAX,
        ensures
            final(self).wf(),
            final(self).gate().default_allow == aiman.spec.policy.default_allow,
            (exists|i: int, k: int| #[trigger] crate::order::unknown_at(aiman.spec.cells@, i, k)) ==> r is Err,
            r is Ok && aiman.spec.bindings@.len() == 0 ==> final(self).live() == old(self).live(),
            r is Ok && aiman.spec.bindings@.len() > 0 ==> final(self).live().current_generation() == old(
                self,
            ).live().current_generation() + 1 && edge_views(final(self).live().items()) == proposed_views(
                static_edges(aiman.spec.bindings@),
            ),
            (exists|s: Set<Seq<char>>| crate::order::cycle_in(aiman.spec.cells@, s)) ==> r is Err,
            aiman.spec.cells@.len() == 0 ==> (r is Ok <==> aiman.spec.bindings@.len() == 0 || (forall|k: int|
                0 <= k < aiman.spec.bindings@.len() ==> !crate::manifest::binding_proposal::edge_blank(
                    #[trigger] static_edges(aiman.spec.bindings@)[k],
                )) && crate::binding::all_pairs_ok(old(self).reg().records(), static_edges(aiman.spec.bindings@))),
            aiman.spec.cells@.len() == 0 ==> (r matches Ok(v) ==> v@.len() == 0),
            r matches Ok(v) ==> {
                &&& forall|k: int| 0 <= k < v@.len() ==> crate::order::is_cell(aiman.spec.cells@, (#[trigger] v@[k])@)
                &&& forall|a: int, b: int| 0 <= a < b < v@.len() ==> (#[trigger] v@[a])@ != (#[trigger] v@[b])@
                &&& forall|k: int|
                    0 <= k < v@.len() ==> known(final(self).reg(), (#[trigger] v@[k])@) && rec_state(
                        record_of(final(self).reg(), v@[k]@),
                    ) == CellState::Active
                &&& forall|n: Seq<char>| #[trigger] required_at(aiman.spec.cells@, n) ==> views_of(v@).contains(n)
                &&& exists|o: Seq<Seq<char>>, idx: Seq<int>|
                    #![trigger crate::order::valid_order(aiman.spec.cells@, o), idx.len()]
                    crate::order::valid_order(aiman.spec.cells@, o) && crate::order::ready_order(aiman.spec.cells@, o)
                        && in_order_of(views_of(v@), o, idx)
            },
    {
        self.policy.default_allow = aiman.spec.policy.default_allow;
        let files = aiman_cell_files(aiman, root)?;
        let ghost o = choose|o: Seq<Seq<char>>|
            crate::order::valid_order(aiman.spec.cells@, o) && crate::order::ready_order(aiman.spec.cells@, o) && files_for(
                aiman.spec.cells@,
                root@,
                o,
                files@,
            );
        proof {
            if aiman.spec.cells@.len() == 0 {
                assert(o.len() == 0) by {
                    if o.len() > 0 {
                        assert(o.contains(o[0]));
                    }
                }
            }
        }
        let mut activated: Vec<String> = Vec::new();
        let ghost mut idx: Seq<int> = Seq::empty();
        let mut i: usize = 0;
        proof {
            assert(views_of(activated@) =~= Seq::<Seq<char>>::empty());
        }
        while i < files.len()
            invariant
                self.wf(),
                self.live() == old(self).live(),
                self.policy.default_allow == aiman.spec.policy.default_allow,
                i <= files@.len(),
                crate::order::valid_order(aiman.spec.cells@, o),
                files_for(aiman.spec.cells@, root@, o, files@),
                i == 0 ==> self.reg() == old(self).reg(),
                forall|k: int|
                    0 <= k < activated@.len() ==> crate::order::is_cell(aiman.spec.cells@, (#[trigger] activated@[k])@),
                forall|k: int|
                    0 <= k < activated@.len() ==> exists|t: int|
                        0 <= t < i && o[t] == (#[trigger] activated@[k])@,
                forall|a: int, b: int|
                    0 <= a < b < activated@.len() ==> (#[trigger] activated@[a])@ != (#[trigger] activated@[b])@,
                forall|k: int|
                    0 <= k < activated@.len() ==> known(self.reg(), (#[trigger] activated@[k])@) && rec_state(
                        record_of(self.reg(), activated@[k]@),
                    ) == CellState::Active,
                forall|t: int|
                    0 <= t < i && #[trigger] required_at(aiman.spec.cells@, o[t]) ==> views_of(
                        activated@,
                    ).contains(o[t]),
                crate::order::ready_order(aiman.spec.cells@, o),
                in_order_of(views_of(activated@), o, idx),
                forall|k: int| 0 <= k < idx.len() ==> #[trigger] idx[k] < i,
            decreases files@.len() - i,
        {
            let f = &files[i];
            proof {
                assert(file_for(aiman.spec.cells@, root@, o[i as int], files@[i as int]));
            }
            let cref = &aiman.spec.cells[f.entry];
            let dir = f.dir.clone();
            let yaml = f.yaml.clone();
            let manifest = match &self.env {
                Some(env) => env.load_cell(yaml.as_str())?,
                None => {
                    return Err(Error::Io(owned("no host environment to read files")));
                },
            };
            let ghost reg_before = self.reg();
            let started = self.start_listed_cell(cref, dir, manifest)?;
            proof {
                assert forall|k: int| 0 <= k < activated@.len() implies known(self.reg(), (#[trigger] activated@[k])@)
                    && rec_state(record_of(self.reg(), activated@[k]@)) == CellState::Active by {
                    let t = choose|t: int| 0 <= t < i && o[t] == activated@[k]@;
                    assert(o[t] != o[i as int]);
                    assert(known(reg_before, activated@[k]@));
                }
            }
            let ghost act0 = activated@;
            if started {
                activated.push(cref.name.clone());
                proof {
                    assert(o[i as int] == activated@.last()@);
                    let idx0 = idx;
                    idx = idx.push(i as int);
                    assert(views_of(activated@) =~= views_of(act0).push(o[i as int]));
                    assert forall|k: int| 0 <= k < idx.len() implies 0 <= #[trigger] idx[k] < o.len() && o[idx[k]] == views_of(activated@)[k] by {
                        if k < idx0.len() {
                            assert(idx[k] == idx0[k]);
                            assert(views_of(activated@)[k] == views_of(act0)[k]);
                        }
                    }
                }
            }
            proof {
                assert forall|t: int|
                    0 <= t <= i && #[trigger] required_at(aiman.spec.cells@, o[t]) implies views_of(
                    activated@,
                ).contains(o[t]) by {
                    if t < i {
                        assert(views_of(act0).contains(o[t]));
                        let k = choose|k: int| 0 <= k < act0.len() && views_of(act0)[k] == o[t];
                        assert(activated@[k] == act0[k]);
                        assert(views_of(activated@)[k] == o[t]);
                    } else {
                        let j = files@[i as int].entry as int;
                        assert(aiman.spec.cells@[j] == *cref);
                        let j2 = choose|j2: int|
                            0 <= j2 < aiman.spec.cells@.len() && aiman.spec.cells@[j2].name@ == o[t]
                                && first_listed(aiman.spec.cells@, j2) && !aiman.spec.cells@[j2].optional;
                        if j < j2 {
                            assert(aiman.spec.cells@[j].name@ == aiman.spec.cells@[j2].name@);
                        } else if j2 < j {
                            assert(aiman.spec.cells@[j2].name@ == aiman.spec.cells@[j].name@);
                        }
                        assert(views_of(activated@)[activated@.len() - 1] == o[t]);
                    }
                }
            }
            i = i + 1;
        }
        let ghost reg_loop = self.reg();
        proof {
            if aiman.spec.cells@.len() == 0 {
                assert(files@.len() == 0);
                assert(i == 0);
                assert(activated@.len() == 0) by {
                    if activated@.len() > 0 {
                        assert(idx[0] < o.len());
                    }
                }
            }
        }
        let _ = self.apply_aiman_bindings(aiman)?;
        proof {
            assert forall|n: Seq<char>| #[trigger] required_at(aiman.spec.cells@, n) implies views_of(activated@).contains(n) by {
                let j = choose|j: int|
                    0 <= j < aiman.spec.cells@.len() && aiman.spec.cells@[j].name@ == n && first_listed(aiman.spec.cells@, j)
                        && !aiman.spec.cells@[j].optional;
                assert(aiman.spec.cells@[j].name@ == n);
                assert(crate::order::is_cell(aiman.spec.cells@, n));
                assert(o.contains(n));
                let t = choose|t: int| 0 <= t < files@.len() && o[t] == n;
                assert(required_at(aiman.spec.cells@, o[t]));
            }
            assert(crate::order::valid_order(aiman.spec.cells@, o) && idx.len() == idx.len());
        }
        Ok(activated)
    }
}

/// A Cell file an AI-man asks to read: the Cell's name, the position of its first
/// listing, its directory (`root` joined with the listed path) and its manifest
/// (`cell.yaml` in that directory).
pub struct CellFile {
    pub name: String,
    pub entry: usize,
    pub dir: String,
    pub yaml: String,
}

/// The files an AI-man's Cells are read from, in start-up order. A dependency on an
/// unlisted Cell or a dependency cycle is refused, as `startup_order` refuses it.
pub fn aiman_cell_files(aiman: &crate::manifest::aiman::AIManManifest, root: &str) -> (r: Result<Vec<CellFile>>)
    ensures
        r is Err <==> (exists|i: int, k: int| #[trigger] crate::order::unknown_at(aiman.spec.cells@, i, k)) || (exists|
            s: Set<Seq<char>>,
        | crate::order::cycle_in(aiman.spec.cells@, s)),
        (exists|i: int, k: int| #[trigger] crate::order::unknown_at(aiman.spec.cells@, i, k)) ==> exists|i: int, k: int|
            crate::order::first_unknown(aiman.spec.cells@, i, k) && (r matches Err(e) && is_validation(
                e,
                crate::order::unknown_msg(aiman.spec.cells@[i].name@, aiman.spec.cells@[i].depends_on@[k]@),
            )),
        !(exists|i: int, k: int| #[trigger] crate::order::unknown_at(aiman.spec.cells@, i, k)) && r is Err ==> (r matches Err(
            e,
        ) && is_validation(e, "ai-man cell dependsOn graph has a cycle"@)),
        r matches Ok(files) ==> exists|o: Seq<Seq<char>>|
            #[trigger] crate::order::valid_order(aiman.spec.cells@, o) && crate::order::ready_order(aiman.spec.cells@, o)
                && files_for(aiman.spec.cells@, root@, o, files@),
{
    let order = crate::order::startup_order(aiman)?;
    let cells = &aiman.spec.cells;
    let mut files: Vec<CellFile> = Vec::new();
    let mut i: usize = 0;
    while i < order.len()
        invariant
            i <= order@.len(),
            crate::order::valid_order(cells@, crate::order::views(order@)),
            files@.len() == i,
            forall|k: int| 0 <= k < i ==> #[trigger] file_for(cells@, root@, crate::order::views(order@)[k], files@[k]),
        decreases order@.len() - i,
    {
        let name = &order[i];
        proof {
            assert(crate::order::views(order@)[i as int] == name@);
            assert(crate::order::views(order@).contains(name@));
        }
        let entry = first_entry(cells, name.as_str());
        let dir = crate::paths::join_path(root, cells[entry].path.as_str());
        let yaml = crate::paths::join_path(dir.as_str(), "cell.yaml");
        let ghost f0 = files@;
        files.push(CellFile { name: name.clone(), entry, dir, yaml });
        proof {
            assert forall|k: int| 0 <= k < i + 1 implies #[trigger] file_for(
                cells@,
                root@,
                crate::order::views(order@)[k],
                files@[k],
            ) by {
                if k < i {
                    assert(files@[k] == f0[k]);
                }
            }
        }
        i = i + 1;
    }
    proof {
        if exists|s: Set<Seq<char>>| crate::order::cycle_in(cells@, s) {
            let s = choose|s: Set<Seq<char>>| crate::order::cycle_in(cells@, s);
            crate::order::cycle_has_no_order(cells@, crate::order::views(order@), s);
        }
        assert(files_for(cells@, root@, crate::order::views(order@), files@));
    }
    Ok(files)
}

/// `f` is the file of the Cell named `name`: its first listing, and the paths made
/// from `root` and that listing's path.
pub open spec fn file_for(cells: Seq<crate::manifest::aiman::CellRef>, root: Seq<char>, name: Seq<char>, f: CellFile) -> bool {
    &&& f.name@ == name
    &&& f.entry < cells.len()
    &&& cells[f.entry as int].name@ == name
    &&& first_listed(cells, f.entry as int)
    &&& f.dir@ == crate::paths::joined(root, cells[f.entry as int].path@)
    &&& f.yaml@ == crate::paths::joined(f.dir@, "cell.yaml"@)
}

/// `files` are the files of the Cells named in `o`, in that order.
pub open spec fn files_for(cells: Seq<crate::manifest::aiman::CellRef>, root: Seq<char>, o: Seq<Seq<char>>, files: Seq<CellFile>) -> bool {
    &&& files.len() == o.len()
    &&& forall|k: int| 0 <= k < o.len() ==> #[trigger] file_for(cells, root, o[k], files[k])
}

/// Position of the first Cell of an AI-man named `name`, which is listed.
fn first_entry(cells: &Vec<crate::manifest::aiman::CellRef>, name: &str) -> (r: usize)
    requires
        crate::order::is_cell(cells@, name@),
    ensures
        r < cells@.len(),
        cells@[r as int].name@ == name@,
        first_listed(cells@, r as int),
{
    let mut i: usize = 0;
    while i < cells.len()
        invariant
            i <= cells@.len(),
            crate::order::is_cell(cells@, name@),
            forall|j: int| 0 <= j < i ==> (#[trigger] cells@[j]).name@ != name@,
        decreases cells@.len() - i,
    {
        if same_text(cells[i].name.as_str(), name) {
            return i;
        }
        i = i + 1;
    }
    proof {
        let j = choose|j: int| 0 <= j < cells@.len() && (#[trigger] cells@[j]).name@ == name@;
    }
    0
}


} // verus!
