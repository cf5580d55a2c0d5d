//! The local control plane: one request in, one response out, answered against a
//! Host. Moving the JSON lines over a socket is left to the embedding program.

use vstd::prelude::*;

use crate::audit::AuditEvent;
use crate::binding::{ActiveBinding, BindingApplyResult};
use crate::discover::ProviderInfo;
use crate::envelope::Envelope;
use crate::error::{is_validation, Error, Result};
use crate::host::Host;
use crate::json::JsonValue;
use crate::lifecycle::{state_name, CellState};
use crate::manifest::binding_proposal::BindingProposal;
use crate::manifest::cell::RuntimeKind;
use crate::text::{chars_of, join3, lower_chars, lower_seq, owned, same_text, string_of};

verus! {

/// The schema tag, as the constant users write.
pub const CONTROL_SCHEMA: &'static str = "kcell.control.v1";

/// The schema tag of control messages.
pub open spec fn control_schema() -> Seq<char> {
    "kcell.control.v1"@
}

/// A control request.
#[derive(Debug)]
pub struct ControlRequest {
    pub schema: String,
    pub id: String,
    pub op: String,
    pub capability: Option<String>,
    pub consumer: Option<String>,
    pub payload: Option<JsonValue>,
    pub limit: Option<usize>,
    pub path: Option<String>,
    pub cell: Option<String>,
    pub replace: bool,
    /// For `auto_bind` and `propose_from`: apply the proposal.
    pub apply: bool,
}

/// One Cell in a `status` answer.
#[derive(Debug, Clone)]
pub struct CellStatus {
    pub name: String,
    pub version: String,
    pub runtime: String,
    pub state: String,
}

/// What a request was answered with.
#[derive(Debug)]
pub enum ControlResult {
    /// Nothing (an error answer).
    Nothing,
    /// `{"pong": true}`.
    Pong,
    /// The Host's summary.
    Status { cells: Vec<CellStatus>, binding_generation: u64, bindings: usize, providers: usize, audit: usize },
    /// `{"providers": [...]}`.
    Providers(Vec<ProviderInfo>),
    /// The reply envelope of an invoke.
    Invoked(Envelope),
    /// `{"events": [...]}`, newest first.
    Events(Vec<AuditEvent>),
    /// A Cell loaded: its name, state and the providers after loading.
    Loaded { cell: String, state: String, providers: Vec<ProviderInfo> },
    /// A Cell unloaded: its name and final state.
    Unloaded { cell: String, state: String },
    /// The outcome of applying a proposal file.
    Applied(BindingApplyResult),
    /// A proposal, what applying it gave, and the live bindings after.
    Proposal {
        proposal: BindingProposal,
        applied: Option<BindingApplyResult>,
        binding_generation: u64,
        bindings: Vec<ActiveBinding>,
    },
    /// `{"bye": true}`.
    Bye,
}

/// A control response.
#[derive(Debug)]
pub struct ControlResponse {
    pub schema: String,
    pub id: String,
    pub ok: bool,
    pub error: Option<String>,
    pub result: ControlResult,
}

/// Why a request is malformed; `None` when it is well formed.
pub open spec fn request_problem(r: ControlRequest) -> Option<Seq<char>> {
    if r.schema@ != control_schema() {
        Some("unsupported control schema `"@ + r.schema@ + "`"@)
    } else if r.id@.len() == 0 || r.op@.len() == 0 {
        Some("control id/op required"@)
    } else {
        None
    }
}

/// A request id from the clock: `ctrl-` and nanoseconds.
pub open spec fn fresh_ctrl_id(id: Seq<char>) -> bool {
    crate::clock::stamped("ctrl-"@, id)
}

/// `r` is a fresh request for `op` with every optional part empty.
pub open spec fn bare_request(r: ControlRequest, op: Seq<char>) -> bool {
    &&& r.schema@ == control_schema()
    &&& fresh_ctrl_id(r.id@)
    &&& r.op@ == op
    &&& r.capability is None
    &&& r.consumer is None
    &&& r.payload is None
    &&& r.limit is None
    &&& r.path is None
    &&& r.cell is None
    &&& !r.replace
    &&& !r.apply
}

/// A fresh request id: `ctrl-` and the time in nanoseconds.
fn new_id() -> (r: String)
    ensures
        crate::clock::stamped("ctrl-"@, r@),
{
    crate::clock::time_id("ctrl-")
}

impl ControlRequest {
    fn base(op: &str) -> (r: ControlRequest)
        ensures
            bare_request(r, op@),
    {
        ControlRequest {
            schema: owned("kcell.control.v1"),
            id: new_id(),
            op: owned(op),
            capability: None,
            consumer: None,
            payload: None,
            limit: None,
            path: None,
            cell: None,
            replace: false,
            apply: false,
        }
    }

    /// `ping`.
    pub fn ping() -> (r: ControlRequest)
        ensures
            bare_request(r, "ping"@),
    {
        ControlRequest::base("ping")
    }

    /// `status`.
    pub fn status() -> (r: ControlRequest)
        ensures
            bare_request(r, "status"@),
    {
        ControlRequest::base("status")
    }

    /// `discover`, optionally of one capability.
    pub fn discover(capability: Option<String>) -> (r: ControlRequest)
        ensures
            bare_request(ControlRequest { capability: None, ..r }, "discover"@),
            r.capability == capability,
    {
        let mut r = ControlRequest::base("discover");
        r.capability = capability;
        r
    }

    /// `invoke` of `capability` for `consumer` with `payload`.
    pub fn invoke(consumer: String, capability: String, payload: JsonValue) -> (r: ControlRequest)
        ensures
            r.schema@ == control_schema(),
            fresh_ctrl_id(r.id@),
            r.op@ == "invoke"@,
            r.capability == Some(capability),
            r.consumer == Some(consumer),
            r.payload matches Some(p) && crate::json::jv(p) == crate::json::jv(payload),
            r.limit is None && r.path is None && r.cell is None && !r.replace && !r.apply,
    {
        let mut r = ControlRequest::base("invoke");
        r.capability = Some(capability);
        r.consumer = Some(consumer);
        r.payload = Some(payload);
        r
    }

    /// `audit`, at most `limit` events.
    pub fn audit(limit: Option<usize>) -> (r: ControlRequest)
        ensures
            bare_request(ControlRequest { limit: None, ..r }, "audit"@),
            r.limit == limit,
    {
        let mut r = ControlRequest::base("audit");
        r.limit = limit;
        r
    }

    /// `load` of the Cell directory `path`.
    pub fn load(path: String, replace: bool) -> (r: ControlRequest)
        ensures
            bare_request(ControlRequest { path: None, replace: false, ..r }, "load"@),
            r.path == Some(path),
            r.replace == replace,
    {
        let mut r = ControlRequest::base("load");
        r.path = Some(path);
        r.replace = replace;
        r
    }

    /// `unload` of the Cell `cell`.
    pub fn unload(cell: String) -> (r: ControlRequest)
        ensures
            bare_request(ControlRequest { cell: None, ..r }, "unload"@),
            r.cell == Some(cell),
    {
        let mut r = ControlRequest::base("unload");
        r.cell = Some(cell);
        r
    }

    /// `apply_bindings` of the proposal file `path`.
    pub fn apply_bindings(path: String) -> (r: ControlRequest)
        ensures
            bare_request(ControlRequest { path: None, ..r }, "apply_bindings"@),
            r.path == Some(path),
    {
        let mut r = ControlRequest::base("apply_bindings");
        r.path = Some(path);
        r
    }

    /// `auto_bind`, applying the proposal when `apply`.
    pub fn auto_bind(apply: bool) -> (r: ControlRequest)
        ensures
            bare_request(ControlRequest { apply: false, ..r }, "auto_bind"@),
            r.apply == apply,
    {
        let mut r = ControlRequest::base("auto_bind");
        r.apply = apply;
        r
    }

    /// `propose_from` the Cell `cell`, applying when `apply`.
    pub fn propose_from(cell: String, apply: bool) -> (r: ControlRequest)
        ensures
            bare_request(ControlRequest { cell: None, apply: false, ..r }, "propose_from"@),
            r.cell == Some(cell),
            r.apply == apply,
    {
        let mut r = ControlRequest::base("propose_from");
        r.cell = Some(cell);
        r.apply = apply;
        r
    }

    /// `shutdown`.
    pub fn shutdown() -> (r: ControlRequest)
        ensures
            bare_request(r, "shutdown"@),
    {
        ControlRequest::base("shutdown")
    }

    /// Checks the schema tag, and that id and op are set.
    pub fn validate(&self) -> (r: Result<()>)
        ensures
            r is Ok <==> request_problem(*self) is None,
            r matches Err(e) ==> is_validation(e, request_problem(*self)->0),
    {
        if !same_text(self.schema.as_str(), "kcell.control.v1") {
            return Err(Error::Validation(join3("unsupported control schema `", self.schema.as_str(), "`")));
        }
        if self.id.as_str().unicode_len() == 0 || self.op.as_str().unicode_len() == 0 {
            return Err(Error::Validation(owned("control id/op required")));
        }
        Ok(())
    }
}

/// A successful answer to request `id`.
pub fn ok_resp(id: &str, result: ControlResult) -> (r: ControlResponse)
    ensures
        r.schema@ == control_schema(),
        r.id@ == id@,
        r.ok,
        r.error is None,
        r.result == result,
{
    ControlResponse { schema: owned("kcell.control.v1"), id: owned(id), ok: true, error: None, result }
}

/// A failed answer to request `id`.
pub fn err_resp(id: &str, error: String) -> (r: ControlResponse)
    ensures
        r.schema@ == control_schema(),
        r.id@ == id@,
        !r.ok,
        r.error == Some(error),
        r.result is Nothing,
{
    ControlResponse { schema: owned("kcell.control.v1"), id: owned(id), ok: false, error: Some(error), result: ControlResult::Nothing }
}

/// The name of a runtime, as `{:?}` prints it.
pub open spec fn runtime_name(k: RuntimeKind) -> Seq<char> {
    match k {
        RuntimeKind::Wasi => "Wasi"@,
        RuntimeKind::Subprocess => "Subprocess"@,
        RuntimeKind::Inprocess => "Inprocess"@,
    }
}

fn lower_text(s: &str) -> (r: String)
    ensures
        r@ == lower_seq(s@),
{
    let cs = chars_of(s);
    let l = lower_chars(&cs);
    string_of(l.as_slice())
}

fn runtime_text(k: RuntimeKind) -> (r: String)
    ensures
        r@ == lower_seq(runtime_name(k)),
{
    match k {
        RuntimeKind::Wasi => lower_text("Wasi"),
        RuntimeKind::Subprocess => lower_text("Subprocess"),
        RuntimeKind::Inprocess => lower_text("Inprocess"),
    }
}

fn state_text(s: CellState) -> (r: String)
    ensures
        r@ == lower_seq(state_name(s)),
{
    let d = s.debug_name();
    lower_text(d.as_str())
}

/// The `status` line of a Cell.
pub open spec fn status_of(r: CellStatus, rec: crate::registry::CellRecord) -> bool {
    &&& r.name@ == rec.manifest.metadata.name@
    &&& r.version@ == rec.manifest.metadata.version@
    &&& r.runtime@ == lower_seq(runtime_name(rec.manifest.spec.runtime.kind))
    &&& r.state@ == lower_seq(state_name(crate::registry::rec_state(rec)))
}

fn copy_event(e: &AuditEvent) -> (r: AuditEvent)
    ensures
        r == *e,
{
    AuditEvent {
        seq: e.seq,
        at_ms: e.at_ms,
        kind: e.kind,
        cell: match &e.cell {
            Some(c) => Some(c.clone()),
            None => None,
        },
        detail: e.detail.clone(),
    }
}

/// The last `limit` events of `events`, newest first.
pub open spec fn newest(events: Seq<AuditEvent>, limit: nat) -> Seq<AuditEvent> {
    let k = if limit < events.len() { limit } else { events.len() };
    Seq::new(k, |i: int| events[events.len() - 1 - i])
}

fn newest_events(host: &Host, limit: usize) -> (r: Vec<AuditEvent>)
    ensures
        r@ == newest(host.trail().kept(), limit as nat),
{
    let events = host.audit().events();
    let n = events.len();
    let k = if limit < n {
        limit
    } else {
        n
    };
    let mut out: Vec<AuditEvent> = Vec::new();
    let mut i: usize = 0;
    while i < k
        invariant
            k <= n,
            n == events@.len(),
            events@ == host.trail().kept(),
            k == (if (limit as nat) < events@.len() { limit as nat } else { events@.len() }),
            i <= k,
            out@ == newest(events@, limit as nat).take(i as int),
        decreases k - i,
    {
        out.push(copy_event(&events[n - 1 - i]));
        assert(out@ =~= newest(events@, limit as nat).take(i + 1));
        i = i + 1;
    }
    assert(out@ =~= newest(events@, limit as nat));
    out
}

/// The Host's summary.
fn status_result(host: &Host) -> (r: ControlResult)
    requires
        host.wf(),
    ensures
        r matches ControlResult::Status { cells, binding_generation, bindings, providers, audit } && {
            &&& cells@.len() == host.reg().records().len()
            &&& forall|i: int| 0 <= i < cells@.len() ==> status_of(#[trigger] cells@[i], host.reg().records()[i])
            &&& binding_generation == host.live().current_generation()
            &&& bindings == host.live().items().len()
            &&& providers == crate::discover::all_caps(host.reg().records(), None).len()
            &&& audit == host.trail().kept().len()
        },
{
    let recs = host.registry().iter();
    let mut cells: Vec<CellStatus> = Vec::new();
    let mut i: usize = 0;
    while i < recs.len()
        invariant
            recs@ == host.reg().records(),
            i <= recs@.len(),
            cells@.len() == i,
            forall|j: int| 0 <= j < i ==> status_of(#[trigger] cells@[j], recs@[j]),
        decreases recs@.len() - i,
    {
        let r = &recs[i];
        cells.push(
            CellStatus {
                name: r.manifest.metadata.name.clone(),
                version: r.manifest.metadata.version.clone(),
                runtime: runtime_text(r.manifest.spec.runtime.kind),
                state: state_text(r.state()),
            },
        );
        i = i + 1;
    }
    let providers = host.discover(None);
    proof {
        let a = crate::discover::pviews(providers@);
        let b = crate::discover::all_caps(host.reg().records(), None);
        assert(a.to_multiset() == b.to_multiset());
        vstd::seq_lib::to_multiset_len(a);
        vstd::seq_lib::to_multiset_len(b);
        assert(a.len() == providers@.len());
    }
    ControlResult::Status {
        cells,
        binding_generation: host.bindings().generation(),
        bindings: host.bindings().bindings().len(),
        providers: providers.len(),
        audit: host.audit().len(),
    }
}

/// The operations the control plane answers.
pub open spec fn known_op(op: Seq<char>) -> bool {
    op == "ping"@ || op == "status"@ || op == "discover"@ || op == "invoke"@ || op == "audit"@ || op == "load"@
        || op == "unload"@ || op == "apply_bindings"@ || op == "auto_bind"@ || op == "propose_from"@ || op
        == "shutdown"@
}

/// A request that names no required argument of its op.
pub open spec fn missing_arg(req: ControlRequest) -> Option<Seq<char>> {
    let op = req.op@;
    if op == "invoke"@ && req.consumer is None {
        Some("invoke requires consumer"@)
    } else if op == "invoke"@ && req.capability is None {
        Some("invoke requires capability"@)
    } else if op == "load"@ && req.path is None {
        Some("load requires path"@)
    } else if op == "unload"@ && req.cell is None {
        Some("unload requires cell"@)
    } else if op == "apply_bindings"@ && req.path is None {
        Some("apply_bindings requires path"@)
    } else if op == "propose_from"@ && req.cell is None {
        Some("propose_from requires cell"@)
    } else {
        None
    }
}

/// The error message `e` renders to, as in responses.
pub open spec fn shown(e: Error) -> Seq<char> {
    crate::error::error_prefix(e) + crate::error::error_detail(e)
}

fn opt_str(o: &Option<String>) -> (r: Option<&str>)
    ensures
        match r {
            Some(x) => o matches Some(s) && x@ == s@,
            None => o is None,
        },
{
    match o {
        Some(s) => Some(s.as_str()),
        None => None,
    }
}

/// The answer `resp` reports the Host operation's outcome `res`: `ok` exactly on
/// success, and on failure the error as users see it.
pub open spec fn answers<T>(resp: ControlResponse, res: Result<T>) -> bool {
    &&& resp.ok <==> res is Ok
    &&& res matches Err(e) ==> (resp.error matches Some(m) && m@ == crate::error::error_prefix(e)
        + crate::error::error_detail(e))
}

/// `q` is the envelope an `invoke` request makes: for `capability`, carrying the
/// request's payload (null when it has none), with a fresh correlation id.
pub open spec fn made_request(q: Envelope, capability: Seq<char>, payload: Option<JsonValue>) -> bool {
    &&& q.schema@ == crate::envelope::envelope_schema()
    &&& crate::envelope::fresh_id(q.correlation_id@)
    &&& q.idempotency_key is None
    &&& q.timeout_ms is None
    &&& q.capability@ == capability
    &&& crate::json::jv(q.payload) == match payload {
        Some(p) => crate::json::jv(p),
        None => crate::json::JsonView::Null,
    }
}

/// The answer carries proposal `p`, what applying it gave, and the live bindings after.
pub open spec fn proposal_answer(resp: ControlResponse, p: BindingProposal, a: Option<BindingApplyResult>, host: Host) -> bool {
    resp.result matches ControlResult::Proposal { proposal, applied, binding_generation, bindings } && proposal == p
        && applied == a && binding_generation == host.live().current_generation() && bindings@ == host.live().items()
}

/// Answers one control request against `host`: the response, and whether the
/// server should stop. A malformed request, or one without an argument its op
/// needs, is an error; an unknown op, or a Host operation that fails, is answered
/// with `ok: false` and the error's text.
pub fn handle_control(host: &mut Host, req: ControlRequest) -> (r: Result<(ControlResponse, bool)>)
    requires
        old(host).wf(),
        req.op@ == "auto_bind"@ ==> old(host).live().current_generation() < u64::MAX,
    ensures
        final(host).wf(),
        request_problem(req) is Some ==> (r matches Err(e) && is_validation(e, request_problem(req)->0))
            && *final(host) == *old(host),
        request_problem(req) is None && missing_arg(req) is Some ==> (r matches Err(e) && is_validation(
            e,
            missing_arg(req)->0,
        )) && *final(host) == *old(host),
        request_problem(req) is None && missing_arg(req) is None ==> (r matches Ok((resp, stop)) && {
            &&& resp.schema@ == control_schema()
            &&& resp.id@ == req.id@
            &&& stop == (req.op@ == "shutdown"@)
            &&& resp.ok ==> resp.error is None
            &&& !resp.ok ==> resp.error is Some && resp.result is Nothing
            &&& !known_op(req.op@) ==> !resp.ok && (resp.error matches Some(m) && m@ == "unknown op `"@ + req.op@ + "`"@)
            &&& req.op@ == "ping"@ ==> resp.ok && resp.result is Pong
            &&& req.op@ == "shutdown"@ ==> resp.ok && resp.result is Bye
            &&& req.op@ == "status"@ ==> resp.ok && (resp.result matches ControlResult::Status {
                cells,
                binding_generation,
                bindings,
                providers,
                audit,
            } && cells@.len() == old(host).reg().records().len() && (forall|i: int|
                0 <= i < cells@.len() ==> status_of(#[trigger] cells@[i], old(host).reg().records()[i]))
                && binding_generation == old(host).live().current_generation() && bindings
                == old(host).live().items().len() && providers == crate::discover::all_caps(
                old(host).reg().records(),
                None,
            ).len() && audit == old(host).trail().kept().len())
            &&& req.op@ == "discover"@ ==> resp.ok && (resp.result matches ControlResult::Providers(ps)
                && crate::discover::key_sorted(crate::discover::pviews(ps@)) && crate::discover::pviews(ps@).to_multiset()
                == crate::discover::all_caps(
                old(host).reg().records(),
                crate::subprocess::opt_seq(req.capability),
            ).to_multiset())
            &&& req.op@ == "audit"@ ==> resp.ok && (resp.result matches ControlResult::Events(evs) && evs@ == newest(
                old(host).trail().kept(),
                match req.limit {
                    Some(l) => l as nat,
                    None => usize::MAX as nat,
                },
            ))
            &&& req.op@ == "invoke"@ ==> exists|q: Envelope, res: Result<Envelope>|
                #[trigger] crate::host::invoke_outcome(*old(host), *final(host), req.consumer->0@, req.capability->0@, q, res)
                    && made_request(q, req.capability->0@, req.payload) && answers(resp, res) && (res matches Ok(env)
                    ==> resp.result == ControlResult::Invoked(env))
            &&& req.op@ == "load"@ ==> exists|res: Result<(String, CellState)>|
                #[trigger] crate::host::load_dir_outcome(*old(host), *final(host), req.path->0@, req.replace, res) && answers(
                    resp,
                    res,
                ) && (res matches Ok((n, s)) ==> (resp.result matches ControlResult::Loaded { cell, state, providers }
                    && cell@ == n@ && state@ == lower_seq(state_name(s)) && crate::discover::pviews(
                    providers@,
                ).to_multiset() == crate::discover::all_caps(final(host).reg().records(), None).to_multiset()))
            &&& req.op@ == "unload"@ ==> exists|res: Result<CellState>|
                #[trigger] crate::host::unload_outcome(*old(host), *final(host), req.cell->0@, res) && answers(resp, res) && (
                res matches Ok(s) ==> (resp.result matches ControlResult::Unloaded { cell, state } && cell@ == req.cell->0@
                    && state@ == lower_seq(state_name(s))))
            &&& req.op@ == "apply_bindings"@ ==> exists|res: Result<BindingApplyResult>|
                #[trigger] crate::host::apply_path_outcome(*old(host), *final(host), req.path->0@, res) && answers(resp, res)
                    && (res matches Ok(a) ==> resp.result == ControlResult::Applied(a))
            &&& req.op@ == "auto_bind"@ ==> exists|res: Result<(BindingProposal, Option<BindingApplyResult>)>|
                #[trigger] crate::host::auto_bind_outcome(*old(host), *final(host), req.apply, false, res) && answers(resp, res)
                    && (res matches Ok((p, a)) ==> proposal_answer(resp, p, a, *final(host)))
            &&& req.op@ == "propose_from"@ ==> exists|res: Result<(BindingProposal, Option<BindingApplyResult>)>|
                #[trigger] crate::host::propose_from_outcome(*old(host), *final(host), req.cell->0@, req.apply, res)
                    && answers(resp, res) && (res matches Ok((p, a)) ==> proposal_answer(resp, p, a, *final(host)))
            &&& req.op@ == "ping"@ || req.op@ == "status"@ || req.op@ == "discover"@ || req.op@ == "audit"@ || req.op@
                == "shutdown"@ || !known_op(req.op@) ==> final(host).reg() == old(host).reg() && final(host).live()
                == old(host).live()
        }),
{
    req.validate()?;
    proof {
        reveal_strlit("ping");
        reveal_strlit("status");
        reveal_strlit("discover");
        reveal_strlit("invoke");
        reveal_strlit("audit");
        reveal_strlit("load");
        reveal_strlit("unload");
        reveal_strlit("apply_bindings");
        reveal_strlit("auto_bind");
        reveal_strlit("propose_from");
        reveal_strlit("shutdown");
        assert("ping"@[0] == 'p' && "load"@[0] == 'l');
        assert("status"@[0] == 's' && "invoke"@[0] == 'i' && "unload"@[0] == 'u');
        assert("discover"@[0] == 'd' && "shutdown"@[0] == 's');
    }
    let id = req.id.as_str();
    let op = req.op.as_str();
    if same_text(op, "ping") {
        return Ok((ok_resp(id, ControlResult::Pong), false));
    }
    if same_text(op, "status") {
        let st = status_result(host);
        return Ok((ok_resp(id, st), false));
    }
    if same_text(op, "discover") {
        let providers = host.discover(opt_str(&req.capability));
        return Ok((ok_resp(id, ControlResult::Providers(providers)), false));
    }
    if same_text(op, "invoke") {
        let consumer = match &req.consumer {
            Some(c) => c.as_str(),
            None => {
                return Err(Error::Validation(owned("invoke requires consumer")));
            },
        };
        let capability = match &req.capability {
            Some(c) => c.as_str(),
            None => {
                return Err(Error::Validation(owned("invoke requires capability")));
            },
        };
        let payload = match req.payload {
            Some(p) => p,
            None => JsonValue::Null,
        };
        let request = Envelope::request(capability, payload);
        let ghost q = request;
        let res = host.invoke(consumer, capability, request);
        let ghost gres = res;
        proof {
            assert(crate::host::invoke_outcome(*old(host), *host, consumer@, capability@, q, gres));
            reveal(crate::json::jv);
            assert(made_request(q, req.capability->0@, req.payload));
        }
        return match res {
            Ok(env) => Ok((ok_resp(id, ControlResult::Invoked(env)), false)),
            Err(e) => Ok((err_resp(id, e.message()), false)),
        };
    }
    if same_text(op, "audit") {
        let limit = match req.limit {
            Some(l) => l,
            None => usize::MAX,
        };
        let events = newest_events(host, limit);
        return Ok((ok_resp(id, ControlResult::Events(events)), false));
    }
    if same_text(op, "load") {
        let path = match &req.path {
            Some(p) => p.as_str(),
            None => {
                return Err(Error::Validation(owned("load requires path")));
            },
        };
        let res = host.load_cell_dir(path, req.replace);
        let ghost gres = res;
        proof {
            assert(crate::host::load_dir_outcome(*old(host), *host, path@, req.replace, gres));
        }
        return match res {
            Ok((name, state)) => {
                let st = state_text(state);
                let providers = host.discover(None);
                Ok((ok_resp(id, ControlResult::Loaded { cell: name, state: st, providers }), false))
            },
            Err(e) => Ok((err_resp(id, e.message()), false)),
        };
    }
    if same_text(op, "unload") {
        let cell = match &req.cell {
            Some(c) => c.as_str(),
            None => {
                return Err(Error::Validation(owned("unload requires cell")));
            },
        };
        let res = host.unload_cell(cell);
        let ghost gres = res;
        proof {
            assert(crate::host::unload_outcome(*old(host), *host, cell@, gres));
        }
        return match res {
            Ok(state) => {
                let st = state_text(state);
                Ok((ok_resp(id, ControlResult::Unloaded { cell: owned(cell), state: st }), false))
            },
            Err(e) => Ok((err_resp(id, e.message()), false)),
        };
    }
    if same_text(op, "apply_bindings") {
        let path = match &req.path {
            Some(p) => p.as_str(),
            None => {
                return Err(Error::Validation(owned("apply_bindings requires path")));
            },
        };
        let res = host.apply_binding_proposal_path(path);
        let ghost gres = res;
        proof {
            assert(crate::host::apply_path_outcome(*old(host), *host, path@, gres));
        }
        return match res {
            Ok(result) => Ok((ok_resp(id, ControlResult::Applied(result)), false)),
            Err(e) => Ok((err_resp(id, e.message()), false)),
        };
    }
    if same_text(op, "auto_bind") {
        let res = host.auto_bind(req.apply, false);
        let ghost gres = res;
        proof {
            assert(crate::host::auto_bind_outcome(*old(host), *host, req.apply, false, gres));
        }
        return match res {
            Ok((proposal, applied)) => {
                let generation = host.bindings().generation();
                let bindings = host.bindings().duplicate().into_items();
                Ok((ok_resp(id, ControlResult::Proposal { proposal, applied, binding_generation: generation, bindings }), false))
            },
            Err(e) => Ok((err_resp(id, e.message()), false)),
        };
    }
    if same_text(op, "propose_from") {
        let cell = match &req.cell {
            Some(c) => c.as_str(),
            None => {
                return Err(Error::Validation(owned("propose_from requires cell")));
            },
        };
        let res = host.propose_from_cell(cell, req.apply);
        let ghost gres = res;
        proof {
            assert(crate::host::propose_from_outcome(*old(host), *host, cell@, req.apply, gres));
        }
        return match res {
            Ok((proposal, applied)) => {
                let generation = host.bindings().generation();
                let bindings = host.bindings().duplicate().into_items();
                Ok((ok_resp(id, ControlResult::Proposal { proposal, applied, binding_generation: generation, bindings }), false))
            },
            Err(e) => Ok((err_resp(id, e.message()), false)),
        };
    }
    if same_text(op, "shutdown") {
        return Ok((ok_resp(id, ControlResult::Bye), true));
    }
    Ok((err_resp(id, join3("unknown op `", op, "`")), false))
}

} // verus!
