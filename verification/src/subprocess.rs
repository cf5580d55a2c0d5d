//! Subprocess Cells: one JSON envelope line in on stdin, one JSON envelope line out
//! on stdout. The library plans the call and judges what came back; a
//! [`ProcessRunner`] supplied by the embedding program starts the process, moves the
//! lines and turns reply text into an envelope.

use vstd::prelude::*;

use crate::envelope::{envelope_problem, Envelope};
use crate::json::{jv, JsonValue, JsonView};
use crate::error::{is_not_found, is_validation, Error, Result};
use crate::table::NameTable;
use crate::text::{chars_of, decimal, decimal_text, join3, join4, owned, string_of, trim_chars, trimmed};

verus! {

/// How to start a subprocess Cell.
#[derive(Debug, Clone)]
pub struct SubprocessSpec {
    pub program: String,
    pub args: Vec<String>,
    pub timeout_ms: u64,
    pub workdir: Option<String>,
}

/// One planned run: what to start and how long to wait for its reply line.
#[derive(Debug, Clone)]
pub struct SubprocessCall {
    pub program: String,
    pub args: Vec<String>,
    pub workdir: Option<String>,
    pub timeout_ms: u64,
}

/// What happened to a run.
#[derive(Debug, Clone)]
pub enum ProcessOutcome {
    /// Starting the process failed, with the system's message.
    SpawnFailed(String),
    /// Writing the request, reading the reply or waiting for exit failed.
    IoFailed(String),
    /// No reply line within the time limit (the process was killed).
    TimedOut,
    /// The process ended: whether it succeeded, its exit status as text, and the
    /// first line it wrote.
    Exited { success: bool, status: String, stdout: String },
}

/// Starts processes and reads their replies for the library.
pub trait ProcessRunner: Send + Sync {
    /// Starts `call`, writes `request` as one JSON line, waits at most
    /// `call.timeout_ms` for a reply line, then for the exit.
    fn run(&self, call: &SubprocessCall, request: &Envelope) -> ProcessOutcome;

    /// Reads a JSON envelope from reply text.
    fn parse_reply(&self, text: &str) -> Result<Envelope>;
}

/// Subprocess Cells by name, and the runner that starts them.
pub struct SubprocessExecutor {
    cells: NameTable<SubprocessSpec>,
    runner: Option<Box<dyn ProcessRunner>>,
}

impl Default for SubprocessExecutor {
    fn default() -> (r: Self)
        ensures
            r.wf(),
            r.specs() == Map::<Seq<char>, SubprocessSpec>::empty(),
            !r.has_runner(),
    {
        SubprocessExecutor::new()
    }
}

/// The time a run may take: the request's limit, else the Cell's, and at least 1 ms.
pub open spec fn run_timeout(request: Envelope, spec: SubprocessSpec) -> u64 {
    let t = match request.timeout_ms {
        Some(t) => t,
        None => spec.timeout_ms,
    };
    if t < 1 {
        1
    } else {
        t
    }
}

/// The text of an optional string.
pub open spec fn opt_seq(o: Option<String>) -> Option<Seq<char>> {
    match o {
        Some(s) => Some(s@),
        None => None,
    }
}

/// The message of a spawn failure.
pub open spec fn spawn_msg(program: Seq<char>, cell: Seq<char>, err: Seq<char>) -> Seq<char> {
    "spawn `"@ + program + "` for cell `"@ + cell + "`: "@ + err
}

impl SubprocessExecutor {
    /// The registered Cells.
    pub closed spec fn specs(&self) -> Map<Seq<char>, SubprocessSpec> {
        self.cells.as_map()
    }

    /// How many Cells are registered.
    pub closed spec fn count(&self) -> nat {
        self.cells.names().len()
    }

    /// Whether a runner is installed.
    pub closed spec fn has_runner(&self) -> bool {
        self.runner is Some
    }

    /// Registered names are unique.
    pub closed spec fn wf(&self) -> bool {
        self.cells.wf()
    }

    /// No Cells, no runner.
    pub fn new() -> (r: Self)
        ensures
            r.wf(),
            r.specs() == Map::<Seq<char>, SubprocessSpec>::empty(),
            r.count() == 0,
            !r.has_runner(),
    {
        SubprocessExecutor { cells: NameTable::new(), runner: None }
    }

    /// Installs the runner that starts processes.
    pub fn set_runner(&mut self, runner: Box<dyn ProcessRunner>)
        requires
            old(self).wf(),
        ensures
            final(self).wf(),
            final(self).specs() == old(self).specs(),
            final(self).count() == old(self).count(),
            final(self).has_runner(),
    {
        self.runner = Some(runner);
    }

    /// Registers (or replaces) the spec of `cell_name`.
    pub fn register(&mut self, cell_name: String, spec: SubprocessSpec)
        requires
            old(self).wf(),
        ensures
            final(self).wf(),
            final(self).specs() == old(self).specs().insert(cell_name@, spec),
            final(self).has_runner() == old(self).has_runner(),
            final(self).count() == if old(self).specs().contains_key(cell_name@) {
                old(self).count()
            } else {
                old(self).count() + 1
            },
    {
        let ghost k = cell_name@;
        proof {
            assert(self.cells.as_map().contains_key(k) == self.cells.names().contains(k));
        }
        self.cells.insert(cell_name, spec);
    }

    /// Takes the spec of `cell_name` out.
    pub fn remove(&mut self, cell_name: &str) -> (r: Option<SubprocessSpec>)
        requires
            old(self).wf(),
        ensures
            final(self).wf(),
            final(self).specs() == old(self).specs().remove(cell_name@),
            final(self).has_runner() == old(self).has_runner(),
            match r {
                Some(s) => old(self).specs().contains_key(cell_name@) && s == old(self).specs()[cell_name@]
                    && final(self).count() == old(self).count() - 1,
                None => !old(self).specs().contains_key(cell_name@) && final(self).count() == old(self).count(),
            },
    {
        self.cells.remove(cell_name)
    }

    /// The spec of `cell_name`.
    pub fn get(&self, cell_name: &str) -> (r: Option<&SubprocessSpec>)
        requires
            self.wf(),
        ensures
            match r {
                Some(s) => self.specs().contains_key(cell_name@) && *s == self.specs()[cell_name@],
                None => !self.specs().contains_key(cell_name@),
            },
    {
        self.cells.get(cell_name)
    }

    /// How many Cells are registered.
    pub fn len(&self) -> (r: usize)
        ensures
            r == self.count(),
    {
        self.cells.len()
    }

    /// Whether no Cell is registered.
    pub fn is_empty(&self) -> (r: bool)
        ensures
            r == (self.count() == 0),
    {
        self.cells.is_empty()
    }

    /// The run for `request` to `cell_name`: its program, arguments and working
    /// directory, and the time limit.
    pub fn plan(&self, cell_name: &str, request: &Envelope) -> (r: Result<SubprocessCall>)
        requires
            self.wf(),
        ensures
            envelope_problem(*request) is Some ==> (r matches Err(e) && is_validation(e, envelope_problem(*request)->0)),
            envelope_problem(*request) is None && !self.specs().contains_key(cell_name@) ==> (r matches Err(e)
                && is_not_found(e, "no subprocess for cell `"@ + cell_name@ + "`"@)),
            envelope_problem(*request) is None && self.specs().contains_key(cell_name@) ==> (r matches Ok(c) && {
                let s = self.specs()[cell_name@];
                &&& c.program@ == s.program@
                &&& c.args@.len() == s.args@.len()
                &&& forall|i: int| 0 <= i < c.args@.len() ==> (#[trigger] c.args@[i])@ == s.args@[i]@
                &&& opt_seq(c.workdir) == opt_seq(s.workdir)
                &&& c.timeout_ms == run_timeout(*request, s)
            }),
    {
        request.validate()?;
        let spec = match self.cells.get(cell_name) {
            Some(s) => s,
            None => {
                return Err(Error::NotFound(join3("no subprocess for cell `", cell_name, "`")));
            },
        };
        let t = match request.timeout_ms {
            Some(t) => t,
            None => spec.timeout_ms,
        };
        let timeout = if t < 1 {
            1
        } else {
            t
        };
        let mut args: Vec<String> = Vec::new();
        let mut i: usize = 0;
        while i < spec.args.len()
            invariant
                i <= spec.args@.len(),
                args@.len() == i,
                forall|j: int| 0 <= j < i ==> (#[trigger] args@[j])@ == spec.args@[j]@,
            decreases spec.args@.len() - i,
        {
            args.push(spec.args[i].clone());
            i = i + 1;
        }
        Ok(
            SubprocessCall {
                program: spec.program.clone(),
                args,
                workdir: match &spec.workdir {
                    Some(w) => Some(w.clone()),
                    None => None,
                },
                timeout_ms: timeout,
            },
        )
    }

    /// Invokes `cell_name` through the installed runner: plans the run, lets the
    /// runner perform it, judges the outcome, has the runner read the reply and
    /// accepts it only if it is a valid envelope with the request's correlation id.
    pub fn invoke(&self, cell_name: &str, request: &Envelope) -> (r: Result<Envelope>)
        requires
            self.wf(),
        ensures
            envelope_problem(*request) is Some ==> (r matches Err(e) && is_validation(e, envelope_problem(*request)->0)),
            envelope_problem(*request) is None && !self.specs().contains_key(cell_name@) ==> (r matches Err(e)
                && is_not_found(e, "no subprocess for cell `"@ + cell_name@ + "`"@)),
            envelope_problem(*request) is None && self.specs().contains_key(cell_name@) && !self.has_runner() ==> (r
                matches Err(Error::Io(m)) && m@ == "no process runner installed"@),
            r matches Ok(rep) ==> envelope_problem(rep) is None && rep.correlation_id@ == request.correlation_id@,
    {
        let call = self.plan(cell_name, request)?;
        let runner = match &self.runner {
            Some(x) => x,
            None => {
                return Err(Error::Io(owned("no process runner installed")));
            },
        };
        let outcome = runner.run(&call, request);
        let text = settle(cell_name, call.program.as_str(), call.timeout_ms, outcome)?;
        let reply = runner.parse_reply(text.as_str())?;
        accept_reply(request, reply)
    }
}

/// Judges a finished run: the reply text, trimmed, when the process succeeded and
/// wrote something; otherwise the error the run amounts to.
pub fn settle(cell_name: &str, program: &str, timeout_ms: u64, outcome: ProcessOutcome) -> (r: Result<String>)
    ensures
        match outcome {
            ProcessOutcome::SpawnFailed(e) => r matches Err(Error::Io(m)) && m@ == spawn_msg(program@, cell_name@, e@),
            ProcessOutcome::IoFailed(e) => r matches Err(Error::Io(m)) && m@ == e@,
            ProcessOutcome::TimedOut => r matches Err(Error::Timeout(m)) && m@ == "subprocess `"@ + cell_name@
                + "` exceeded "@ + decimal(timeout_ms as nat) + "ms"@,
            ProcessOutcome::Exited { success, status, stdout } => if !success {
                r matches Err(Error::Validation(m)) && m@ == "subprocess `"@ + cell_name@ + "` exited with "@ + status@
            } else if trimmed(stdout@).len() == 0 {
                r matches Err(Error::Validation(m)) && m@ == "subprocess `"@ + cell_name@ + "` returned empty stdout"@
            } else {
                r matches Ok(t) && t@ == trimmed(stdout@)
            },
        },
{
    match outcome {
        ProcessOutcome::SpawnFailed(e) => {
            let mut m = join4("spawn `", program, "` for cell `", cell_name);
            m.append("`: ");
            m.append(e.as_str());
            proof {
                assert(m@ =~= spawn_msg(program@, cell_name@, e@));
            }
            Err(Error::Io(m))
        },
        ProcessOutcome::IoFailed(e) => Err(Error::Io(e)),
        ProcessOutcome::TimedOut => {
            let t = decimal_text(timeout_ms);
            let mut m = join4("subprocess `", cell_name, "` exceeded ", t.as_str());
            m.append("ms");
            Err(Error::Timeout(m))
        },
        ProcessOutcome::Exited { success, status, stdout } => {
            if !success {
                return Err(Error::Validation(join4("subprocess `", cell_name, "` exited with ", status.as_str())));
            }
            let cs = chars_of(stdout.as_str());
            let t = trim_chars(&cs);
            if t.len() == 0 {
                return Err(Error::Validation(join3("subprocess `", cell_name, "` returned empty stdout")));
            }
            Ok(string_of(t.as_slice()))
        },
    }
}

/// Accepts a reply that is a valid envelope answering `request`.
pub fn accept_reply(request: &Envelope, reply: Envelope) -> (r: Result<Envelope>)
    ensures
        envelope_problem(reply) is Some ==> (r matches Err(e) && is_validation(e, envelope_problem(reply)->0)),
        envelope_problem(reply) is None && reply.correlation_id@ != request.correlation_id@ ==> (r matches Err(e)
            && is_validation(e, "subprocess reply correlationId mismatch"@)),
        envelope_problem(reply) is None && reply.correlation_id@ == request.correlation_id@ ==> (r matches Ok(x)
            && x == reply),
{
    reply.validate()?;
    if !crate::text::same_text(reply.correlation_id.as_str(), request.correlation_id.as_str()) {
        return Err(Error::Validation(owned("subprocess reply correlationId mismatch")));
    }
    Ok(reply)
}

/// The payload the stock subprocess worker answers with.
pub open spec fn worker_payload(capability: Seq<char>, payload: JsonView) -> JsonView {
    JsonView::Object(
        seq![
            ("capability"@, JsonView::Str(capability)),
            ("echo"@, payload),
            ("runtime"@, JsonView::Str("subprocess"@)),
        ],
    )
}

/// The stock subprocess worker's answer to a request: its payload echoed, with the
/// capability and the runtime; a malformed request is refused.
pub fn worker_reply(req: &Envelope) -> (r: core::result::Result<Envelope, String>)
    ensures
        envelope_problem(*req) is Some ==> (r matches Err(e) && e@ == "validation: "@ + envelope_problem(*req)->0),
        envelope_problem(*req) is None ==> (r matches Ok(rep) && rep.correlation_id@ == req.correlation_id@
            && rep.capability@ == req.capability@ && rep.timeout_ms == req.timeout_ms && jv(rep.payload)
            == worker_payload(req.capability@, jv(req.payload))),
{
    match req.validate() {
        Ok(()) => {},
        Err(e) => {
            return Err(e.message());
        },
    }
    let mut f: Vec<(String, JsonValue)> = Vec::new();
    f.push(crate::json::pair("capability", crate::json::json_text(req.capability.as_str())));
    f.push(crate::json::pair("echo", crate::json::copy_json(&req.payload)));
    f.push(crate::json::pair("runtime", crate::json::json_text("subprocess")));
    let ghost v = seq![
        ("capability"@, JsonView::Str(req.capability@)),
        ("echo"@, jv(req.payload)),
        ("runtime"@, JsonView::Str("subprocess"@)),
    ];
    let payload = crate::json::object_of(f, Ghost(v));
    Ok(req.reply_to(payload))
}

} // verus!
