//! In-process execution: handlers keyed by Cell name, with the passthrough handler
//! that echoes a request back under the Cell's name.

use vstd::prelude::*;

use crate::envelope::{envelope_problem, Envelope};
use crate::error::{is_not_found, is_validation, Error, Result};
use crate::json::{copy_json, jv, json_text, JsonValue, JsonView};
use crate::manifest::cell::RuntimeKind;
use crate::table::{distinct, index_in, lemma_index_in, lemma_index_in_distinct};
use crate::text::{join3, owned, same_text};

verus! {

/// Handles one invoke for a Cell instance.
pub trait CellHandler: Send + Sync {
    fn invoke(&self, request: &Envelope) -> Result<Envelope>;
}

/// The payload the passthrough handler answers with.
pub open spec fn echo_payload(cell: Seq<char>, capability: Seq<char>, payload: JsonView) -> JsonView {
    JsonView::Object(
        seq![
            ("capability"@, JsonView::Str(capability)),
            ("cell"@, JsonView::Str(cell)),
            ("echo"@, payload),
        ],
    )
}

/// Default in-process handler: echoes the payload under the Cell name.
#[derive(Debug, Clone)]
pub struct PassthroughHandler {
    pub cell_name: String,
}

impl PassthroughHandler {
    /// The echo reply: `{"capability", "cell", "echo"}` to a valid request.
    pub fn reply(&self, request: &Envelope) -> (r: Result<Envelope>)
        ensures
            r is Ok <==> envelope_problem(*request) is None,
            r matches Err(e) ==> is_validation(e, envelope_problem(*request)->0),
            r matches Ok(rep) ==> {
                &&& rep.correlation_id@ == request.correlation_id@
                &&& rep.capability@ == request.capability@
                &&& rep.timeout_ms == request.timeout_ms
                &&& envelope_problem(rep) is None
                &&& jv(rep.payload) == echo_payload(self.cell_name@, request.capability@, jv(request.payload))
            },
    {
        request.validate()?;
        let mut fields: Vec<(String, JsonValue)> = Vec::new();
        fields.push((owned("capability"), json_text(request.capability.as_str())));
        fields.push((owned("cell"), json_text(self.cell_name.as_str())));
        fields.push((owned("echo"), copy_json(&request.payload)));
        let payload = JsonValue::Object(fields);
        proof {
            reveal(crate::json::jv);
            reveal_strlit("capability");
            reveal_strlit("cell");
            reveal_strlit("echo");
            if let JsonView::Object(ms) = jv(payload) {
                assert(ms =~= seq![
                    ("capability"@, JsonView::Str(request.capability@)),
                    ("cell"@, JsonView::Str(self.cell_name@)),
                    ("echo"@, jv(request.payload)),
                ]);
            }
        }
        Ok(request.reply_to(payload))
    }
}

impl CellHandler for PassthroughHandler {
    fn invoke(&self, request: &Envelope) -> (r: Result<Envelope>)
        ensures
            r is Ok <==> envelope_problem(*request) is None,
            r matches Err(e) ==> is_validation(e, envelope_problem(*request)->0),
            r matches Ok(rep) ==> {
                &&& rep.correlation_id@ == request.correlation_id@
                &&& rep.capability@ == request.capability@
                &&& rep.timeout_ms == request.timeout_ms
                &&& envelope_problem(rep) is None
                &&& jv(rep.payload) == echo_payload(self.cell_name@, request.capability@, jv(request.payload))
            },
    {
        self.reply(request)
    }
}

/// A registered handler.
pub enum Handler {
    /// The built-in echo handler.
    Passthrough(PassthroughHandler),
    /// A handler supplied by the embedding program.
    Custom(Box<dyn CellHandler>),
}

/// Maps Cell names to handlers for in-process Cells.
pub struct InProcessExecutor {
    handlers: Vec<(String, Handler)>,
}

impl Default for InProcessExecutor {
    fn default() -> (r: Self)
        ensures
            r.wf(),
            r.names().len() == 0,
    {
        InProcessExecutor { handlers: Vec::new() }
    }
}

/// How a handler answers, as far as the library can say.
pub enum HandlerView {
    Passthrough(Seq<char>),
    Custom,
}

/// What kind of handler an entry holds.
pub open spec fn handler_view(h: Handler) -> HandlerView {
    match h {
        Handler::Passthrough(p) => HandlerView::Passthrough(p.cell_name@),
        Handler::Custom(_) => HandlerView::Custom,
    }
}

impl InProcessExecutor {
    /// The Cell names with a handler, in registration order.
    pub closed spec fn names(&self) -> Seq<Seq<char>> {
        Seq::new(self.handlers@.len(), |i: int| self.handlers@[i].0@)
    }

    /// The handler of each name, in the same order.
    pub closed spec fn kinds(&self) -> Seq<HandlerView> {
        Seq::new(self.handlers@.len(), |i: int| handler_view(self.handlers@[i].1))
    }

    /// Names are unique.
    pub open spec fn wf(&self) -> bool {
        distinct(self.names()) && self.kinds().len() == self.names().len()
    }

    /// The Cells named `name` has a handler.
    pub open spec fn has(&self, name: Seq<char>) -> bool {
        self.names().contains(name)
    }

    /// An executor without handlers.
    pub fn new() -> (r: Self)
        ensures
            r.wf(),
            r.names().len() == 0,
    {
        InProcessExecutor { handlers: Vec::new() }
    }

    fn find(&self, name: &str) -> (r: Option<usize>)
        ensures
            match r {
                Some(i) => i < self.names().len() && self.names()[i as int] == name@ && index_in(self.names(), name@)
                    == i,
                None => !self.has(name@) && index_in(self.names(), name@) == -1,
            },
    {
        let mut i: usize = 0;
        while i < self.handlers.len()
            invariant
                i <= self.handlers@.len(),
                forall|j: int| 0 <= j < i ==> self.names()[j] != name@,
            decreases self.handlers@.len() - i,
        {
            if same_text(self.handlers[i].0.as_str(), name) {
                proof {
                    assert(self.names()[i as int] == name@);
                    lemma_index_in(self.names(), name@, i as int);
                }
                return Some(i);
            }
            i = i + 1;
        }
        proof {
            assert forall|j: int| 0 <= j < self.names().len() implies self.names()[j] != name@ by {}
        }
        None
    }

    /// Registers `handler` for `cell_name`, replacing an earlier one.
    pub fn register(&mut self, cell_name: String, handler: Box<dyn CellHandler>)
        requires
            old(self).wf(),
        ensures
            final(self).wf(),
            final(self).has(cell_name@),
            final(self).kinds()[index_in(final(self).names(), cell_name@)] == HandlerView::Custom,
            forall|n: Seq<char>| #[trigger] final(self).has(n) <==> old(self).has(n) || n == cell_name@,
    {
        self.put(cell_name, Handler::Custom(handler));
    }

    fn put(&mut self, cell_name: String, handler: Handler)
        requires
            old(self).wf(),
        ensures
            final(self).wf(),
            final(self).has(cell_name@),
            final(self).kinds()[index_in(final(self).names(), cell_name@)] == handler_view(handler),
            forall|n: Seq<char>| #[trigger] final(self).has(n) <==> old(self).has(n) || n == cell_name@,
            forall|n: Seq<char>|
                n != cell_name@ && #[trigger] old(self).has(n) ==> final(self).kinds()[index_in(final(self).names(), n)]
                    == old(self).kinds()[index_in(old(self).names(), n)],
    {
        let ghost hv = handler_view(handler);
        let ghost old_names = self.names();
        let ghost old_kinds = self.kinds();
        match self.find(cell_name.as_str()) {
            Some(i) => {
                self.handlers.set(i, (cell_name, handler));
                proof {
                    assert(self.names() =~= old_names);
                    assert(self.kinds() =~= old_kinds.update(i as int, hv));
                }
            },
            None => {
                self.handlers.push((cell_name, handler));
                proof {
                    assert(self.names() =~= old_names.push(cell_name@));
                    assert(self.kinds() =~= old_kinds.push(hv));
                    assert(self.names()[old_names.len() as int] == cell_name@);
                    lemma_index_in_distinct(self.names(), cell_name@, old_names.len() as int);
                    assert forall|n: Seq<char>| n != cell_name@ && #[trigger] old_names.contains(n) implies self.kinds()[index_in(self.names(), n)]
                        == old_kinds[index_in(old_names, n)] by {
                        let a = index_in(old_names, n);
                        assert(old_names[a] == n);
                        assert(self.names()[a] == n);
                        lemma_index_in_distinct(self.names(), n, a);
                    }
                }
            },
        }
        proof {
            assert(self.names()[index_in(self.names(), cell_name@)] == cell_name@);
            assert forall|n: Seq<char>| #[trigger] self.has(n) <==> old_names.contains(n) || n == cell_name@ by {
                if old_names.contains(n) {
                    let k = choose|k: int| 0 <= k < old_names.len() && old_names[k] == n;
                    assert(self.names()[k] == n);
                }
                if self.has(n) {
                    let k = choose|k: int| 0 <= k < self.names().len() && self.names()[k] == n;
                    if k < old_names.len() {
                        assert(old_names[k] == n);
                    }
                }
            }
        }
    }

    /// Registers the passthrough handler for `cell_name` unless it has one.
    pub fn ensure_passthrough(&mut self, cell_name: &str)
        requires
            old(self).wf(),
        ensures
            final(self).wf(),
            final(self).has(cell_name@),
            old(self).has(cell_name@) ==> final(self).names() == old(self).names() && final(self).kinds() == old(
                self,
            ).kinds(),
            !old(self).has(cell_name@) ==> final(self).names() == old(self).names().push(cell_name@)
                && final(self).kinds() == old(self).kinds().push(HandlerView::Passthrough(cell_name@)),
    {
        match self.find(cell_name) {
            Some(i) => {
                assert(self.names()[i as int] == cell_name@);
            },
            None => {
                let ghost old_names = self.names();
                let ghost old_kinds = self.kinds();
                let h = PassthroughHandler { cell_name: owned(cell_name) };
                self.handlers.push((owned(cell_name), Handler::Passthrough(h)));
                proof {
                    assert(self.names() =~= old_names.push(cell_name@));
                    assert(self.kinds() =~= old_kinds.push(HandlerView::Passthrough(cell_name@)));
                    assert(self.names()[old_names.len() as int] == cell_name@);
                    assert forall|a: int, b: int|
                        0 <= a < self.names().len() && 0 <= b < self.names().len() && a != b implies self.names()[a]
                        != self.names()[b] by {
                        if a == old_names.len() {
                            assert(old_names[b] != cell_name@);
                        } else if b == old_names.len() {
                            assert(old_names[a] != cell_name@);
                        }
                    }
                }
            },
        }
    }

    /// Drops the handler of `cell_name`; whether there was one.
    pub fn remove(&mut self, cell_name: &str) -> (r: bool)
        requires
            old(self).wf(),
        ensures
            final(self).wf(),
            r == old(self).has(cell_name@),
            !final(self).has(cell_name@),
            forall|n: Seq<char>| n != cell_name@ ==> (#[trigger] final(self).has(n) <==> old(self).has(n)),
            final(self).names().len() == if r { old(self).names().len() - 1 } else { old(self).names().len() as int },
    {
        let ghost old_names = self.names();
        let ghost old_kinds = self.kinds();
        match self.find(cell_name) {
            Some(i) => {
                let _ = self.handlers.remove(i);
                proof {
                    assert(self.names() =~= old_names.remove(i as int));
                    assert(self.kinds() =~= old_kinds.remove(i as int));
                    assert forall|a: int, b: int|
                        0 <= a < self.names().len() && 0 <= b < self.names().len() && a != b implies self.names()[a]
                        != self.names()[b] by {
                        let a2 = if a < i { a } else { a + 1 };
                        let b2 = if b < i { b } else { b + 1 };
                        assert(self.names()[a] == old_names[a2]);
                        assert(self.names()[b] == old_names[b2]);
                    }
                    assert forall|j: int| 0 <= j < self.names().len() implies self.names()[j] != cell_name@ by {
                        let j2 = if j < i { j } else { j + 1 };
                        assert(self.names()[j] == old_names[j2]);
                    }
                    assert forall|n: Seq<char>| n != cell_name@ implies (self.has(n) <==> old_names.contains(n)) by {
                        if old_names.contains(n) {
                            let k = choose|k: int| 0 <= k < old_names.len() && old_names[k] == n;
                            assert(k != i);
                            let k2 = if k < i { k } else { k - 1 };
                            assert(self.names()[k2] == n);
                        }
                        if self.names().contains(n) {
                            let k = choose|k: int| 0 <= k < self.names().len() && self.names()[k] == n;
                            let k2 = if k < i { k } else { k + 1 };
                            assert(old_names[k2] == n);
                        }
                    }
                }
                true
            },
            None => false,
        }
    }

    /// Invokes the handler of `cell_name`.
    pub fn invoke(&self, cell_name: &str, request: &Envelope) -> (r: Result<Envelope>)
        ensures
            !self.has(cell_name@) ==> (r matches Err(e) && is_not_found(
                e,
                "no handler for cell `"@ + cell_name@ + "`"@,
            )),
            self.has(cell_name@) && self.kinds()[index_in(self.names(), cell_name@)] is Passthrough ==> {
                let echo = self.kinds()[index_in(self.names(), cell_name@)]->Passthrough_0;
                &&& r is Ok <==> envelope_problem(*request) is None
                &&& r matches Err(e) ==> is_validation(e, envelope_problem(*request)->0)
                &&& r matches Ok(rep) ==> rep.correlation_id@ == request.correlation_id@ && rep.capability@
                    == request.capability@ && jv(rep.payload) == echo_payload(echo, request.capability@, jv(request.payload))
            },
    {
        match self.find(cell_name) {
            None => Err(Error::NotFound(join3("no handler for cell `", cell_name, "`"))),
            Some(i) => match &self.handlers[i].1 {
                Handler::Passthrough(p) => {
                    assert(self.kinds()[i as int] == handler_view(self.handlers@[i as int].1));
                    p.reply(request)
                },
                Handler::Custom(h) => h.invoke(request),
            },
        }
    }

    /// How many Cells have a handler.
    pub fn len(&self) -> (r: usize)
        ensures
            r == self.names().len(),
    {
        self.handlers.len()
    }

    /// Whether no Cell has a handler.
    pub fn is_empty(&self) -> (r: bool)
        ensures
            r == (self.names().len() == 0),
    {
        self.handlers.len() == 0
    }
}

/// The facade the Host routes through: which runtime, and an invoke.
pub trait CellExecutor: Send + Sync {
    fn kind(&self) -> RuntimeKind;

    fn invoke(&self, cell_name: &str, request: &Envelope) -> Result<Envelope>;
}

impl CellExecutor for InProcessExecutor {
    fn kind(&self) -> (r: RuntimeKind)
        ensures
            r == RuntimeKind::Inprocess,
    {
        RuntimeKind::Inprocess
    }

    fn invoke(&self, cell_name: &str, request: &Envelope) -> (r: Result<Envelope>)
        ensures
            !self.has(cell_name@) ==> (r matches Err(e) && is_not_found(
                e,
                "no handler for cell `"@ + cell_name@ + "`"@,
            )),
            self.has(cell_name@) && self.kinds()[index_in(self.names(), cell_name@)] is Passthrough ==> {
                let echo = self.kinds()[index_in(self.names(), cell_name@)]->Passthrough_0;
                &&& r is Ok <==> envelope_problem(*request) is None
                &&& r matches Err(e) ==> is_validation(e, envelope_problem(*request)->0)
                &&& r matches Ok(rep) ==> rep.correlation_id@ == request.correlation_id@ && rep.capability@
                    == request.capability@ && jv(rep.payload) == echo_payload(echo, request.capability@, jv(request.payload))
            },
    {
        InProcessExecutor::invoke(self, cell_name, request)
    }
}

} // verus!
