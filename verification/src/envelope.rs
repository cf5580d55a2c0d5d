//! The internal message envelope. Protocol adapters map to and from it at the edge.

use vstd::prelude::*;

use crate::error::{is_validation, Error, Result};
use crate::json::{copy_json, jv, JsonValue};
use crate::text::{join3, owned, same_text};

verus! {

/// The schema tag, as the constant users write.
pub const ENVELOPE_SCHEMA: &'static str = "kcell.envelope.v1";

/// The schema tag every envelope carries.
pub open spec fn envelope_schema() -> Seq<char> {
    "kcell.envelope.v1"@
}

/// The schema tag, as a string.
pub fn envelope_schema_text() -> (r: String)
    ensures
        r@ == envelope_schema(),
{
    owned("kcell.envelope.v1")
}

/// A request or reply between Cells.
#[derive(Debug)]
pub struct Envelope {
    pub schema: String,
    pub correlation_id: String,
    pub idempotency_key: Option<String>,
    pub timeout_ms: Option<u64>,
    pub capability: String,
    pub payload: JsonValue,
}

/// The text of an optional string.
pub open spec fn opt_text(o: Option<String>) -> Option<Seq<char>> {
    match o {
        Some(s) => Some(s@),
        None => None,
    }
}

/// A fresh correlation id has the form `corr-<decimal>`.
pub open spec fn fresh_id(id: Seq<char>) -> bool {
    crate::clock::stamped("corr-"@, id)
}

/// A correlation id from the clock: `corr-` and the nanoseconds since the epoch.
fn new_id() -> (r: String)
    ensures
        fresh_id(r@),
{
    crate::clock::time_id("corr-")
}

/// Why an envelope is malformed; `None` when it is well formed.
pub open spec fn envelope_problem(e: Envelope) -> Option<Seq<char>> {
    if e.schema@ != envelope_schema() {
        Some("unsupported envelope schema `"@ + e.schema@ + "`"@)
    } else if e.correlation_id@.len() == 0 {
        Some("correlationId required"@)
    } else if e.capability@.len() == 0 {
        Some("capability required"@)
    } else {
        None
    }
}

impl Envelope {
    /// A new request for `capability` with a fresh correlation id.
    pub fn request(capability: &str, payload: JsonValue) -> (r: Envelope)
        ensures
            r.schema@ == envelope_schema(),
            fresh_id(r.correlation_id@),
            r.idempotency_key is None,
            r.timeout_ms is None,
            r.capability@ == capability@,
            jv(r.payload) == jv(payload),
    {
        Envelope {
            schema: envelope_schema_text(),
            correlation_id: new_id(),
            idempotency_key: None,
            timeout_ms: None,
            capability: owned(capability),
            payload,
        }
    }

    /// The reply to this envelope: same correlation id, idempotency key, timeout and
    /// capability, with `payload`.
    pub fn reply_to(&self, payload: JsonValue) -> (r: Envelope)
        ensures
            r.schema@ == envelope_schema(),
            r.correlation_id@ == self.correlation_id@,
            opt_text(r.idempotency_key) == opt_text(self.idempotency_key),
            r.timeout_ms == self.timeout_ms,
            r.capability@ == self.capability@,
            jv(r.payload) == jv(payload),
    {
        Envelope {
            schema: envelope_schema_text(),
            correlation_id: self.correlation_id.clone(),
            idempotency_key: match &self.idempotency_key {
                Some(k) => Some(k.clone()),
                None => None,
            },
            timeout_ms: self.timeout_ms,
            capability: self.capability.clone(),
            payload,
        }
    }

    /// Checks the schema tag, and that correlation id and capability are set.
    pub fn validate(&self) -> (r: Result<()>)
        ensures
            r is Ok <==> envelope_problem(*self) is None,
            r matches Err(e) ==> is_validation(e, envelope_problem(*self)->0),
    {
        if !same_text(self.schema.as_str(), "kcell.envelope.v1") {
            return Err(Error::Validation(join3("unsupported envelope schema `", self.schema.as_str(), "`")));
        }
        if self.correlation_id.as_str().unicode_len() == 0 {
            return Err(Error::Validation(owned("correlationId required")));
        }
        if self.capability.as_str().unicode_len() == 0 {
            return Err(Error::Validation(owned("capability required")));
        }
        Ok(())
    }
}

/// A copy of an envelope.
pub fn copy_envelope(e: &Envelope) -> (r: Envelope)
    ensures
        r.schema@ == e.schema@,
        r.correlation_id@ == e.correlation_id@,
        opt_text(r.idempotency_key) == opt_text(e.idempotency_key),
        r.timeout_ms == e.timeout_ms,
        r.capability@ == e.capability@,
        jv(r.payload) == jv(e.payload),
{
    Envelope {
        schema: e.schema.clone(),
        correlation_id: e.correlation_id.clone(),
        idempotency_key: match &e.idempotency_key {
            Some(k) => Some(k.clone()),
            None => None,
        },
        timeout_ms: e.timeout_ms,
        capability: e.capability.clone(),
        payload: copy_json(&e.payload),
    }
}

/// A reply keeps the request's correlation id: the pair is one exchange.
pub proof fn reply_keeps_correlation(req: Envelope, reply: Envelope)
    requires
        reply.correlation_id@ == req.correlation_id@,
        reply.schema@ == envelope_schema(),
        reply.capability@ == req.capability@,
        envelope_problem(req) is None,
    ensures
        envelope_problem(reply) is None,
{
}

} // verus!
