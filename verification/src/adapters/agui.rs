//! AG-UI: run inputs, the payload a run sends to its Cell, and the events a run
//! streams back.

use vstd::prelude::*;

use crate::autoconfig::text_member;
use crate::clock::now_stamp;
use crate::json::{copy_json, jv, json_text, object_of, JsonValue, JsonView};
use crate::text::{decimal, join2, owned, push_decimal_wide, same_text, string_of};

verus! {

/// One chat message of a run.
pub struct Message {
    pub role: String,
    pub content: JsonValue,
}

/// What a client posts to start a run.
pub struct RunAgentInput {
    pub thread_id: Option<String>,
    pub run_id: Option<String>,
    pub messages: Vec<Message>,
}

/// The ids a run streams its events under.
pub struct RunIds {
    pub thread_id: String,
    pub run_id: String,
    pub message_id: String,
}

/// `ids` are those of a run of `input` started at time `stamp`: the client's
/// thread and run ids where it gave them, else `thread-<stamp>` and `run-<stamp>`,
/// and the message id `msg-<stamp>`.
pub open spec fn ids_at(input: RunAgentInput, stamp: nat, ids: RunIds) -> bool {
    &&& ids.thread_id@ == match input.thread_id {
        Some(t) => t@,
        None => "thread-"@ + decimal(stamp),
    }
    &&& ids.run_id@ == match input.run_id {
        Some(r) => r@,
        None => "run-"@ + decimal(stamp),
    }
    &&& ids.message_id@ == "msg-"@ + decimal(stamp)
}

/// The ids of a run of `input` started now.
pub fn resolve_ids(input: &RunAgentInput) -> (r: RunIds)
    ensures
        exists|stamp: nat| ids_at(*input, stamp, r),
{
    let stamp = now_stamp();
    let mut digits: Vec<char> = Vec::new();
    push_decimal_wide(stamp, &mut digits);
    let d = string_of(digits.as_slice());
    let thread_id = match &input.thread_id {
        Some(t) => owned(t.as_str()),
        None => join2("thread-", d.as_str()),
    };
    let run_id = match &input.run_id {
        Some(t) => owned(t.as_str()),
        None => join2("run-", d.as_str()),
    };
    let r = RunIds { thread_id, run_id, message_id: join2("msg-", d.as_str()) };
    assert(ids_at(*input, stamp as nat, r));
    r
}

/// Position of the last message of `ms` from the user, if any.
pub open spec fn last_user(ms: Seq<Message>) -> Option<int>
    decreases ms.len(),
{
    if ms.len() == 0 {
        None
    } else if ms.last().role@ == "user"@ {
        Some(ms.len() - 1)
    } else {
        last_user(ms.drop_last())
    }
}

/// The payload a run sends for message content `c`, where `parsed` is what a text
/// content parses to as JSON (if it does): that document when it is an object or an
/// array, else `{"text": ...}` for text, `{}` for null, and any other content as it is.
pub open spec fn content_payload(c: JsonView, parsed: Option<JsonView>) -> JsonView {
    match c {
        JsonView::Str(s) => match parsed {
            Some(v) => if v is Object || v is Array {
                v
            } else {
                JsonView::Object(seq![("text"@, JsonView::Str(s))])
            },
            None => JsonView::Object(seq![("text"@, JsonView::Str(s))]),
        },
        JsonView::Null => JsonView::Object(Seq::empty()),
        _ => c,
    }
}

/// The view of an optional JSON value.
pub open spec fn opt_jv(v: Option<JsonValue>) -> Option<JsonView> {
    match v {
        Some(x) => Some(jv(x)),
        None => None,
    }
}

/// The payload a run sends: built from the last user message (see
/// `content_payload`); `parsed` is what its text content parses to as JSON. A run
/// without a user message is refused.
pub fn payload_from_messages(messages: &Vec<Message>, parsed: Option<JsonValue>) -> (r: Result<JsonValue, String>)
    ensures
        match last_user(messages@) {
            None => r matches Err(e) && e@ == "RunAgentInput requires a user message"@,
            Some(i) => r matches Ok(v) && jv(v) == content_payload(jv(messages@[i].content), opt_jv(parsed)),
        },
{
    proof {
        lemma_take_all(messages@);
    }
    let mut k: usize = messages.len();
    while k > 0
        invariant
            k <= messages@.len(),
            last_user(messages@) == last_user(messages@.take(k as int)),
        decreases k,
    {
        let ghost pre = messages@.take(k as int);
        assert(pre.drop_last() =~= messages@.take(k - 1));
        if same_text(messages[k - 1].role.as_str(), "user") {
            return Ok(payload_of(&messages[k - 1].content, parsed));
        }
        k = k - 1;
    }
    Err(owned("RunAgentInput requires a user message"))
}

proof fn lemma_take_all(ms: Seq<Message>)
    ensures
        ms.take(ms.len() as int) == ms,
{
    assert(ms.take(ms.len() as int) =~= ms);
}

/// The payload for content `c` (see `content_payload`).
fn payload_of(c: &JsonValue, parsed: Option<JsonValue>) -> (r: JsonValue)
    ensures
        jv(r) == content_payload(jv(*c), opt_jv(parsed)),
{
    proof {
        reveal(jv);
    }
    match c {
        JsonValue::Str(s) => {
            match parsed {
                Some(v) => {
                    let keep = match &v {
                        JsonValue::Object(_) => true,
                        JsonValue::Array(_) => true,
                        _ => false,
                    };
                    if keep {
                        return v;
                    }
                },
                None => {},
            }
            let mut f: Vec<(String, JsonValue)> = Vec::new();
            f.push((owned("text"), json_text(s.as_str())));
            let ghost v = seq![("text"@, JsonView::Str(s@))];
            object_of(f, Ghost(v))
        },
        JsonValue::Null => {
            let f: Vec<(String, JsonValue)> = Vec::new();
            let ghost v = Seq::<(Seq<char>, JsonView)>::empty();
            object_of(f, Ghost(v))
        },
        _ => copy_json(c),
    }
}

/// An event with the given members.
pub open spec fn event2(k1: Seq<char>, v1: Seq<char>, k2: Seq<char>, v2: Seq<char>) -> JsonView {
    JsonView::Object(seq![(k1, JsonView::Str(v1)), (k2, JsonView::Str(v2))])
}

/// An event with the given members.
pub open spec fn event3(k1: Seq<char>, v1: Seq<char>, k2: Seq<char>, v2: Seq<char>, k3: Seq<char>, v3: Seq<char>) -> JsonView {
    JsonView::Object(seq![(k1, JsonView::Str(v1)), (k2, JsonView::Str(v2)), (k3, JsonView::Str(v3))])
}

/// An event with the given members.
pub open spec fn event4(
    k1: Seq<char>,
    v1: Seq<char>,
    k2: Seq<char>,
    v2: Seq<char>,
    k3: Seq<char>,
    v3: Seq<char>,
    k4: Seq<char>,
    v4: Seq<char>,
) -> JsonView {
    JsonView::Object(
        seq![(k1, JsonView::Str(v1)), (k2, JsonView::Str(v2)), (k3, JsonView::Str(v3)), (k4, JsonView::Str(v4))],
    )
}

/// A member holding text.
fn text_field(key: &str, value: &str) -> (r: (String, JsonValue))
    ensures
        r.0@ == key@,
        jv(r.1) == JsonView::Str(value@),
{
    (owned(key), json_text(value))
}

/// `RUN_STARTED` for the run `ids`.
pub fn event_run_started(ids: &RunIds) -> (r: JsonValue)
    ensures
        jv(r) == event3("runId"@, ids.run_id@, "threadId"@, ids.thread_id@, "type"@, "RUN_STARTED"@),
{
    let mut f: Vec<(String, JsonValue)> = Vec::new();
    f.push(text_field("runId", ids.run_id.as_str()));
    f.push(text_field("threadId", ids.thread_id.as_str()));
    f.push(text_field("type", "RUN_STARTED"));
    let ghost v = seq![("runId"@, JsonView::Str(ids.run_id@)), ("threadId"@, JsonView::Str(ids.thread_id@)), ("type"@, JsonView::Str("RUN_STARTED"@))];
    object_of(f, Ghost(v))
}

/// `TEXT_MESSAGE_START` of the assistant's message in run `ids`.
pub fn event_text_start(ids: &RunIds) -> (r: JsonValue)
    ensures
        jv(r) == event3("messageId"@, ids.message_id@, "role"@, "assistant"@, "type"@, "TEXT_MESSAGE_START"@),
{
    let mut f: Vec<(String, JsonValue)> = Vec::new();
    f.push(text_field("messageId", ids.message_id.as_str()));
    f.push(text_field("role", "assistant"));
    f.push(text_field("type", "TEXT_MESSAGE_START"));
    let ghost v = seq![("messageId"@, JsonView::Str(ids.message_id@)), ("role"@, JsonView::Str("assistant"@)), ("type"@, JsonView::Str("TEXT_MESSAGE_START"@))];
    object_of(f, Ghost(v))
}

/// `TEXT_MESSAGE_CONTENT`: `delta` added to the message of run `ids`.
pub fn event_text_content(ids: &RunIds, delta: &str) -> (r: JsonValue)
    ensures
        jv(r) == event3("delta"@, delta@, "messageId"@, ids.message_id@, "type"@, "TEXT_MESSAGE_CONTENT"@),
{
    let mut f: Vec<(String, JsonValue)> = Vec::new();
    f.push(text_field("delta", delta));
    f.push(text_field("messageId", ids.message_id.as_str()));
    f.push(text_field("type", "TEXT_MESSAGE_CONTENT"));
    let ghost v = seq![("delta"@, JsonView::Str(delta@)), ("messageId"@, JsonView::Str(ids.message_id@)), ("type"@, JsonView::Str("TEXT_MESSAGE_CONTENT"@))];
    object_of(f, Ghost(v))
}

/// `TEXT_MESSAGE_END` of the message of run `ids`.
pub fn event_text_end(ids: &RunIds) -> (r: JsonValue)
    ensures
        jv(r) == event2("messageId"@, ids.message_id@, "type"@, "TEXT_MESSAGE_END"@),
{
    let mut f: Vec<(String, JsonValue)> = Vec::new();
    f.push(text_field("messageId", ids.message_id.as_str()));
    f.push(text_field("type", "TEXT_MESSAGE_END"));
    let ghost v = seq![("messageId"@, JsonView::Str(ids.message_id@)), ("type"@, JsonView::Str("TEXT_MESSAGE_END"@))];
    object_of(f, Ghost(v))
}

/// `RUN_FINISHED` for the run `ids`.
pub fn event_run_finished(ids: &RunIds) -> (r: JsonValue)
    ensures
        jv(r) == event3("runId"@, ids.run_id@, "threadId"@, ids.thread_id@, "type"@, "RUN_FINISHED"@),
{
    let mut f: Vec<(String, JsonValue)> = Vec::new();
    f.push(text_field("runId", ids.run_id.as_str()));
    f.push(text_field("threadId", ids.thread_id.as_str()));
    f.push(text_field("type", "RUN_FINISHED"));
    let ghost v = seq![("runId"@, JsonView::Str(ids.run_id@)), ("threadId"@, JsonView::Str(ids.thread_id@)), ("type"@, JsonView::Str("RUN_FINISHED"@))];
    object_of(f, Ghost(v))
}

/// `RUN_ERROR` with `message` for the run `ids`.
pub fn event_run_error(ids: &RunIds, message: &str) -> (r: JsonValue)
    ensures
        jv(r) == event4("message"@, message@, "runId"@, ids.run_id@, "threadId"@, ids.thread_id@, "type"@, "RUN_ERROR"@),
{
    let mut f: Vec<(String, JsonValue)> = Vec::new();
    f.push(text_field("message", message));
    f.push(text_field("runId", ids.run_id.as_str()));
    f.push(text_field("threadId", ids.thread_id.as_str()));
    f.push(text_field("type", "RUN_ERROR"));
    let ghost v = seq![("message"@, JsonView::Str(message@)), ("runId"@, JsonView::Str(ids.run_id@)), ("threadId"@, JsonView::Str(ids.thread_id@)), ("type"@, JsonView::Str("RUN_ERROR"@))];
    object_of(f, Ghost(v))
}

/// The AG-UI endpoint's link to a Host: its control socket, the Cell that invokes
/// and the capability a run invokes.
pub struct Bridge {
    pub socket: String,
    pub consumer: String,
    pub capability: String,
}

/// The events a run streams after `RUN_STARTED`: the reply as one assistant text
/// message and `RUN_FINISHED` when the Cell answered (its reply rendered as `text`),
/// else `RUN_ERROR` with the reason.
pub fn run_events(ids: &RunIds, outcome: Result<String, String>) -> (r: Vec<JsonValue>)
    ensures
        match outcome {
            Ok(text) => r@.len() == 4 && jv(r@[0]) == event3(
                "messageId"@,
                ids.message_id@,
                "role"@,
                "assistant"@,
                "type"@,
                "TEXT_MESSAGE_START"@,
            ) && jv(r@[1]) == event3("delta"@, text@, "messageId"@, ids.message_id@, "type"@, "TEXT_MESSAGE_CONTENT"@)
                && jv(r@[2]) == event2("messageId"@, ids.message_id@, "type"@, "TEXT_MESSAGE_END"@) && jv(r@[3])
                == event3("runId"@, ids.run_id@, "threadId"@, ids.thread_id@, "type"@, "RUN_FINISHED"@),
            Err(e) => r@.len() == 1 && jv(r@[0]) == event4(
                "message"@,
                e@,
                "runId"@,
                ids.run_id@,
                "threadId"@,
                ids.thread_id@,
                "type"@,
                "RUN_ERROR"@,
            ),
        },
{
    let mut out: Vec<JsonValue> = Vec::new();
    match outcome {
        Ok(text) => {
            out.push(event_text_start(ids));
            out.push(event_text_content(ids, text.as_str()));
            out.push(event_text_end(ids));
            out.push(event_run_finished(ids));
        },
        Err(e) => {
            out.push(event_run_error(ids, e.as_str()));
        },
    }
    out
}

/// The text content of the last user message, if that content is text: what a
/// run's payload may parse as JSON.
pub fn last_user_text(messages: &Vec<Message>) -> (r: Option<&str>)
    ensures
        match last_user(messages@) {
            Some(i) => match jv(messages@[i].content) {
                JsonView::Str(s) => r matches Some(t) && t@ == s,
                _ => r is None,
            },
            None => r is None,
        },
{
    proof {
        lemma_take_all(messages@);
        reveal(jv);
    }
    let mut k: usize = messages.len();
    while k > 0
        invariant
            k <= messages@.len(),
            last_user(messages@) == last_user(messages@.take(k as int)),
        decreases k,
    {
        let ghost pre = messages@.take(k as int);
        assert(pre.drop_last() =~= messages@.take(k - 1));
        if same_text(messages[k - 1].role.as_str(), "user") {
            proof {
                reveal(jv);
            }
            return match &messages[k - 1].content {
                JsonValue::Str(s) => Some(s.as_str()),
                _ => None,
            };
        }
        k = k - 1;
    }
    None
}

} // verus!
