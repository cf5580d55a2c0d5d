//! A2A: the agent card a Host's providers make, the payload a `message/send`
//! carries to the Cell, and the JSON-RPC replies.

use vstd::prelude::*;

use crate::autoconfig::{text_member, text_or};
use crate::json::{
    as_items, copy_json, get_member, json_i64, json_text, jv, jvs, member, object_of, JsonValue, JsonView, NumView,
};
use crate::specialize::texts;
use crate::text::{chars_of, decimal, join2, join3, join5, owned, push_decimal_wide, same_text, string_of};

verus! {

/// The A2A agent's link to a Host: its control socket, the Cell that invokes and
/// the capability a sent message invokes.
pub struct Bridge {
    pub socket: String,
    pub consumer: String,
    pub capability: String,
}

/// What the agent card says of the agent itself.
pub struct CardConfig<'a> {
    pub name: &'a str,
    pub description: &'a str,
    pub url: &'a str,
    pub version: &'a str,
}

/// The skill for capability `cap` at `version`, seen at Cell `cell`.
pub open spec fn skill_json(cell: Seq<char>, cap: Seq<char>, version: Seq<char>) -> JsonView {
    JsonView::Object(
        seq![
            ("description"@, JsonView::Str("KCell capability `"@ + cap + "@"@ + version + "` (e.g. from cell `"@ + cell + "`)"@)),
            ("examples"@, JsonView::Array(Seq::empty())),
            ("id"@, JsonView::Str(cap)),
            ("name"@, JsonView::Str(cap)),
            ("tags"@, JsonView::Array(seq![JsonView::Str("kcell"@), JsonView::Str(cell)])),
        ],
    )
}

/// The skills and the capabilities seen after the first `n` providers: one skill per
/// named capability, for the first provider that offers it.
pub open spec fn skills_upto(ps: Seq<JsonView>, n: int) -> (Seq<JsonView>, Seq<Seq<char>>)
    decreases n,
{
    if n <= 0 || n > ps.len() {
        (Seq::empty(), Seq::empty())
    } else {
        let (sk, seen) = skills_upto(ps, n - 1);
        let p = ps[n - 1];
        let cap = text_or(p, "capability"@, ""@);
        if cap.len() == 0 || seen.contains(cap) {
            (sk, seen)
        } else {
            (
                sk.push(skill_json(text_or(p, "cell"@, ""@), cap, text_or(p, "capabilityVersion"@, "1"@))),
                seen.push(cap),
            )
        }
    }
}

/// The skills of a discover result: none unless it is an array.
pub open spec fn skills_of(providers: JsonView) -> Seq<JsonView> {
    match providers {
        JsonView::Array(ps) => skills_upto(ps, ps.len() as int).0,
        _ => Seq::empty(),
    }
}

fn text_or_default<'a>(v: &'a JsonValue, key: &str, d: &'a str) -> (r: &'a str)
    ensures
        r@ == text_or(jv(*v), key@, d@),
{
    match get_member(v, key) {
        Some(x) => match crate::json::as_text(x) {
            Some(s) => s,
            None => d,
        },
        None => d,
    }
}

fn seen_has(seen: &Vec<String>, cap: &str) -> (r: bool)
    ensures
        r == texts(seen@).contains(cap@),
{
    let mut i: usize = 0;
    while i < seen.len()
        invariant
            i <= seen@.len(),
            forall|j: int| 0 <= j < i ==> seen@[j]@ != cap@,
        decreases seen@.len() - i,
    {
        if same_text(seen[i].as_str(), cap) {
            assert(texts(seen@)[i as int] == cap@);
            return true;
        }
        i = i + 1;
    }
    proof {
        if texts(seen@).contains(cap@) {
            let j = choose|j: int| 0 <= j < texts(seen@).len() && texts(seen@)[j] == cap@;
            assert(seen@[j]@ == cap@);
        }
    }
    false
}

fn skill(cell: &str, cap: &str, version: &str) -> (r: JsonValue)
    ensures
        jv(r) == skill_json(cell@, cap@, version@),
{
    let d1 = join5("KCell capability `", cap, "@", version, "` (e.g. from cell `");
    let d = join3(d1.as_str(), cell, "`)");
    let mut tags: Vec<JsonValue> = Vec::new();
    tags.push(json_text("kcell"));
    tags.push(json_text(cell));
    let ghost tv = seq![JsonView::Str("kcell"@), JsonView::Str(cell@)];
    let tags = crate::json::array_json(tags, Ghost(tv));
    let none: Vec<JsonValue> = Vec::new();
    let ghost ev = Seq::<JsonView>::empty();
    let examples = crate::json::array_json(none, Ghost(ev));
    let mut f: Vec<(String, JsonValue)> = Vec::new();
    f.push((owned("description"), json_text(d.as_str())));
    f.push((owned("examples"), examples));
    f.push((owned("id"), json_text(cap)));
    f.push((owned("name"), json_text(cap)));
    f.push((owned("tags"), tags));
    let ghost v = seq![
        ("description"@, JsonView::Str("KCell capability `"@ + cap@ + "@"@ + version@ + "` (e.g. from cell `"@ + cell@ + "`)"@)),
        ("examples"@, JsonView::Array(Seq::empty())),
        ("id"@, JsonView::Str(cap@)),
        ("name"@, JsonView::Str(cap@)),
        ("tags"@, JsonView::Array(seq![JsonView::Str("kcell"@), JsonView::Str(cell@)])),
    ];
    object_of(f, Ghost(v))
}

/// One skill per capability of the discover result `providers`, in order of first
/// appearance; providers without a capability name are passed over.
pub fn skills_from_providers(providers: &JsonValue) -> (r: Vec<JsonValue>)
    ensures
        jvs(r@) == skills_of(jv(*providers)),
{
    let ps = match as_items(providers) {
        Some(ps) => ps,
        None => {
            let r: Vec<JsonValue> = Vec::new();
            assert(jvs(r@) =~= Seq::<JsonView>::empty());
            return r;
        },
    };
    let ghost pv = jvs(ps@);
    let mut skills: Vec<JsonValue> = Vec::new();
    let mut seen: Vec<String> = Vec::new();
    let mut i: usize = 0;
    proof {
        reveal_strlit("");
        reveal_strlit("1");
    }
    assert(jvs(skills@) =~= Seq::<JsonView>::empty());
    assert(texts(seen@) =~= Seq::<Seq<char>>::empty());
    while i < ps.len()
        invariant
            i <= ps@.len(),
            pv == jvs(ps@),
            jvs(skills@) == skills_upto(pv, i as int).0,
            texts(seen@) == skills_upto(pv, i as int).1,
        decreases ps@.len() - i,
    {
        let p = &ps[i];
        assert(pv[i as int] == jv(*p));
        let cap = text_or_default(p, "capability", "");
        if chars_of(cap).len() > 0 && !seen_has(&seen, cap) {
            let cell = text_or_default(p, "cell", "");
            let version = text_or_default(p, "capabilityVersion", "1");
            let s = skill(cell, cap, version);
            let ghost before = jvs(skills@);
            let ghost seen_before = texts(seen@);
            skills.push(s);
            seen.push(owned(cap));
            assert(jvs(skills@) =~= before.push(jv(s)));
            assert(texts(seen@) =~= seen_before.push(cap@));
        }
        i = i + 1;
    }
    skills
}

/// The agent card of `cfg`, offering the skills of `providers`.
pub open spec fn card_json(name: Seq<char>, description: Seq<char>, url: Seq<char>, version: Seq<char>, skills: Seq<JsonView>) -> JsonView {
    let modes = JsonView::Array(seq![JsonView::Str("application/json"@), JsonView::Str("text/plain"@)]);
    JsonView::Object(
        seq![
            (
                "capabilities"@,
                JsonView::Object(seq![("pushNotifications"@, JsonView::Bool(false)), ("streaming"@, JsonView::Bool(false))]),
            ),
            ("defaultInputModes"@, modes),
            ("defaultOutputModes"@, modes),
            ("description"@, JsonView::Str(description)),
            ("name"@, JsonView::Str(name)),
            ("protocolVersion"@, JsonView::Str("0.3.0"@)),
            ("skills"@, JsonView::Array(skills)),
            ("url"@, JsonView::Str(url)),
            ("version"@, JsonView::Str(version)),
        ],
    )
}

fn modes() -> (r: JsonValue)
    ensures
        jv(r) == JsonView::Array(seq![JsonView::Str("application/json"@), JsonView::Str("text/plain"@)]),
{
    let mut m: Vec<JsonValue> = Vec::new();
    m.push(json_text("application/json"));
    m.push(json_text("text/plain"));
    let ghost v = seq![JsonView::Str("application/json"@), JsonView::Str("text/plain"@)];
    crate::json::array_json(m, Ghost(v))
}

/// The A2A agent card for `cfg`, with one skill per capability of `providers`.
pub fn build_agent_card(cfg: &CardConfig, providers: &JsonValue) -> (r: JsonValue)
    ensures
        jv(r) == card_json(cfg.name@, cfg.description@, cfg.url@, cfg.version@, skills_of(jv(*providers))),
{
    let skills = skills_from_providers(providers);
    let ghost sv = jvs(skills@);
    let skills = crate::json::array_json(skills, Ghost(sv));
    let mut caps: Vec<(String, JsonValue)> = Vec::new();
    caps.push((owned("pushNotifications"), crate::json::json_bool(false)));
    caps.push((owned("streaming"), crate::json::json_bool(false)));
    let ghost cv = seq![("pushNotifications"@, JsonView::Bool(false)), ("streaming"@, JsonView::Bool(false))];
    let capabilities = object_of(caps, Ghost(cv));
    let mut f: Vec<(String, JsonValue)> = Vec::new();
    f.push((owned("capabilities"), capabilities));
    f.push((owned("defaultInputModes"), modes()));
    f.push((owned("defaultOutputModes"), modes()));
    f.push((owned("description"), json_text(cfg.description)));
    f.push((owned("name"), json_text(cfg.name)));
    f.push((owned("protocolVersion"), json_text("0.3.0")));
    f.push((owned("skills"), skills));
    f.push((owned("url"), json_text(cfg.url)));
    f.push((owned("version"), json_text(cfg.version)));
    let ghost md = JsonView::Array(seq![JsonView::Str("application/json"@), JsonView::Str("text/plain"@)]);
    let ghost v = seq![
        ("capabilities"@, JsonView::Object(cv)),
        ("defaultInputModes"@, md),
        ("defaultOutputModes"@, md),
        ("description"@, JsonView::Str(cfg.description@)),
        ("name"@, JsonView::Str(cfg.name@)),
        ("protocolVersion"@, JsonView::Str("0.3.0"@)),
        ("skills"@, JsonView::Array(sv)),
        ("url"@, JsonView::Str(cfg.url@)),
        ("version"@, JsonView::Str(cfg.version@)),
    ];
    object_of(f, Ghost(v))
}

/// An optional value, null when absent.
pub open spec fn or_null(v: Option<JsonView>) -> JsonView {
    match v {
        Some(x) => x,
        None => JsonView::Null,
    }
}

/// The JSON-RPC success reply to request `id`.
pub open spec fn rpc_ok_json(id: Option<JsonView>, result: JsonView) -> JsonView {
    JsonView::Object(seq![("id"@, or_null(id)), ("jsonrpc"@, JsonView::Str("2.0"@)), ("result"@, result)])
}

/// A JSON integer.
pub open spec fn int_json(n: i64) -> JsonView {
    JsonView::Number(if n >= 0 { NumView::Unsigned(n as u64) } else { NumView::Signed(n) })
}

/// The JSON-RPC error reply to request `id`.
pub open spec fn rpc_error_json(id: Option<JsonView>, code: i64, message: Seq<char>) -> JsonView {
    JsonView::Object(
        seq![
            ("error"@, JsonView::Object(seq![("code"@, int_json(code)), ("message"@, JsonView::Str(message))])),
            ("id"@, or_null(id)),
            ("jsonrpc"@, JsonView::Str("2.0"@)),
        ],
    )
}

fn or_null_value(id: Option<JsonValue>) -> (r: JsonValue)
    ensures
        jv(r) == or_null(crate::adapters::agui::opt_jv(id)),
{
    match id {
        Some(v) => v,
        None => {
            proof {
                reveal(jv);
            }
            JsonValue::Null
        },
    }
}

/// The JSON-RPC success reply carrying `result` to request `id`.
pub fn rpc_ok(id: Option<JsonValue>, result: JsonValue) -> (r: JsonValue)
    ensures
        jv(r) == rpc_ok_json(crate::adapters::agui::opt_jv(id), jv(result)),
{
    let ghost rv = jv(result);
    let mut f: Vec<(String, JsonValue)> = Vec::new();
    f.push((owned("id"), or_null_value(id)));
    f.push((owned("jsonrpc"), json_text("2.0")));
    f.push((owned("result"), result));
    let ghost v = seq![
        ("id"@, or_null(crate::adapters::agui::opt_jv(id))),
        ("jsonrpc"@, JsonView::Str("2.0"@)),
        ("result"@, rv),
    ];
    object_of(f, Ghost(v))
}

/// The JSON-RPC error reply with `code` and `message` to request `id`.
pub fn rpc_error(id: Option<JsonValue>, code: i64, message: &str) -> (r: JsonValue)
    ensures
        jv(r) == rpc_error_json(crate::adapters::agui::opt_jv(id), code, message@),
{
    let mut e: Vec<(String, JsonValue)> = Vec::new();
    e.push((owned("code"), json_i64(code)));
    e.push((owned("message"), json_text(message)));
    let ghost ev = seq![("code"@, int_json(code)), ("message"@, JsonView::Str(message@))];
    let err = object_of(e, Ghost(ev));
    let mut f: Vec<(String, JsonValue)> = Vec::new();
    f.push((owned("error"), err));
    f.push((owned("id"), or_null_value(id)));
    f.push((owned("jsonrpc"), json_text("2.0")));
    let ghost v = seq![
        ("error"@, JsonView::Object(ev)),
        ("id"@, or_null(crate::adapters::agui::opt_jv(id))),
        ("jsonrpc"@, JsonView::Str("2.0"@)),
    ];
    object_of(f, Ghost(v))
}

/// The text of message part `p` when it is a text part: its `kind` (or, when it has
/// no `kind`, its `type`) is "text" and it has a string `text`.
pub open spec fn part_text(p: JsonView) -> Option<Seq<char>> {
    let kind = match member(p, "kind"@) {
        Some(k) => k,
        None => or_null(member(p, "type"@)),
    };
    if kind == JsonView::Str("text"@) {
        text_member(p, "text"@)
    } else {
        None
    }
}

/// The texts of the first `n` parts.
pub open spec fn part_texts(ps: Seq<JsonView>, n: int) -> Seq<Seq<char>>
    decreases n,
{
    if n <= 0 || n > ps.len() {
        Seq::empty()
    } else {
        match part_text(ps[n - 1]) {
            Some(t) => part_texts(ps, n - 1).push(t),
            None => part_texts(ps, n - 1),
        }
    }
}

proof fn lemma_part_texts_len(ps: Seq<JsonView>, n: int)
    ensures
        part_texts(ps, n).len() <= if n < 0 { 0 } else { n },
    decreases n,
{
    if 0 < n <= ps.len() {
        lemma_part_texts_len(ps, n - 1);
    }
}

/// The texts joined by line breaks.
pub open spec fn joined_lines(ts: Seq<Seq<char>>) -> Seq<char>
    decreases ts.len(),
{
    if ts.len() == 0 {
        Seq::empty()
    } else if ts.len() == 1 {
        ts[0]
    } else {
        joined_lines(ts.drop_last()) + "\n"@ + ts.last()
    }
}

/// The text parts of `message` joined by line breaks, if it has a `parts` array.
pub open spec fn message_text(message: JsonView) -> Option<Seq<Seq<char>>> {
    match member(message, "parts"@) {
        Some(JsonView::Array(ps)) => Some(part_texts(ps, ps.len() as int)),
        _ => None,
    }
}

/// The payload a message carries, where `parsed` is what its joined text parses
/// to as JSON (if it does): that document when it is an object or an array, else
/// `{"text": ...}`.
pub open spec fn text_payload(text: Seq<char>, parsed: Option<JsonView>) -> JsonView {
    match parsed {
        Some(v) => if v is Object || v is Array {
            v
        } else {
            JsonView::Object(seq![("text"@, JsonView::Str(text))])
        },
        None => JsonView::Object(seq![("text"@, JsonView::Str(text))]),
    }
}

fn part_text_of(p: &JsonValue) -> (r: Option<&str>)
    ensures
        match r {
            Some(t) => part_text(jv(*p)) == Some(t@),
            None => part_text(jv(*p)) is None,
        },
{
    let is_text = match get_member(p, "kind") {
        Some(k) => match crate::json::as_text(k) {
            Some(t) => same_text(t, "text"),
            None => false,
        },
        None => match get_member(p, "type") {
            Some(k) => match crate::json::as_text(k) {
                Some(t) => same_text(t, "text"),
                None => false,
            },
            None => false,
        },
    };
    if is_text {
        match get_member(p, "text") {
            Some(x) => crate::json::as_text(x),
            None => None,
        }
    } else {
        None
    }
}

/// The text parts of `message`, joined by line breaks (see `message_text`). A
/// message without a `parts` array, or without a text part, is refused.
pub fn message_joined_text(message: &JsonValue) -> (r: Result<String, String>)
    ensures
        match message_text(jv(*message)) {
            None => r matches Err(e) && e@ == "message.parts required"@,
            Some(ts) => if ts.len() == 0 {
                r matches Err(e) && e@ == "message requires a text part"@
            } else {
                r matches Ok(t) && t@ == joined_lines(ts)
            },
        },
{
    let parts = match get_member(message, "parts") {
        Some(x) => match as_items(x) {
            Some(ps) => ps,
            None => {
                return Err(owned("message.parts required"));
            },
        },
        None => {
            return Err(owned("message.parts required"));
        },
    };
    let ghost pv = jvs(parts@);
    let mut text: Vec<char> = Vec::new();
    let mut count: usize = 0;
    let mut i: usize = 0;
    while i < parts.len()
        invariant
            i <= parts@.len(),
            pv == jvs(parts@),
            count == part_texts(pv, i as int).len(),
            count <= i,
            text@ == joined_lines(part_texts(pv, i as int)),
        decreases parts@.len() - i,
    {
        let p = &parts[i];
        assert(pv[i as int] == jv(*p));
        match part_text_of(p) {
            Some(t) => {
                let ghost before = part_texts(pv, i as int);
                proof {
                    reveal_strlit("\n");
                    lemma_part_texts_len(pv, i as int);
                }
                if count > 0 {
                    text.push('\n');
                }
                let mut tc = chars_of(t);
                text.append(&mut tc);
                assert(part_texts(pv, i + 1) == before.push(t@));
                assert(before.push(t@).drop_last() =~= before);
                if count == 0 {
                    assert(text@ =~= t@);
                } else {
                    assert(text@ =~= joined_lines(before) + "\n"@ + t@);
                }
                count = count + 1;
            },
            None => {},
        }
        i = i + 1;
    }
    if count == 0 {
        return Err(owned("message requires a text part"));
    }
    Ok(string_of(text.as_slice()))
}

/// The text parts of `message`, joined by line breaks (see `message_text`), then
/// made a payload (see `text_payload`); `parsed` is what that text parses to as
/// JSON. A message without a `parts` array, or without a text part, is refused.
pub fn payload_from_message(message: &JsonValue, parsed: Option<JsonValue>) -> (r: Result<JsonValue, String>)
    ensures
        match message_text(jv(*message)) {
            None => r matches Err(e) && e@ == "message.parts required"@,
            Some(ts) => if ts.len() == 0 {
                r matches Err(e) && e@ == "message requires a text part"@
            } else {
                r matches Ok(v) && jv(v) == text_payload(joined_lines(ts), crate::adapters::agui::opt_jv(parsed))
            },
        },
{
    let joined = match message_joined_text(message) {
        Ok(t) => t,
        Err(e) => {
            return Err(e);
        },
    };
    match parsed {
        Some(v) => {
            let keep = match &v {
                JsonValue::Object(_) => true,
                JsonValue::Array(_) => true,
                _ => false,
            };
            proof {
                reveal(jv);
            }
            if keep {
                return Ok(v);
            }
        },
        None => {},
    }
    let mut f: Vec<(String, JsonValue)> = Vec::new();
    f.push((owned("text"), json_text(joined.as_str())));
    let ghost tv = seq![("text"@, JsonView::Str(joined@))];
    Ok(object_of(f, Ghost(tv)))
}

/// What a JSON-RPC request asks of the agent.
pub enum RpcRoute {
    /// Answer at once with this reply.
    Reply(JsonValue),
    /// Send `params`' message to the Cell and answer request `id` with the outcome.
    Send { id: Option<JsonValue>, params: JsonValue },
}

/// The route of a request: a `message/send` (or `message/sendMessage`) of JSON-RPC
/// 2.0 is sent on with its id and params (null when absent); any other request is
/// answered with an error: -32600 for a wrong version or a missing method, -32601
/// for an unknown one.
pub open spec fn route_of(req: JsonView) -> (JsonView, bool, Option<JsonView>) {
    let id = member(req, "id"@);
    let method = text_or(req, "method"@, ""@);
    if text_or(req, "jsonrpc"@, ""@) != "2.0"@ {
        (rpc_error_json(id, -32600i64, "jsonrpc must be 2.0"@), false, id)
    } else if method == "message/send"@ || method == "message/sendMessage"@ {
        (or_null(member(req, "params"@)), true, id)
    } else if method == ""@ {
        (rpc_error_json(id, -32600i64, "missing method"@), false, id)
    } else {
        (rpc_error_json(id, -32601i64, "method not found: "@ + method), false, id)
    }
}

fn member_copy(v: &JsonValue, key: &str) -> (r: Option<JsonValue>)
    ensures
        crate::adapters::agui::opt_jv(r) == member(jv(*v), key@),
{
    match get_member(v, key) {
        Some(x) => Some(copy_json(x)),
        None => None,
    }
}

/// Where a JSON-RPC request goes (see `route_of`).
pub fn route_rpc(req: &JsonValue) -> (r: RpcRoute)
    ensures
        match r {
            RpcRoute::Reply(v) => !route_of(jv(*req)).1 && jv(v) == route_of(jv(*req)).0,
            RpcRoute::Send { id, params } => route_of(jv(*req)).1 && jv(params) == route_of(jv(*req)).0
                && crate::adapters::agui::opt_jv(id) == route_of(jv(*req)).2,
        },
{
    proof {
        reveal_strlit("");
    }
    let version = text_or_default(req, "jsonrpc", "");
    if !same_text(version, "2.0") {
        return RpcRoute::Reply(rpc_error(member_copy(req, "id"), -32600, "jsonrpc must be 2.0"));
    }
    let id = member_copy(req, "id");
    let method = text_or_default(req, "method", "");
    if same_text(method, "message/send") || same_text(method, "message/sendMessage") {
        let params = match get_member(req, "params") {
            Some(p) => copy_json(p),
            None => {
                proof {
                    reveal(jv);
                }
                JsonValue::Null
            },
        };
        RpcRoute::Send { id, params }
    } else if same_text(method, "") {
        RpcRoute::Reply(rpc_error(id, -32600, "missing method"))
    } else {
        let m = join2("method not found: ", method);
        RpcRoute::Reply(rpc_error(id, -32601, m.as_str()))
    }
}

/// The reply to a sent message: the task on success, else error -32000 with the
/// reason.
pub fn send_reply(id: Option<JsonValue>, outcome: Result<JsonValue, String>) -> (r: JsonValue)
    ensures
        jv(r) == match outcome {
            Ok(task) => rpc_ok_json(crate::adapters::agui::opt_jv(id), jv(task)),
            Err(e) => rpc_error_json(crate::adapters::agui::opt_jv(id), -32000i64, e@),
        },
{
    match outcome {
        Ok(task) => rpc_ok(id, task),
        Err(e) => rpc_error(id, -32000, e.as_str()),
    }
}

/// The completed task for `message`, made at time `stamp`, whose one artifact holds
/// `text`.
pub open spec fn task_json(stamp: nat, message: JsonView, text: Seq<char>) -> JsonView {
    JsonView::Object(
        seq![
            (
                "artifacts"@,
                JsonView::Array(
                    seq![
                        JsonView::Object(
                            seq![
                                ("artifactId"@, JsonView::Str("art-"@ + decimal(stamp))),
                                (
                                    "parts"@,
                                    JsonView::Array(
                                        seq![JsonView::Object(seq![("kind"@, JsonView::Str("text"@)), ("text"@, JsonView::Str(text))])],
                                    ),
                                ),
                            ],
                        ),
                    ],
                ),
            ),
            ("contextId"@, or_null(member(message, "contextId"@))),
            ("id"@, JsonView::Str("task-"@ + decimal(stamp))),
            ("status"@, JsonView::Object(seq![("state"@, JsonView::Str("completed"@))])),
        ],
    )
}

/// The task that answers `message`, made now, with the Cell's reply rendered as
/// `text`.
pub fn task_for(message: &JsonValue, text: &str) -> (r: JsonValue)
    ensures
        exists|stamp: nat| jv(r) == task_json(stamp, jv(*message), text@),
{
    let stamp = crate::clock::now_stamp();
    let mut digits: Vec<char> = Vec::new();
    push_decimal_wide(stamp, &mut digits);
    let d = string_of(digits.as_slice());
    let mut part: Vec<(String, JsonValue)> = Vec::new();
    part.push((owned("kind"), json_text("text")));
    part.push((owned("text"), json_text(text)));
    let ghost pv = seq![("kind"@, JsonView::Str("text"@)), ("text"@, JsonView::Str(text@))];
    let part = object_of(part, Ghost(pv));
    let mut parts: Vec<JsonValue> = Vec::new();
    parts.push(part);
    let ghost psv = seq![JsonView::Object(pv)];
    let parts = crate::json::array_json(parts, Ghost(psv));
    let mut art: Vec<(String, JsonValue)> = Vec::new();
    art.push((owned("artifactId"), json_text(join2("art-", d.as_str()).as_str())));
    art.push((owned("parts"), parts));
    let ghost av = seq![("artifactId"@, JsonView::Str("art-"@ + d@)), ("parts"@, JsonView::Array(psv))];
    let art = object_of(art, Ghost(av));
    let mut arts: Vec<JsonValue> = Vec::new();
    arts.push(art);
    let ghost asv = seq![JsonView::Object(av)];
    let arts = crate::json::array_json(arts, Ghost(asv));
    let context = match member_copy(message, "contextId") {
        Some(c) => c,
        None => {
            proof {
                reveal(jv);
            }
            JsonValue::Null
        },
    };
    let ghost ctx = or_null(member(jv(*message), "contextId"@));
    let mut st: Vec<(String, JsonValue)> = Vec::new();
    st.push((owned("state"), json_text("completed")));
    let ghost sv = seq![("state"@, JsonView::Str("completed"@))];
    let status = object_of(st, Ghost(sv));
    let mut f: Vec<(String, JsonValue)> = Vec::new();
    f.push((owned("artifacts"), arts));
    f.push((owned("contextId"), context));
    f.push((owned("id"), json_text(join2("task-", d.as_str()).as_str())));
    f.push((owned("status"), status));
    let ghost v = seq![
        ("artifacts"@, JsonView::Array(asv)),
        ("contextId"@, ctx),
        ("id"@, JsonView::Str("task-"@ + d@)),
        ("status"@, JsonView::Object(sv)),
    ];
    let r = object_of(f, Ghost(v));
    assert(jv(r) == task_json(stamp as nat, jv(*message), text@));
    r
}

} // verus!
