//! MCP tools: one tool per provided capability, named `cell__capability`.

use vstd::prelude::*;

use crate::adapters::agui::opt_jv;
use crate::autoconfig::text_or;
use crate::adapters::a2a::or_null;
use crate::autoconfig::text_member;
use crate::json::{as_items, copy_json, get_member, json_bool, json_text, jv, jvs, member, object_of, JsonValue, JsonView};
use crate::text::{chars_of, join3, join5, owned, slice_chars, string_of, text_le, text_less, text_lt};

verus! {

/// `__` stands at position `i` of `s`.
pub open spec fn sep_at(s: Seq<char>, i: int) -> bool {
    0 <= i && i + 1 < s.len() && s[i] == '_' && s[i + 1] == '_'
}

/// `s` holds `__` somewhere.
pub open spec fn has_sep(s: Seq<char>) -> bool {
    exists|i: int| #[trigger] sep_at(s, i)
}

/// Position of the first `__` in `s`.
pub open spec fn first_sep(s: Seq<char>) -> int {
    choose|i: int| #[trigger] sep_at(s, i) && forall|j: int| 0 <= j < i ==> !#[trigger] sep_at(s, j)
}

/// The tool name for `cap` of `cell`.
pub open spec fn tool_name(cell: Seq<char>, cap: Seq<char>) -> Seq<char> {
    cell + "__"@ + cap
}

/// The Cell and capability a tool name stands for: the text before its first `__`
/// and the text after it, both non-empty and the capability without another `__`.
pub open spec fn tool_parts(name: Seq<char>) -> Option<(Seq<char>, Seq<char>)> {
    if has_sep(name) {
        let i = first_sep(name);
        let cell = name.take(i);
        let cap = name.skip(i + 2);
        if cell.len() == 0 || cap.len() == 0 || has_sep(cap) {
            None
        } else {
            Some((cell, cap))
        }
    } else {
        None
    }
}

/// The tool name for `capability` of `cell`: `cell__capability`.
pub fn encode_tool_name(cell: &str, capability: &str) -> (r: String)
    ensures
        r@ == tool_name(cell@, capability@),
{
    join3(cell, "__", capability)
}

/// Position of the first `__` in `s`.
fn find_sep(s: &Vec<char>) -> (r: Option<usize>)
    ensures
        match r {
            Some(i) => sep_at(s@, i as int) && forall|j: int| 0 <= j < i ==> !#[trigger] sep_at(s@, j),
            None => !has_sep(s@),
        },
{
    let mut i: usize = 0;
    while i < s.len() && s.len() - i > 1
        invariant
            i <= s@.len(),
            forall|j: int| 0 <= j < i ==> !#[trigger] sep_at(s@, j),
        decreases s@.len() - i,
    {
        if s[i] == '_' && s[i + 1] == '_' {
            return Some(i);
        }
        i = i + 1;
    }
    proof {
        assert forall|j: int| !#[trigger] sep_at(s@, j) by {
            if 0 <= j && j >= i {
                assert(!(j + 1 < s@.len()));
            }
        }
    }
    None
}

/// The Cell and capability of tool `name` (see `tool_parts`).
pub fn decode_tool_name(name: &str) -> (r: Option<(String, String)>)
    ensures
        match r {
            Some((c, p)) => tool_parts(name@) == Some((c@, p@)),
            None => tool_parts(name@) is None,
        },
{
    let s = chars_of(name);
    let i = match find_sep(&s) {
        Some(i) => i,
        None => {
            return None;
        },
    };
    proof {
        let f = first_sep(s@);
        assert(sep_at(s@, f) && forall|j: int| 0 <= j < f ==> !#[trigger] sep_at(s@, j));
        if f < i {
        } else if f > i {
        }
        assert(f == i);
    }
    let cell = slice_chars(&s, 0, i);
    let len = s.len();
    assert(i + 2 <= len);
    let cap = slice_chars(&s, i + 2, len);
    assert(cell@ =~= s@.take(i as int));
    assert(cap@ =~= s@.skip(i + 2));
    if cell.len() == 0 || cap.len() == 0 {
        return None;
    }
    if find_sep(&cap).is_some() {
        return None;
    }
    Some((string_of(cell.as_slice()), string_of(cap.as_slice())))
}

proof fn lemma_first_sep(cell: Seq<char>, cap: Seq<char>)
    requires
        cell.len() > 0,
        cell.last() != '_',
        !has_sep(cell),
    ensures
        has_sep(tool_name(cell, cap)),
        first_sep(tool_name(cell, cap)) == cell.len(),
{
    reveal_strlit("__");
    let s = tool_name(cell, cap);
    let n = cell.len() as int;
    assert(s =~= cell + seq!['_', '_'] + cap);
    assert(sep_at(s, n));
    assert forall|j: int| 0 <= j < n implies !#[trigger] sep_at(s, j) by {
        if j + 1 < n {
            if sep_at(s, j) {
                assert(s[j] == cell[j] && s[j + 1] == cell[j + 1]);
                assert(sep_at(cell, j));
            }
        } else {
            assert(s[j] == cell[n - 1]);
        }
    }
    let f = first_sep(s);
    assert(sep_at(s, f) && forall|j: int| 0 <= j < f ==> !#[trigger] sep_at(s, j));
    if f < n {
        assert(!sep_at(s, f));
    } else if f > n {
        assert(!sep_at(s, n));
    }
}

/// A tool name decodes to the Cell and capability it was made from, when the Cell
/// name holds no `__` and does not end in `_`, and the capability is non-empty and
/// holds no `__`.
pub proof fn tool_name_roundtrip(cell: Seq<char>, cap: Seq<char>)
    requires
        cell.len() > 0,
        cell.last() != '_',
        !has_sep(cell),
        cap.len() > 0,
        !has_sep(cap),
    ensures
        tool_parts(tool_name(cell, cap)) == Some((cell, cap)),
{
    reveal_strlit("__");
    lemma_first_sep(cell, cap);
    let s = tool_name(cell, cap);
    let n = cell.len() as int;
    let mid = "__"@;
    assert(mid.len() == 2);
    assert(s.take(n) =~= cell);
    assert(s.skip(n + 2) =~= cap);
    assert(!has_sep(s.skip(n + 2)));
}

/// The MCP protocol revision this server speaks.
pub const PROTOCOL_VERSION: &'static str = "2024-11-05";

/// A JSON-RPC request of an MCP client.
pub struct JsonRpcRequest {
    pub jsonrpc: String,
    pub id: Option<JsonValue>,
    pub method: String,
    pub params: Option<JsonValue>,
}

/// A JSON-RPC error object.
pub struct JsonRpcError {
    pub code: i64,
    pub message: String,
    pub data: Option<JsonValue>,
}

/// A JSON-RPC response.
pub struct JsonRpcResponse {
    pub jsonrpc: String,
    pub id: Option<JsonValue>,
    pub result: Option<JsonValue>,
    pub error: Option<JsonRpcError>,
}

/// An MCP tool: one capability of one Cell.
pub struct McpTool {
    pub name: String,
    pub description: String,
    pub input_schema: JsonValue,
}

/// The success response carrying `result` to request `id`.
pub fn ok_result(id: Option<JsonValue>, result: JsonValue) -> (r: JsonRpcResponse)
    ensures
        r.jsonrpc@ == "2.0"@,
        opt_jv(r.id) == opt_jv(id),
        opt_jv(r.result) == Some(jv(result)),
        r.error is None,
{
    JsonRpcResponse { jsonrpc: owned("2.0"), id, result: Some(result), error: None }
}

/// The error response with `code` and `message` to request `id`.
pub fn err_result(id: Option<JsonValue>, code: i64, message: &str) -> (r: JsonRpcResponse)
    ensures
        r.jsonrpc@ == "2.0"@,
        opt_jv(r.id) == opt_jv(id),
        r.result is None,
        r.error matches Some(e) && e.code == code && e.message@ == message@ && e.data is None,
{
    JsonRpcResponse {
        jsonrpc: owned("2.0"),
        id,
        result: None,
        error: Some(JsonRpcError { code, message: owned(message), data: None }),
    }
}

/// A request without an id is a notification: it gets no response.
pub fn is_notification(req: &JsonRpcRequest) -> (r: bool)
    ensures
        r == req.id is None,
{
    req.id.is_none()
}

/// The reply to `initialize` for a server at `version`.
pub open spec fn initialize_json(version: Seq<char>) -> JsonView {
    JsonView::Object(
        seq![
            ("capabilities"@, JsonView::Object(seq![("tools"@, JsonView::Object(Seq::empty()))])),
            ("protocolVersion"@, JsonView::Str(PROTOCOL_VERSION@)),
            (
                "serverInfo"@,
                JsonView::Object(seq![("name"@, JsonView::Str("kcell-mcp"@)), ("version"@, JsonView::Str(version))]),
            ),
        ],
    )
}

/// The result of `initialize`: the protocol revision, a `tools` capability, and the
/// server's name and `version`.
pub fn initialize_result(version: &str) -> (r: JsonValue)
    ensures
        jv(r) == initialize_json(version@),
{
    let empty: Vec<(String, JsonValue)> = Vec::new();
    let ghost ev = Seq::<(Seq<char>, JsonView)>::empty();
    let tools = object_of(empty, Ghost(ev));
    let mut c: Vec<(String, JsonValue)> = Vec::new();
    c.push((owned("tools"), tools));
    let ghost cv = seq![("tools"@, JsonView::Object(ev))];
    let caps = object_of(c, Ghost(cv));
    let mut si: Vec<(String, JsonValue)> = Vec::new();
    si.push((owned("name"), json_text("kcell-mcp")));
    si.push((owned("version"), json_text(version)));
    let ghost sv = seq![("name"@, JsonView::Str("kcell-mcp"@)), ("version"@, JsonView::Str(version@))];
    let info = object_of(si, Ghost(sv));
    let mut f: Vec<(String, JsonValue)> = Vec::new();
    f.push((owned("capabilities"), caps));
    f.push((owned("protocolVersion"), json_text(PROTOCOL_VERSION)));
    f.push((owned("serverInfo"), info));
    let ghost v = seq![
        ("capabilities"@, JsonView::Object(cv)),
        ("protocolVersion"@, JsonView::Str(PROTOCOL_VERSION@)),
        ("serverInfo"@, JsonView::Object(sv)),
    ];
    object_of(f, Ghost(v))
}

/// The input schema of every tool: an object whose `payload` is forwarded as the
/// envelope payload.
pub open spec fn tool_schema() -> JsonView {
    JsonView::Object(
        seq![
            ("additionalProperties"@, JsonView::Bool(true)),
            (
                "properties"@,
                JsonView::Object(
                    seq![
                        (
                            "payload"@,
                            JsonView::Object(
                                seq![
                                    ("description"@, JsonView::Str("Opaque JSON forwarded as the KCell envelope payload"@)),
                                    ("type"@, JsonView::Str("object"@)),
                                ],
                            ),
                        ),
                    ],
                ),
            ),
            ("type"@, JsonView::Str("object"@)),
        ],
    )
}

/// The tool (name and description) for discover entry `p`, whose `runtime` member
/// renders as `runtime` (when it has one); none when the entry names no Cell or no
/// capability.
pub open spec fn tool_of(p: JsonView, runtime: Option<Seq<char>>) -> Option<(Seq<char>, Seq<char>)> {
    let cell = text_or(p, "cell"@, ""@);
    let cap = text_or(p, "capability"@, ""@);
    if cell.len() == 0 || cap.len() == 0 {
        None
    } else {
        let version = text_or(p, "capabilityVersion"@, "?"@);
        let rt = match runtime {
            Some(r) => r,
            None => "?"@,
        };
        Some(
            (
                tool_name(cell, cap),
                "KCell capability `"@ + cap + "@"@ + version + "` from cell `"@ + cell + "` ("@ + rt + ")"@,
            ),
        )
    }
}

/// The rendering of entry `i`'s runtime, if given.
pub open spec fn runtime_at(runtimes: Seq<Option<String>>, i: int) -> Option<Seq<char>> {
    if 0 <= i < runtimes.len() {
        match runtimes[i] {
            Some(r) => Some(r@),
            None => None,
        }
    } else {
        None
    }
}

/// The tools of the first `n` discover entries, in entry order.
pub open spec fn tools_upto(ps: Seq<JsonView>, runtimes: Seq<Option<String>>, n: int) -> Seq<(Seq<char>, Seq<char>)>
    decreases n,
{
    if n <= 0 || n > ps.len() {
        Seq::empty()
    } else {
        match tool_of(ps[n - 1], runtime_at(runtimes, n - 1)) {
            Some(t) => tools_upto(ps, runtimes, n - 1).push(t),
            None => tools_upto(ps, runtimes, n - 1),
        }
    }
}

/// Where `t` goes in `s` when inserted after every tool whose name does not sort
/// after its own.
pub open spec fn insert_pos(s: Seq<(Seq<char>, Seq<char>)>, t: (Seq<char>, Seq<char>)) -> int
    decreases s.len(),
{
    if s.len() == 0 {
        0
    } else if text_lt(t.0, s.last().0) {
        insert_pos(s.drop_last(), t)
    } else {
        s.len() as int
    }
}

/// `s` with `t` inserted at `insert_pos`.
pub open spec fn insert_by_name(s: Seq<(Seq<char>, Seq<char>)>, t: (Seq<char>, Seq<char>)) -> Seq<(Seq<char>, Seq<char>)> {
    s.take(insert_pos(s, t)).push(t) + s.skip(insert_pos(s, t))
}

/// `s` sorted by name, tools with equal names kept in their order (a stable sort).
pub open spec fn sort_by_name(s: Seq<(Seq<char>, Seq<char>)>) -> Seq<(Seq<char>, Seq<char>)>
    decreases s.len(),
{
    if s.len() == 0 {
        s
    } else {
        insert_by_name(sort_by_name(s.drop_last()), s.last())
    }
}

/// The tools of a discover result: none unless it is an array.
pub open spec fn tools_of(providers: JsonView, runtimes: Seq<Option<String>>) -> Seq<(Seq<char>, Seq<char>)> {
    match providers {
        JsonView::Array(ps) => sort_by_name(tools_upto(ps, runtimes, ps.len() as int)),
        _ => Seq::empty(),
    }
}

/// The name and description of each tool.
pub open spec fn tool_views(v: Seq<McpTool>) -> Seq<(Seq<char>, Seq<char>)> {
    Seq::new(v.len(), |i: int| (v[i].name@, v[i].description@))
}

proof fn lemma_insert_pos_bound(s: Seq<(Seq<char>, Seq<char>)>, t: (Seq<char>, Seq<char>))
    ensures
        0 <= insert_pos(s, t) <= s.len(),
    decreases s.len(),
{
    if s.len() > 0 && text_lt(t.0, s.last().0) {
        lemma_insert_pos_bound(s.drop_last(), t);
    }
}

fn schema() -> (r: JsonValue)
    ensures
        jv(r) == tool_schema(),
{
    let mut pf: Vec<(String, JsonValue)> = Vec::new();
    pf.push((owned("description"), json_text("Opaque JSON forwarded as the KCell envelope payload")));
    pf.push((owned("type"), json_text("object")));
    let ghost pv = seq![
        ("description"@, JsonView::Str("Opaque JSON forwarded as the KCell envelope payload"@)),
        ("type"@, JsonView::Str("object"@)),
    ];
    let payload = object_of(pf, Ghost(pv));
    let mut props: Vec<(String, JsonValue)> = Vec::new();
    props.push((owned("payload"), payload));
    let ghost prv = seq![("payload"@, JsonView::Object(pv))];
    let properties = object_of(props, Ghost(prv));
    let mut f: Vec<(String, JsonValue)> = Vec::new();
    f.push((owned("additionalProperties"), json_bool(true)));
    f.push((owned("properties"), properties));
    f.push((owned("type"), json_text("object")));
    let ghost v = seq![
        ("additionalProperties"@, JsonView::Bool(true)),
        ("properties"@, JsonView::Object(prv)),
        ("type"@, JsonView::Str("object"@)),
    ];
    object_of(f, Ghost(v))
}

fn text_or_default<'a>(v: &'a JsonValue, key: &str, d: &'a str) -> (r: &'a str)
    ensures
        r@ == text_or(jv(*v), key@, d@),
{
    match get_member(v, key) {
        Some(x) => match crate::json::as_text(x) {
            Some(s) => s,
            None => d,
        },
        None => d,
    }
}

/// Inserts `t` into `out` after every tool whose name does not sort after its own.
fn insert_tool(out: &mut Vec<McpTool>, t: McpTool)
    requires
        forall|i: int| 0 <= i < old(out)@.len() ==> jv((#[trigger] old(out)@[i]).input_schema) == tool_schema(),
        jv(t.input_schema) == tool_schema(),
    ensures
        tool_views(final(out)@) == insert_by_name(tool_views(old(out)@), (t.name@, t.description@)),
        forall|i: int| 0 <= i < final(out)@.len() ==> jv((#[trigger] final(out)@[i]).input_schema) == tool_schema(),
{
    let ghost s = tool_views(out@);
    let ghost tv = (t.name@, t.description@);
    let name = chars_of(t.name.as_str());
    let mut k: usize = out.len();
    assert(s.take(k as int) =~= s);
    while k > 0 && text_less(&name, &chars_of(out[k - 1].name.as_str()))
        invariant
            k <= out@.len(),
            s == tool_views(out@),
            name@ == tv.0,
            insert_pos(s, tv) == insert_pos(s.take(k as int), tv),
        decreases k,
    {
        proof {
            let pre = s.take(k as int);
            assert(pre.last() == s[k - 1]);
            assert(pre.drop_last() =~= s.take(k - 1));
        }
        k = k - 1;
    }
    proof {
        let pre = s.take(k as int);
        if k > 0 {
            assert(pre.last() == s[k - 1]);
        }
        assert(insert_pos(pre, tv) == k);
    }
    out.insert(k, t);
    proof {
        assert(tool_views(out@) =~= s.take(k as int).push(tv) + s.skip(k as int));
    }
}

/// One tool per discover entry that names a Cell and a capability, sorted by tool
/// name (entries with equal names keep their order). `runtimes[i]` is how entry
/// `i`'s `runtime` member renders as JSON, when it has one.
pub fn providers_to_tools(providers: &JsonValue, runtimes: &Vec<Option<String>>) -> (r: Vec<McpTool>)
    ensures
        tool_views(r@) == tools_of(jv(*providers), runtimes@),
        forall|i: int| 0 <= i < r@.len() ==> jv((#[trigger] r@[i]).input_schema) == tool_schema(),
{
    let mut out: Vec<McpTool> = Vec::new();
    let ps = match as_items(providers) {
        Some(ps) => ps,
        None => {
            assert(tool_views(out@) =~= Seq::<(Seq<char>, Seq<char>)>::empty());
            return out;
        },
    };
    let ghost pv = jvs(ps@);
    let mut i: usize = 0;
    assert(tool_views(out@) =~= sort_by_name(tools_upto(pv, runtimes@, 0)));
    while i < ps.len()
        invariant
            i <= ps@.len(),
            pv == jvs(ps@),
            tool_views(out@) == sort_by_name(tools_upto(pv, runtimes@, i as int)),
            forall|j: int| 0 <= j < out@.len() ==> jv((#[trigger] out@[j]).input_schema) == tool_schema(),
        decreases ps@.len() - i,
    {
        let p = &ps[i];
        assert(pv[i as int] == jv(*p));
        proof {
            reveal_strlit("");
            reveal_strlit("?");
        }
        let cell = text_or_default(p, "cell", "");
        let cap = text_or_default(p, "capability", "");
        if chars_of(cell).len() > 0 && chars_of(cap).len() > 0 {
            let version = text_or_default(p, "capabilityVersion", "?");
            let rt: &str = if i < runtimes.len() {
                match &runtimes[i] {
                    Some(r) => r.as_str(),
                    None => "?",
                }
            } else {
                "?"
            };
            let d1 = join5("KCell capability `", cap, "@", version, "` from cell `");
            let d = join5(d1.as_str(), cell, "` (", rt, ")");
            let tool = McpTool { name: encode_tool_name(cell, cap), description: d, input_schema: schema() };
            let ghost before = tools_upto(pv, runtimes@, i as int);
            assert(tools_upto(pv, runtimes@, i + 1) == before.push((tool.name@, tool.description@)));
            assert(before.push((tool.name@, tool.description@)).drop_last() =~= before);
            insert_tool(&mut out, tool);
        }
        i = i + 1;
    }
    out
}

/// The tools of `s` come in order of name.
pub open spec fn names_sorted(s: Seq<(Seq<char>, Seq<char>)>) -> bool {
    forall|i: int, j: int| 0 <= i < j < s.len() ==> text_le(#[trigger] s[i].0, #[trigger] s[j].0)
}

proof fn lemma_le_trans(a: Seq<char>, b: Seq<char>, c: Seq<char>)
    requires
        text_le(a, b),
        text_le(b, c),
    ensures
        text_le(a, c),
{
    if a != b && b != c {
        crate::text::lemma_text_lt_trans(a, b, c);
    }
}

proof fn lemma_insert_pos_facts(s: Seq<(Seq<char>, Seq<char>)>, t: (Seq<char>, Seq<char>))
    ensures
        0 <= insert_pos(s, t) <= s.len(),
        forall|k: int| insert_pos(s, t) <= k < s.len() ==> text_lt(t.0, #[trigger] s[k].0),
        insert_pos(s, t) > 0 ==> !text_lt(t.0, s[insert_pos(s, t) - 1].0),
    decreases s.len(),
{
    if s.len() > 0 && text_lt(t.0, s.last().0) {
        let d = s.drop_last();
        lemma_insert_pos_facts(d, t);
        assert forall|k: int| insert_pos(s, t) <= k < s.len() implies text_lt(t.0, #[trigger] s[k].0) by {
            if k < d.len() {
                assert(d[k] == s[k]);
            }
        }
        if insert_pos(s, t) > 0 {
            assert(d[insert_pos(s, t) - 1] == s[insert_pos(s, t) - 1]);
        }
    }
}

proof fn lemma_insert_sorted(s: Seq<(Seq<char>, Seq<char>)>, t: (Seq<char>, Seq<char>))
    requires
        names_sorted(s),
    ensures
        names_sorted(insert_by_name(s, t)),
        insert_by_name(s, t).len() == s.len() + 1,
{
    lemma_insert_pos_facts(s, t);
    let p = insert_pos(s, t);
    let r = insert_by_name(s, t);
    assert(r.len() == s.len() + 1);
    assert forall|k: int| 0 <= k < r.len() implies #[trigger] r[k] == if k < p {
        s[k]
    } else if k == p {
        t
    } else {
        s[k - 1]
    } by {}
    if p > 0 {
        crate::text::lemma_text_lt_total(t.0, s[p - 1].0);
    }
    assert forall|i: int, j: int| 0 <= i < j < r.len() implies text_le(#[trigger] r[i].0, #[trigger] r[j].0) by {
        if j < p {
            assert(text_le(s[i].0, s[j].0));
        } else if j == p {
            assert(text_le(s[p - 1].0, t.0));
            if i < p - 1 {
                assert(text_le(s[i].0, s[p - 1].0));
                lemma_le_trans(s[i].0, s[p - 1].0, t.0);
            }
        } else if i > p {
            assert(text_le(s[i - 1].0, s[j - 1].0));
        } else if i == p {
            assert(text_lt(t.0, s[j - 1].0));
        } else {
            assert(text_le(s[i].0, s[j - 1].0));
        }
    }
}

/// Sorting by name gives the tools in order of name, and no tool is lost or added.
pub proof fn sort_by_name_sorts(s: Seq<(Seq<char>, Seq<char>)>)
    ensures
        names_sorted(sort_by_name(s)),
        sort_by_name(s).len() == s.len(),
    decreases s.len(),
{
    if s.len() > 0 {
        sort_by_name_sorts(s.drop_last());
        lemma_insert_sorted(sort_by_name(s.drop_last()), s.last());
    }
}

/// The tools a discover result maps to come in order of tool name.
pub proof fn tools_come_sorted(providers: JsonView, runtimes: Seq<Option<String>>)
    ensures
        names_sorted(tools_of(providers, runtimes)),
{
    if let JsonView::Array(ps) = providers {
        sort_by_name_sorts(tools_upto(ps, runtimes, ps.len() as int));
    }
}

/// The MCP server's link to a Host: its control socket and the Cell that invokes.
pub struct Bridge {
    pub socket: String,
    pub consumer: String,
}

/// What a `tools/call` of tool `name` with `arguments` invokes: the tool's Cell and
/// capability, and the `payload` argument (an empty object when absent); a name
/// that is no tool name is refused.
pub open spec fn call_plan(name: Seq<char>, arguments: JsonView) -> Result<(Seq<char>, Seq<char>, JsonView), Seq<char>> {
    match tool_parts(name) {
        None => Err("invalid tool name `"@ + name + "` (expect cell__capability)"@),
        Some((cell, cap)) => Ok(
            (
                cell,
                cap,
                match member(arguments, "payload"@) {
                    Some(p) => p,
                    None => JsonView::Object(Seq::empty()),
                },
            ),
        ),
    }
}

fn empty_object() -> (r: JsonValue)
    ensures
        jv(r) == JsonView::Object(Seq::empty()),
{
    let f: Vec<(String, JsonValue)> = Vec::new();
    let ghost v = Seq::<(Seq<char>, JsonView)>::empty();
    object_of(f, Ghost(v))
}

/// The invocation a `tools/call` asks for (see `call_plan`).
pub fn tool_call_plan(name: &str, arguments: &JsonValue) -> (r: Result<(String, String, JsonValue), String>)
    ensures
        match call_plan(name@, jv(*arguments)) {
            Ok((c, p, v)) => r matches Ok((a, b, x)) && a@ == c && b@ == p && jv(x) == v,
            Err(m) => r matches Err(e) && e@ == m,
        },
{
    match decode_tool_name(name) {
        None => Err(join3("invalid tool name `", name, "` (expect cell__capability)")),
        Some((cell, cap)) => {
            let payload = match get_member(arguments, "payload") {
                Some(p) => copy_json(p),
                None => empty_object(),
            };
            Ok((cell, cap, payload))
        },
    }
}

/// What the MCP server does with a request.
pub enum McpRoute {
    /// Nothing: the request is a notification.
    Ignore,
    /// Answer at once.
    Reply(JsonRpcResponse),
    /// List the tools and answer request `id`.
    ListTools { id: Option<JsonValue> },
    /// Call tool `name` with `arguments` and answer request `id`.
    CallTool { id: Option<JsonValue>, name: String, arguments: JsonValue },
}

/// The route of an MCP request: notifications are ignored; `initialize` and `ping`
/// are answered at once; `tools/list` lists; `tools/call` calls the tool its
/// `params.name` names with its `params.arguments` (an empty object when absent),
/// and is refused with -32602 without a name; any other method gets -32601.
pub fn route_mcp(req: &JsonRpcRequest, server_version: &str) -> (r: McpRoute)
    ensures
        req.id is None <==> r is Ignore,
        req.id is Some && req.method@ == "initialize"@ ==> (r matches McpRoute::Reply(resp) && resp.error is None
            && opt_jv(resp.id) == opt_jv(req.id) && opt_jv(resp.result) == Some(initialize_json(server_version@))),
        req.id is Some && req.method@ == "ping"@ ==> (r matches McpRoute::Reply(resp) && resp.error is None && opt_jv(
            resp.id,
        ) == opt_jv(req.id) && opt_jv(resp.result) == Some(JsonView::Object(Seq::empty()))),
        req.id is Some && req.method@ == "tools/list"@ ==> (r matches McpRoute::ListTools { id } && opt_jv(id)
            == opt_jv(req.id)),
        req.id is Some && req.method@ == "tools/call"@ ==> ({
            let params = or_null(opt_jv(req.params));
            let name = match text_member(params, "name"@) {
                Some(n) => n,
                None => ""@,
            };
            if name.len() == 0 {
                r matches McpRoute::Reply(resp) && (resp.result is None && opt_jv(resp.id) == opt_jv(req.id)
                    && (resp.error matches Some(e) && e.code == -32602 && e.message@
                    == "tools/call requires params.name"@))
            } else {
                r matches McpRoute::CallTool { id, name: n, arguments } && opt_jv(id) == opt_jv(req.id) && n@ == name
                    && jv(arguments) == match member(params, "arguments"@) {
                    Some(a) => a,
                    None => JsonView::Object(Seq::empty()),
                }
            }
        }),
        req.id is Some && req.method@ != "initialize"@ && req.method@ != "ping"@ && req.method@ != "tools/list"@
            && req.method@ != "tools/call"@ ==> (r matches McpRoute::Reply(resp) && (resp.result is None && opt_jv(
            resp.id,
        ) == opt_jv(req.id) && (resp.error matches Some(e) && e.code == -32601 && e.message@ == "method not found: "@
            + req.method@))),
{
    proof {
        reveal(jv);
        reveal_strlit("");
        reveal_strlit("initialize");
        reveal_strlit("ping");
        reveal_strlit("tools/list");
        reveal_strlit("tools/call");
        assert("initialize"@[0] != "ping"@[0] && "initialize"@[0] != "tools/list"@[0]);
        assert("initialize"@[0] != "tools/call"@[0] && "ping"@[0] != "tools/list"@[0]);
        assert("ping"@[0] != "tools/call"@[0] && "tools/list"@[6] != "tools/call"@[6]);
    }
    let id = match &req.id {
        None => {
            return McpRoute::Ignore;
        },
        Some(v) => Some(copy_json(v)),
    };
    let m = req.method.as_str();
    if crate::text::same_text(m, "initialize") {
        McpRoute::Reply(ok_result(id, initialize_result(server_version)))
    } else if crate::text::same_text(m, "ping") {
        McpRoute::Reply(ok_result(id, empty_object()))
    } else if crate::text::same_text(m, "tools/list") {
        McpRoute::ListTools { id }
    } else if crate::text::same_text(m, "tools/call") {
        let null = JsonValue::Null;
        let params: &JsonValue = match &req.params {
            Some(p) => p,
            None => &null,
        };
        let name = match get_member(params, "name") {
            Some(x) => match crate::json::as_text(x) {
                Some(t) => t,
                None => "",
            },
            None => "",
        };
        if chars_of(name).len() == 0 {
            McpRoute::Reply(err_result(id, -32602, "tools/call requires params.name"))
        } else {
            let arguments = match get_member(params, "arguments") {
                Some(a) => copy_json(a),
                None => empty_object(),
            };
            McpRoute::CallTool { id, name: owned(name), arguments }
        }
    } else {
        let msg = crate::text::join2("method not found: ", m);
        McpRoute::Reply(err_result(id, -32601, msg.as_str()))
    }
}

/// The JSON form of a tool as MCP lists it.
pub open spec fn listed_tool(name: Seq<char>, description: Seq<char>, schema: JsonView) -> JsonView {
    JsonView::Object(
        seq![
            ("description"@, JsonView::Str(description)),
            ("inputSchema"@, schema),
            ("name"@, JsonView::Str(name)),
        ],
    )
}

/// The answer to `tools/list`: the tools, or error -32000 with the reason.
pub fn tools_list_reply(id: Option<JsonValue>, outcome: Result<Vec<McpTool>, String>) -> (r: JsonRpcResponse)
    ensures
        opt_jv(r.id) == opt_jv(id),
        r.jsonrpc@ == "2.0"@,
        match outcome {
            Ok(ts) => r.error is None && opt_jv(r.result) == Some(
                JsonView::Object(
                    seq![
                        (
                            "tools"@,
                            JsonView::Array(
                                Seq::new(
                                    ts@.len(),
                                    |i: int| listed_tool(ts@[i].name@, ts@[i].description@, jv(ts@[i].input_schema)),
                                ),
                            ),
                        ),
                    ],
                ),
            ),
            Err(e) => r.result is None && (r.error matches Some(x) && x.code == -32000 && x.message@ == e@),
        },
{
    match outcome {
        Ok(ts) => {
            let ghost tv = ts@;
            let mut items: Vec<JsonValue> = Vec::new();
            let mut i: usize = 0;
            while i < ts.len()
                invariant
                    i <= ts@.len(),
                    tv == ts@,
                    items@.len() == i,
                    forall|k: int|
                        0 <= k < i ==> jv(#[trigger] items@[k]) == listed_tool(
                            ts@[k].name@,
                            ts@[k].description@,
                            jv(ts@[k].input_schema),
                        ),
                decreases ts@.len() - i,
            {
                let t = &ts[i];
                let mut f: Vec<(String, JsonValue)> = Vec::new();
                f.push((owned("description"), json_text(t.description.as_str())));
                f.push((owned("inputSchema"), copy_json(&t.input_schema)));
                f.push((owned("name"), json_text(t.name.as_str())));
                let ghost v = seq![
                    ("description"@, JsonView::Str(t.description@)),
                    ("inputSchema"@, jv(t.input_schema)),
                    ("name"@, JsonView::Str(t.name@)),
                ];
                items.push(object_of(f, Ghost(v)));
                i = i + 1;
            }
            let ghost iv = Seq::new(tv.len(), |i: int| listed_tool(tv[i].name@, tv[i].description@, jv(tv[i].input_schema)));
            let arr = crate::json::array_json(items, Ghost(iv));
            let mut f: Vec<(String, JsonValue)> = Vec::new();
            f.push((owned("tools"), arr));
            let ghost ov = seq![("tools"@, JsonView::Array(iv))];
            ok_result(id, object_of(f, Ghost(ov)))
        },
        Err(e) => err_result(id, -32000, e.as_str()),
    }
}

/// The content of a `tools/call` answer: one text item, and whether it reports an
/// error.
pub open spec fn call_content(text: Seq<char>, is_error: bool) -> JsonView {
    JsonView::Object(
        seq![
            (
                "content"@,
                JsonView::Array(seq![JsonView::Object(seq![("text"@, JsonView::Str(text)), ("type"@, JsonView::Str("text"@))])]),
            ),
            ("isError"@, JsonView::Bool(is_error)),
        ],
    )
}

/// The answer to `tools/call`: the Cell's reply rendered as `text`, or the reason
/// it failed, marked as an error.
pub fn tool_call_reply(id: Option<JsonValue>, outcome: Result<String, String>) -> (r: JsonRpcResponse)
    ensures
        opt_jv(r.id) == opt_jv(id),
        r.error is None,
        opt_jv(r.result) == Some(
            match outcome {
                Ok(t) => call_content(t@, false),
                Err(e) => call_content(e@, true),
            },
        ),
{
    let (text, is_error) = match outcome {
        Ok(t) => (t, false),
        Err(e) => (e, true),
    };
    let mut item: Vec<(String, JsonValue)> = Vec::new();
    item.push((owned("text"), json_text(text.as_str())));
    item.push((owned("type"), json_text("text")));
    let ghost iv = seq![("text"@, JsonView::Str(text@)), ("type"@, JsonView::Str("text"@))];
    let item = object_of(item, Ghost(iv));
    let mut content: Vec<JsonValue> = Vec::new();
    content.push(item);
    let ghost cv = seq![JsonView::Object(iv)];
    let content = crate::json::array_json(content, Ghost(cv));
    let mut f: Vec<(String, JsonValue)> = Vec::new();
    f.push((owned("content"), content));
    f.push((owned("isError"), json_bool(is_error)));
    let ghost v = seq![("content"@, JsonView::Array(cv)), ("isError"@, JsonView::Bool(is_error))];
    ok_result(id, object_of(f, Ghost(v)))
}

} // verus!
