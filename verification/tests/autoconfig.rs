use kcell_core::autoconfig::autoconfig_reply;
use kcell_core::subprocess::worker_reply;
use kcell_core::Envelope;
use kcell_core::{get_member, propose_from_snapshot, JsonNumber, JsonValue};

fn s(t: &str) -> JsonValue {
    JsonValue::Str(t.into())
}

fn n(v: u64) -> JsonValue {
    JsonValue::Number(JsonNumber::Unsigned(v))
}

fn obj(fields: Vec<(&str, JsonValue)>) -> JsonValue {
    JsonValue::Object(fields.into_iter().map(|(k, v)| (k.to_string(), v)).collect())
}

fn at<'a>(v: &'a JsonValue, key: &str) -> &'a JsonValue {
    get_member(v, key).expect("member")
}

fn cap(name: &str, version: &str) -> JsonValue {
    obj(vec![("name", s(name)), ("version", s(version))])
}

fn cell_json(name: &str, provides: Vec<JsonValue>, requires: Vec<JsonValue>) -> JsonValue {
    obj(vec![
        ("name", s(name)),
        ("provides", JsonValue::Array(provides)),
        ("requires", JsonValue::Array(requires)),
    ])
}

fn edge(consumer: &str, provider: &str, capability: &str, required: bool) -> JsonValue {
    obj(vec![
        ("capability", s(capability)),
        ("consumer", s(consumer)),
        ("provider", s(provider)),
        ("required", JsonValue::Bool(required)),
    ])
}

#[test]
fn autoconfig_prefers_exact_version_then_name() {
    let payload = obj(vec![
        ("generation", n(4)),
        (
            "cells",
            JsonValue::Array(vec![
                cell_json("web", vec![], vec![obj(vec![("name", s("llm")), ("version", s("2"))])]),
                cell_json("zeta", vec![cap("llm", "2")], vec![]),
                cell_json("alpha", vec![cap("llm", "1")], vec![]),
                cell_json("beta", vec![cap("llm", "2")], vec![]),
            ]),
        ),
        ("bindings", JsonValue::Array(vec![])),
    ]);
    let p = propose_from_snapshot(&payload).unwrap();
    assert_eq!(at(&p, "kind"), &s("BindingProposal"));
    assert_eq!(at(at(&p, "metadata"), "generation"), &n(5));
    assert_eq!(at(at(&p, "metadata"), "proposer"), &s("cell:auto-config-cell"));
    assert_eq!(at(at(&p, "spec"), "replaceGeneration"), &n(4));
    assert_eq!(at(at(&p, "spec"), "bindings"), &JsonValue::Array(vec![edge("web", "beta", "llm", true)]));
}

#[test]
fn autoconfig_keeps_live_bindings_and_skips_bound() {
    let payload = obj(vec![
        (
            "cells",
            JsonValue::Array(vec![
                cell_json(
                    "web",
                    vec![],
                    vec![
                        obj(vec![("name", s("llm"))]),
                        obj(vec![("name", s("echo")), ("optional", JsonValue::Bool(true))]),
                    ],
                ),
                cell_json("zeta", vec![cap("llm", "1")], vec![]),
                cell_json("echo-cell", vec![cap("echo", "1")], vec![]),
            ]),
        ),
        ("bindings", JsonValue::Array(vec![edge("web", "zeta", "llm", true)])),
    ]);
    let p = propose_from_snapshot(&payload).unwrap();
    assert_eq!(at(at(&p, "metadata"), "generation"), &n(1));
    assert_eq!(
        at(at(&p, "spec"), "bindings"),
        &JsonValue::Array(vec![edge("web", "zeta", "llm", true), edge("web", "echo-cell", "echo", false)])
    );
}

#[test]
fn autoconfig_refuses_empty_proposal() {
    let payload = obj(vec![(
        "cells",
        JsonValue::Array(vec![cell_json("web", vec![cap("echo", "1")], vec![obj(vec![("name", s("echo"))])])]),
    )]);
    assert_eq!(
        propose_from_snapshot(&payload).unwrap_err(),
        "auto-config produced empty proposal (no bindings)"
    );
}

#[test]
fn autoconfig_worker_answers_binding_propose() {
    let payload = obj(vec![(
        "cells",
        JsonValue::Array(vec![
            cell_json("web", vec![], vec![obj(vec![("name", s("echo"))])]),
            cell_json("echo-cell", vec![cap("echo", "1")], vec![]),
        ]),
    )]);
    let req = Envelope::request("binding-propose", payload);
    let reply = autoconfig_reply(&req).unwrap();
    assert_eq!(reply.correlation_id, req.correlation_id);
    let proposal = at(&reply.payload, "proposal");
    assert_eq!(at(at(proposal, "spec"), "bindings"), &JsonValue::Array(vec![edge("web", "echo-cell", "echo", true)]));

    let other = Envelope::request("echo", obj(vec![]));
    assert_eq!(
        autoconfig_reply(&other).unwrap_err(),
        "worker-autoconfig expects capability binding-propose, got echo"
    );
}

#[test]
fn subprocess_worker_echoes() {
    let req = Envelope::request("echo-sub", obj(vec![("hello", s("sub"))]));
    let reply = worker_reply(&req).unwrap();
    assert_eq!(at(&reply.payload, "runtime"), &s("subprocess"));
    assert_eq!(at(&reply.payload, "echo"), &obj(vec![("hello", s("sub"))]));
    let mut bad = Envelope::request("echo-sub", obj(vec![]));
    bad.schema = "other".into();
    assert!(worker_reply(&bad).unwrap_err().starts_with("validation: "));
}
