use kcell_core::watch::{apply_watch_actions, ControlClient};
use kcell_core::ControlRequest;
use std::cell::RefCell;
use kcell_core::control::ControlResponse;
use kcell_core::watch::{watch_step, WatchAction, WatchNext};
use kcell_core::manifest::aiman::{AIManMetadata, AIManPolicy, AIManSpec, CellRef, FailureStrategy};
use kcell_core::package::{hex_text, sha256_hex};
use kcell_core::subprocess::{settle, ProcessOutcome};
use kcell_core::text::split_white;
use kcell_core::{
    apply_proposal, default_stem_dir, new_cell_request, parse_runtime, propose_auto_bindings, specialize_request,
    startup_order, AIManManifest, BindingApplyResult, BindingProposal, BindingSet, Capability, CellManifest,
    CellMetadata, CellSpec, CellState, Communication, Envelope, Error, Host, JsonValue, Lifecycle, LocalRegistry,
    Permissions, PolicyGate, ProposedBinding, Requirement, RestartPolicy, RuntimeKind, RuntimeSpec,
};
use kcell_core::manifest::binding_proposal::{ProposalMetadata, ProposalSpec};

fn cell(name: &str, provides: &[&str], requires: &[&str]) -> CellManifest {
    CellManifest {
        api_version: "kcell.dev/v1".into(),
        kind: "Cell".into(),
        metadata: CellMetadata { name: name.into(), version: "0.1.0".into(), description: None },
        spec: CellSpec {
            runtime: RuntimeSpec { kind: RuntimeKind::Inprocess, entrypoint: Some("main".into()), artifact: None },
            provides: provides
                .iter()
                .map(|n| Capability { name: (*n).into(), version: "1".into(), contract: None })
                .collect(),
            requires: requires
                .iter()
                .map(|n| Requirement { name: (*n).into(), version: "1".into(), optional: false, contract: None })
                .collect(),
            communication: Communication { active: true, passive: true },
            ports: vec![],
            resources: Default::default(),
            permissions: Permissions::default(),
            health: Default::default(),
            restart_policy: RestartPolicy::OnFailure,
        },
    }
}

fn proposal(generation: u64, edges: &[(&str, &str, &str)]) -> BindingProposal {
    BindingProposal {
        api_version: "kcell.dev/v1".into(),
        kind: "BindingProposal".into(),
        metadata: ProposalMetadata { proposer: "test".into(), generation, reason: None },
        spec: ProposalSpec {
            bindings: edges
                .iter()
                .map(|(c, p, cap)| ProposedBinding {
                    consumer: (*c).into(),
                    provider: (*p).into(),
                    capability: (*cap).into(),
                    required: true,
                })
                .collect(),
            replace_generation: None,
        },
    }
}

fn aiman(cells: Vec<(&str, Vec<&str>)>) -> AIManManifest {
    AIManManifest {
        api_version: "kcell.dev/v1".into(),
        kind: "AIMan".into(),
        metadata: AIManMetadata { name: "team".into(), description: None },
        spec: AIManSpec {
            cells: cells
                .into_iter()
                .map(|(n, deps)| CellRef {
                    name: n.into(),
                    path: format!("cells/{n}"),
                    optional: false,
                    depends_on: deps.into_iter().map(|d| d.to_string()).collect(),
                })
                .collect(),
            bindings: vec![],
            policy: AIManPolicy { default_allow: false, failure_strategy: FailureStrategy::ContinueOptional },
        },
    }
}

#[test]
fn stopped_cells_stay_stopped() {
    let mut lc = Lifecycle::new("echo".into());
    lc.activate().unwrap();
    lc.drain_and_stop().unwrap();
    for to in [CellState::Active, CellState::Starting, CellState::Discovered, CellState::Failed] {
        assert!(lc.transition(to, None).is_err());
    }
    assert_eq!(lc.state(), CellState::Stopped);
    assert_eq!(lc.events().last().unwrap().to, CellState::Stopped);
}

#[test]
fn startup_order_puts_dependencies_first() {
    let order = startup_order(&aiman(vec![("web", vec!["brain"]), ("brain", vec![]), ("audit", vec![])])).unwrap();
    let pos = |n: &str| order.iter().position(|x| x == n).unwrap();
    assert_eq!(order.len(), 3);
    assert!(pos("brain") < pos("web"));
}

#[test]
fn startup_order_refuses_cycles_and_unknowns() {
    let err = startup_order(&aiman(vec![("a", vec!["b"]), ("b", vec!["a"])])).unwrap_err();
    assert_eq!(err.message(), "validation: ai-man cell dependsOn graph has a cycle");
    assert!(matches!(startup_order(&aiman(vec![("a", vec!["ghost"])])), Err(Error::Validation(_))));
}

#[test]
fn digests_are_sixty_four_hex_digits() {
    let d = sha256_hex(b"abc");
    assert_eq!(d, "ba7816bf8f01cfea414140de5dae2223b00361a396177a9cb410ff61f20015ad");
    assert_eq!(d.len(), 64);
    assert_eq!(hex_text(&[0, 15, 255]), "000fff");
}

#[test]
fn words_split_on_white_space() {
    assert_eq!(split_white("  GET  /x \t HTTP/1.1\n"), vec!["GET", "/x", "HTTP/1.1"]);
    assert!(split_white(" \t ").is_empty());
}

#[test]
fn grants_cover_and_revokes_remove() {
    let mut gate = PolicyGate::default();
    let mut needs = cell("tool-user", &[], &["x"]);
    needs.spec.permissions.network = vec!["https://api.example".into()];
    match gate.admit_cell(&needs) {
        Err(Error::PolicyDenied(m)) => assert!(m.contains("https://api.example"), "{m}"),
        other => panic!("expected a denial, got {other:?}"),
    }
    gate.grant_network("https://api.example".into());
    assert!(gate.admit_cell(&needs).unwrap().admitted);
    gate.revoke_network("https://api.example");
    assert!(gate.admit_cell(&needs).is_err());
}

#[test]
fn auto_bind_keeps_live_edges() {
    let mut host = Host::new();
    host.register_cell("1".into(), cell("web", &[], &["llm", "echo"])).unwrap();
    host.register_cell("2".into(), cell("brain", &["llm"], &[])).unwrap();
    host.register_cell("3".into(), cell("echo-cell", &["echo"], &[])).unwrap();
    for n in ["web", "brain", "echo-cell"] {
        host.activate_cell(n).unwrap();
    }
    host.apply_binding_proposal(proposal(1, &[("web", "echo-cell", "echo")])).unwrap();
    let p = propose_auto_bindings(host.registry(), host.bindings(), false);
    assert_eq!(p.spec.bindings.len(), 2);
    assert_eq!(p.spec.bindings[0].provider, "echo-cell");
    assert_eq!(p.spec.bindings[1].provider, "brain");
}

#[test]
fn proposals_to_idle_providers_are_rejected() {
    let mut reg = LocalRegistry::new();
    reg.register("1".into(), cell("web", &[], &["llm"])).unwrap();
    reg.register("2".into(), cell("brain", &["llm"], &[])).unwrap();
    reg.by_name_mut("web").unwrap().lifecycle.activate().unwrap();
    let outcome = apply_proposal(&reg, &BindingSet::default(), proposal(1, &[("web", "brain", "llm")]));
    match outcome {
        Err(Error::Binding(_)) => {},
        Ok((set, BindingApplyResult::Rejected { .. })) => assert!(set.bindings().is_empty()),
        Ok((_, applied)) => panic!("bound to an idle provider: {applied:?}"),
        Err(e) => panic!("unexpected error {}", e.message()),
    }
}

#[test]
fn invoke_reports_unknown_routes() {
    let mut host = Host::new();
    host.register_cell("1".into(), cell("web", &[], &["echo"])).unwrap();
    host.activate_cell("web").unwrap();
    let err = host.invoke("web", "echo", Envelope::request("echo", JsonValue::Null)).unwrap_err();
    assert!(matches!(err, Error::Binding(_) | Error::NotFound(_)), "{}", err.message());
}

#[test]
fn reply_keeps_correlation_id() {
    let req = Envelope::request("echo", JsonValue::Null);
    let rep = req.reply_to(JsonValue::Bool(true));
    assert_eq!(rep.correlation_id, req.correlation_id);
    assert_eq!(rep.capability, "echo");
    assert!(req.correlation_id.starts_with("corr-"));
}

#[test]
fn subprocess_outcomes_settle_to_errors() {
    match settle("echo-sub", "bin/echo", 50, ProcessOutcome::TimedOut) {
        Err(Error::Timeout(m)) => assert_eq!(m, "subprocess `echo-sub` exceeded 50ms"),
        other => panic!("{other:?}"),
    }
    assert!(matches!(settle("echo-sub", "bin/echo", 50, ProcessOutcome::SpawnFailed("no such file".into())), Err(Error::Io(_))));
    let done = ProcessOutcome::Exited { success: true, status: "exit status: 0".into(), stdout: "  {\"a\":1}\n".into() };
    assert_eq!(settle("echo-sub", "bin/echo", 50, done).unwrap(), "{\"a\":1}");
    let failed = ProcessOutcome::Exited { success: false, status: "exit status: 3".into(), stdout: String::new() };
    match settle("echo-sub", "bin/echo", 50, failed) {
        Err(Error::Validation(m)) => assert_eq!(m, "subprocess `echo-sub` exited with exit status: 3"),
        other => panic!("{other:?}"),
    }
}

#[test]
fn runtime_words_and_requests() {
    assert_eq!(parse_runtime(" WASI "), Ok(RuntimeKind::Wasi));
    assert_eq!(parse_runtime("Lambda").unwrap_err(), "unknown runtime `lambda` (inprocess|subprocess|wasi)");
    let req = new_cell_request("my-cell", None, "stems/stem-cell".into()).unwrap();
    assert_eq!(req.out_dir, "my-cell");
    assert_eq!(req.provides, vec![("my-cell".to_string(), "1".to_string())]);
    assert_eq!(req.active, Some(false));
    assert_eq!(req.passive, Some(true));
    let bad = specialize_request(
        "x",
        None,
        "stem".into(),
        &vec!["echo".into()],
        &vec![":1".into()],
        "inprocess",
        None,
        Some("   ".into()),
        "0.1.0",
        None,
        false,
        false,
        false,
    );
    assert!(bad.unwrap_err().starts_with("validation: invalid capability token"));
    let ok = specialize_request(
        "x",
        Some("out".into()),
        "stem".into(),
        &vec![],
        &vec!["llm:2".into()],
        "subprocess",
        None,
        Some("  app.wasm ".into()),
        "0.1.0",
        None,
        true,
        false,
        true,
    )
    .unwrap();
    assert!(ok.provides.is_empty());
    assert_eq!(ok.requires, vec![("llm".to_string(), "2".to_string())]);
    assert_eq!(ok.artifact.as_deref(), Some("app.wasm"));
    assert_eq!(ok.active, Some(true));
    assert_eq!(ok.out_dir, "out");
}

#[test]
fn stem_dir_joins_under_cwd() {
    assert_eq!(default_stem_dir("/work"), "/work/templates/stem-cell");
}

#[test]
fn ready_cells_start_in_name_order() {
    let order = startup_order(&aiman(vec![("web", vec!["brain"]), ("brain", vec![]), ("alpha", vec![])])).unwrap();
    assert_eq!(order, vec!["alpha".to_string(), "brain".to_string(), "web".to_string()]);
    let order = startup_order(&aiman(vec![
        ("z", vec![]),
        ("b", vec!["z"]),
        ("a", vec!["z"]),
        ("c", vec![]),
        ("d", vec!["c"]),
    ]))
    .unwrap();
    assert_eq!(order, vec!["c", "z", "d", "a", "b"].into_iter().map(String::from).collect::<Vec<_>>());
}

#[test]
fn watch_steps_stop_at_the_first_failure() {
    let actions = vec![
        WatchAction::Load { dir: "cells/a".into(), replace: false },
        WatchAction::Unload { name: "b".into() },
    ];
    let ok = |id: &str| ControlResponse {
        schema: "kcell.control.v1".into(),
        id: id.into(),
        ok: true,
        error: None,
        result: kcell_core::ControlResult::Nothing,
    };
    match watch_step(&actions, 0, Ok(ok("1"))) {
        WatchNext::Send(q) => {
            assert_eq!(q.op, "unload");
            assert_eq!(q.cell.as_deref(), Some("b"));
        }
        WatchNext::Finish(_) => panic!("expected the next request"),
    }
    assert!(matches!(watch_step(&actions, 1, Ok(ok("2"))), WatchNext::Finish(Ok(()))));
    let mut bad = ok("3");
    bad.ok = false;
    bad.error = Some("boom".into());
    assert!(matches!(watch_step(&actions, 0, Ok(bad)), WatchNext::Finish(Err(kcell_core::Error::Validation(ref m))) if m == "boom"));
    assert!(matches!(
        watch_step(&actions, 0, Err(kcell_core::Error::Io("gone".into()))),
        WatchNext::Finish(Err(kcell_core::Error::Io(_)))
    ));
}

#[test]
fn removed_cell_registers_again() {
    let mut reg = kcell_core::LocalRegistry::new();
    reg.register("a@1".into(), cell("a", &[], &[])).unwrap();
    reg.register("b@1".into(), cell("b", &[], &[])).unwrap();
    let rec = reg.remove_by_name("a").unwrap();
    assert!(reg.by_name("a").is_none());
    reg.register(rec.instance_id.clone(), rec.manifest.clone()).unwrap();
    assert_eq!(reg.by_name("a").unwrap().state(), kcell_core::CellState::Discovered);
}

#[test]
fn rings_keep_the_newest_numbered_in_order() {
    let mut log = kcell_core::AuditLog::with_capacity(0);
    log.record(kcell_core::AuditKind::Registered, None, "1".into());
    log.record(kcell_core::AuditKind::Registered, None, "2".into());
    assert_eq!(log.len(), 1);
    assert_eq!(log.events().back().unwrap().seq, 2);
    log.clear();
    log.record(kcell_core::AuditKind::Registered, None, "3".into());
    assert_eq!(log.len(), 1);
    assert_eq!(log.events().back().unwrap().seq, 3);

    let mut bus = kcell_core::EventBus::with_capacity(2);
    for k in 1..=3u64 {
        assert_eq!(bus.publish(kcell_core::BusEvent::BindingChanged { generation: k, count: 0 }), k);
    }
    let snap = bus.snapshot();
    assert_eq!(snap.iter().map(|(n, _)| *n).collect::<Vec<_>>(), vec![2, 3]);
}

/// Answers requests from a list, remembering what was sent.
struct ScriptedClient {
    answers: RefCell<Vec<kcell_core::Result<ControlResponse>>>,
    sent: RefCell<Vec<ControlRequest>>,
}

impl ControlClient for ScriptedClient {
    fn call(&self, req: ControlRequest) -> kcell_core::Result<ControlResponse> {
        self.sent.borrow_mut().push(req);
        self.answers.borrow_mut().remove(0)
    }
}

fn answer(ok: bool) -> kcell_core::Result<ControlResponse> {
    Ok(ControlResponse {
        schema: "kcell.control.v1".into(),
        id: "x".into(),
        ok,
        error: if ok { None } else { Some("nope".into()) },
        result: kcell_core::ControlResult::Nothing,
    })
}

#[test]
fn watch_actions_are_sent_in_order_until_one_fails() {
    let actions = vec![
        WatchAction::Load { dir: "cells/a".into(), replace: false },
        WatchAction::Unload { name: "b".into() },
        WatchAction::Load { dir: "cells/c".into(), replace: true },
    ];
    let client = ScriptedClient { answers: RefCell::new(vec![answer(true), answer(false), answer(true)]), sent: RefCell::new(vec![]) };
    let r = apply_watch_actions(&client, &actions);
    assert!(matches!(r, Err(Error::Validation(ref m)) if m == "nope"));
    let sent = client.sent.borrow();
    assert_eq!(sent.len(), 2);
    assert_eq!((sent[0].op.as_str(), sent[0].path.as_deref()), ("load", Some("cells/a")));
    assert_eq!((sent[1].op.as_str(), sent[1].cell.as_deref()), ("unload", Some("b")));

    let client = ScriptedClient { answers: RefCell::new(vec![answer(true), answer(true), answer(true)]), sent: RefCell::new(vec![]) };
    assert!(apply_watch_actions(&client, &actions).is_ok());
    assert_eq!(client.sent.borrow().len(), 3);
}

#[test]
fn empty_aiman_activates_nothing() {
    let mut host = Host::new();
    let v = host.activate_aiman(&aiman(vec![]), ".").unwrap();
    assert!(v.is_empty());
    let files = kcell_core::host::aiman_cell_files(&aiman(vec![("web", vec!["brain"]), ("brain", vec![])]), "/srv").unwrap();
    let names: Vec<(String, String)> = files.iter().map(|f| (f.name.clone(), f.yaml.clone())).collect();
    assert_eq!(
        names,
        vec![
            ("brain".to_string(), "/srv/cells/brain/cell.yaml".to_string()),
            ("web".to_string(), "/srv/cells/web/cell.yaml".to_string())
        ]
    );
}
