use kcell_core::{
    apply_proposal, default_state_path, diff_watch, handle_control, parse_cap_token, propose_auto_bindings, AuditKind,
    AuditLog, BindingApplyResult, BindingProposal, BindingSet, BusEvent, Capability, CellManifest, CellMetadata, CellSpec,
    CellState, Communication, ControlRequest, ControlResult, Envelope, EventBus, Host, JsonNumber, JsonValue, Lifecycle,
    LocalRegistry, Permissions, ProposedBinding, Requirement, RestartPolicy, RuntimeKind, RuntimeSpec, WatchAction,
    WatchedCell,
};
use kcell_core::manifest::binding_proposal::{ProposalMetadata, ProposalSpec};
use kcell_core::package::sha256_hex;
use kcell_core::{HostEnv, HostStateFile};

fn cell(name: &str, provides: &[&str], requires: &[&str]) -> CellManifest {
    CellManifest {
        api_version: "kcell.dev/v1".into(),
        kind: "Cell".into(),
        metadata: CellMetadata { name: name.into(), version: "0.1.0".into(), description: None },
        spec: CellSpec {
            runtime: RuntimeSpec { kind: RuntimeKind::Inprocess, entrypoint: Some("main".into()), artifact: None },
            provides: provides
                .iter()
                .map(|n| Capability { name: (*n).into(), version: "1".into(), contract: None })
                .collect(),
            requires: requires
                .iter()
                .map(|n| Requirement { name: (*n).into(), version: "1".into(), optional: false, contract: None })
                .collect(),
            communication: Communication { active: true, passive: true },
            ports: vec![],
            resources: Default::default(),
            permissions: Permissions::default(),
            health: Default::default(),
            restart_policy: RestartPolicy::OnFailure,
        },
    }
}

fn proposal(proposer: &str, generation: u64, edges: &[(&str, &str, &str)]) -> BindingProposal {
    BindingProposal {
        api_version: "kcell.dev/v1".into(),
        kind: "BindingProposal".into(),
        metadata: ProposalMetadata { proposer: proposer.into(), generation, reason: None },
        spec: ProposalSpec {
            bindings: edges
                .iter()
                .map(|(c, p, cap)| ProposedBinding {
                    consumer: (*c).into(),
                    provider: (*p).into(),
                    capability: (*cap).into(),
                    required: true,
                })
                .collect(),
            replace_generation: None,
        },
    }
}

fn member<'a>(v: &'a JsonValue, key: &str) -> &'a JsonValue {
    kcell_core::get_member(v, key).expect("member")
}

fn obj(fields: Vec<(&str, JsonValue)>) -> JsonValue {
    JsonValue::Object(fields.into_iter().map(|(k, v)| (k.to_string(), v)).collect())
}

#[test]
fn activates_to_active() {
    let mut lc = Lifecycle::new("echo".into());
    lc.activate().unwrap();
    assert_eq!(lc.state(), CellState::Active);
    assert!(lc.state().can_route());
}

#[test]
fn drain_stop() {
    let mut lc = Lifecycle::new("echo".into());
    lc.activate().unwrap();
    lc.drain_and_stop().unwrap();
    assert_eq!(lc.state(), CellState::Stopped);
}

#[test]
fn rejects_illegal_jump() {
    let mut lc = Lifecycle::new("echo".into());
    assert!(lc.transition(CellState::Active, None).is_err());
}

#[test]
fn ring_drops_oldest() {
    let mut log = AuditLog::with_capacity(2);
    log.record(AuditKind::Registered, Some("a".into()), "1".into());
    log.record(AuditKind::Activated, Some("b".into()), "2".into());
    log.record(AuditKind::Invoked, Some("c".into()), "3".into());
    assert_eq!(log.len(), 2);
    assert_eq!(log.events().front().unwrap().cell.as_deref(), Some("b"));
}

#[test]
fn since_filters() {
    let mut bus = EventBus::with_capacity(8);
    let a = bus.publish(BusEvent::BindingChanged { generation: 1, count: 1 });
    let _b = bus.publish(BusEvent::BindingChanged { generation: 2, count: 2 });
    assert_eq!(bus.since(a).len(), 1);
}

#[test]
fn parse_cap_tokens() {
    assert_eq!(parse_cap_token("echo").unwrap(), ("echo".into(), "1".into()));
    assert_eq!(parse_cap_token("echo:2").unwrap(), ("echo".into(), "2".into()));
    assert!(parse_cap_token("").is_err());
    assert!(parse_cap_token(":1").is_err());
}

#[test]
fn default_path_beside_socket() {
    let p = default_state_path(".kcell/kcell.sock");
    assert_eq!(p, ".kcell/host-state.json");
}

#[test]
fn diff_detects_add_change_remove() {
    let prev = vec![
        WatchedCell { dir: "/c/a".into(), name: "a".into(), digest: "sha256:1".into() },
        WatchedCell { dir: "/c/b".into(), name: "b".into(), digest: "sha256:2".into() },
    ];
    let next = vec![
        WatchedCell { dir: "/c/a".into(), name: "a".into(), digest: "sha256:1-changed".into() },
        WatchedCell { dir: "/c/c".into(), name: "c".into(), digest: "sha256:3".into() },
    ];
    let actions = diff_watch(&prev, &next);
    assert!(actions.iter().any(|a| matches!(a, WatchAction::Load { replace: true, .. })));
    assert!(actions.iter().any(|a| matches!(a, WatchAction::Load { replace: false, .. })));
    assert!(actions.iter().any(|a| matches!(a, WatchAction::Unload { name } if name == "b")));
}

#[test]
fn digest_stable() {
    assert_eq!(sha256_hex(b"abc"), sha256_hex(b"abc"));
    assert_ne!(sha256_hex(b"abc"), sha256_hex(b"abd"));
}

#[test]
fn fills_missing_require() {
    let mut host = Host::new();
    host.register_cell("1".into(), cell("web", &[], &["llm"])).unwrap();
    host.register_cell("2".into(), cell("brain", &["llm"], &[])).unwrap();
    host.activate_cell("web").unwrap();
    host.activate_cell("brain").unwrap();
    let proposal = propose_auto_bindings(host.registry(), host.bindings(), false);
    assert_eq!(proposal.spec.bindings.len(), 1);
    assert_eq!(proposal.spec.bindings[0].consumer, "web");
    assert_eq!(proposal.spec.bindings[0].provider, "brain");
    assert_eq!(proposal.spec.bindings[0].capability, "llm");
}

#[test]
fn apply_binding_when_ready() {
    let mut reg = LocalRegistry::new();
    reg.register("1".into(), cell("web", &[], &["llm"])).unwrap();
    reg.register("2".into(), cell("brain", &["llm"], &[])).unwrap();
    for name in ["web", "brain"] {
        let r = reg.by_name_mut(name).unwrap();
        r.lifecycle.activate().unwrap();
        assert_eq!(r.state(), CellState::Active);
    }
    let p = proposal("auto-config", 1, &[("web", "brain", "llm")]);
    let (set, result) = apply_proposal(&reg, &BindingSet::default(), p).unwrap();
    assert!(matches!(result, BindingApplyResult::Applied { generation: 1 }));
    assert_eq!(set.bindings().len(), 1);
}

#[test]
fn handle_ping_status() {
    let mut host = Host::new();
    host.register_cell("1".into(), cell("echo-cell", &["echo"], &[])).unwrap();
    host.activate_cell("echo-cell").unwrap();
    let (pong, _) = handle_control(&mut host, ControlRequest::ping()).unwrap();
    assert!(pong.ok);
    let (st, _) = handle_control(&mut host, ControlRequest::status()).unwrap();
    assert!(st.ok);
    match st.result {
        ControlResult::Status { cells, .. } => assert_eq!(cells.len(), 1),
        other => panic!("unexpected result {other:?}"),
    }
}

#[test]
fn wasi_activate_gated_or_needs_artifact() {
    let mut host = Host::new();
    let mut c = cell("wasi-echo", &["echo"], &[]);
    c.spec.runtime.kind = RuntimeKind::Wasi;
    c.spec.runtime.artifact = Some("missing.wasm".into());
    host.register_cell("1".into(), c).unwrap();
    let err = host.activate_cell("wasi-echo").unwrap_err().message();
    assert!(err.contains("features wasi") || err.contains("artifact not found"), "{err}");
}

#[test]
fn invoke_via_binding() {
    let mut host = Host::new();
    host.register_cell("1".into(), cell("web", &[], &["echo"])).unwrap();
    host.register_cell("2".into(), cell("echo-cell", &["echo"], &[])).unwrap();
    host.activate_cell("echo-cell").unwrap();
    host.activate_cell("web").unwrap();
    host.apply_binding_proposal(proposal("test", 1, &[("web", "echo-cell", "echo")])).unwrap();
    let payload = obj(vec![("n", JsonValue::Number(JsonNumber::Unsigned(1)))]);
    let reply = host.invoke("web", "echo", Envelope::request("echo", payload)).unwrap();
    assert_eq!(member(&reply.payload, "cell"), &JsonValue::Str("echo-cell".into()));
    assert_eq!(member(member(&reply.payload, "echo"), "n"), &JsonValue::Number(JsonNumber::Unsigned(1)));
}

#[test]
fn unload_clears_executor_and_bindings() {
    let mut host = Host::new();
    host.register_cell("1".into(), cell("web", &[], &["echo"])).unwrap();
    host.register_cell("2".into(), cell("echo-cell", &["echo"], &[])).unwrap();
    host.activate_cell("echo-cell").unwrap();
    host.activate_cell("web").unwrap();
    assert_eq!(host.executor_mut().len(), 2);
    host.apply_binding_proposal(proposal("test", 1, &[("web", "echo-cell", "echo")])).unwrap();
    assert_eq!(host.bindings().bindings().len(), 1);
    host.unload_cell("echo-cell").unwrap();
    assert_eq!(host.executor_mut().len(), 1);
    assert!(host.bindings().bindings().is_empty());
    assert!(host.registry().by_name("echo-cell").is_none());
}

#[test]
fn policy_grants_persist_roundtrip() {
    let mut host = Host::new();
    host.grant_many(vec!["bin/tool".into()], vec!["https://api.example".into()], vec![]);
    let exported = host.export_state();
    assert!(exported.policy.granted_process.iter().any(|g| g == "bin/tool"));
    assert!(exported.policy.granted_network.iter().any(|g| g == "https://api.example"));

    let mut host2 = Host::new();
    host2.grant_many(vec!["local-cli".into()], vec![], vec![]);
    host2.restore_state(&exported, vec![]).unwrap();
    assert!(host2.policy().granted_process.iter().any(|g| g == "bin/tool"));
    assert!(host2.policy().granted_process.iter().any(|g| g == "local-cli"));
    assert!(host2.policy().granted_network.iter().any(|g| g == "https://api.example"));

    let mut needs = cell("needs-grants", &[], &[]);
    needs.spec.permissions.network = vec!["https://api.example".into()];
    needs.spec.permissions.process = vec!["bin/tool".into()];
    let decision = host2.policy().admit_cell(&needs).unwrap();
    assert!(decision.admitted);

    let bare = Host::new();
    assert!(bare.policy().admit_cell(&needs).is_err());
}

/// Cell directories held in memory: `cells/echo-cell` and `cells/echo-sub-cell`.
struct MemoryCells;

impl HostEnv for MemoryCells {
    fn load_cell(&self, yaml_path: &str) -> kcell_core::Result<CellManifest> {
        match yaml_path {
            "cells/echo-cell/cell.yaml" => Ok(cell("echo-cell", &["echo"], &[])),
            "cells/echo-sub-cell/cell.yaml" => Ok(cell("echo-sub-cell", &["echo-sub"], &[])),
            other => Err(kcell_core::Error::Io(format!("no such file: {other}"))),
        }
    }

    fn load_proposal(&self, path: &str) -> kcell_core::Result<BindingProposal> {
        Err(kcell_core::Error::Io(format!("no such file: {path}")))
    }

    fn save_state(&self, _path: &str, _state: &HostStateFile) -> kcell_core::Result<()> {
        Ok(())
    }
}

#[test]
fn hot_load_cell_dir() {
    let mut host = Host::new();
    host.set_env(Box::new(MemoryCells));
    let (name, _) = host.load_cell_dir("cells/echo-cell", false).unwrap();
    assert_eq!(name, "echo-cell");
    assert_eq!(host.discover(Some("echo")).len(), 1);

    let (resp, _) = handle_control(&mut host, ControlRequest::load("cells/echo-sub-cell".into(), false)).unwrap();
    assert!(resp.ok, "{resp:?}");
    assert!(host.discover(Some("echo-sub")).len() >= 1);

    let (resp, _) = handle_control(&mut host, ControlRequest::unload("echo-sub-cell".into())).unwrap();
    assert!(resp.ok);
    assert!(host.discover(Some("echo-sub")).is_empty());
}

#[test]
fn state_export_restore_roundtrip() {
    let mut host = Host::new();
    host.set_env(Box::new(MemoryCells));
    host.register_cell("1".into(), cell("web", &[], &["echo"])).unwrap();
    host.activate_cell("web").unwrap();
    host.load_cell_dir("cells/echo-cell", false).unwrap();
    host.apply_binding_proposal(proposal("test", 1, &[("web", "echo-cell", "echo")])).unwrap();
    let saved = host.export_state();
    assert_eq!(saved.cell_dirs, vec![("echo-cell".to_string(), "cells/echo-cell".to_string())]);

    let mut host2 = Host::new();
    host2.set_env(Box::new(MemoryCells));
    host2.register_cell("1".into(), cell("web", &[], &["echo"])).unwrap();
    host2.activate_cell("web").unwrap();
    let found = saved
        .cell_dirs
        .iter()
        .map(|(_, d)| Some(MemoryCells.load_cell(&format!("{d}/cell.yaml"))))
        .collect();
    let loaded = host2.restore_state(&saved, found).unwrap();
    assert!(loaded >= 1);
    assert!(host2.registry().by_name("echo-cell").is_some());
    assert!(host2.bindings().provider_for("web", "echo").is_some());
}

#[test]
fn exported_dirs_come_by_name() {
    let mut host = Host::new();
    host.set_env(Box::new(MemoryCells));
    host.load_cell_dir("cells/echo-sub-cell", false).unwrap();
    host.load_cell_dir("cells/echo-cell", false).unwrap();
    let names: Vec<String> = host.export_state().cell_dirs.into_iter().map(|(n, _)| n).collect();
    assert_eq!(names, vec!["echo-cell".to_string(), "echo-sub-cell".to_string()]);
    let again = host.load_cell_dir("cells/echo-cell", false).unwrap_err();
    assert!(again.message().contains("already loaded"), "{}", again.message());
}

#[test]
fn file_reads_need_an_environment() {
    let mut host = Host::new();
    let err = host.load_cell_dir("cells/echo-cell", false).unwrap_err();
    assert!(matches!(err, kcell_core::Error::Io(ref m) if m == "no host environment to read files"));
    let err = host.register_cell_path("echo@1".into(), "cells/echo-cell/cell.yaml").unwrap_err();
    assert!(matches!(err, kcell_core::Error::Io(ref m) if m == "no host environment to read files"));
    let err = host.apply_binding_proposal_path("p.yaml").unwrap_err();
    assert!(matches!(err, kcell_core::Error::Io(ref m) if m == "no host environment to read files"));
    assert_eq!(host.registry().len(), 0);

    host.set_persist("state.json".into(), true);
    let err = host.save_state().unwrap_err();
    assert!(matches!(err, kcell_core::Error::Io(ref m) if m == "no host environment to write state"));
    host.set_env(Box::new(MemoryCells));
    assert!(host.save_state().is_ok());
}

#[test]
fn register_from_path_remembers_directory() {
    let mut host = Host::new();
    host.set_env(Box::new(MemoryCells));
    host.register_cell_path("echo-cell@0.1.0".into(), "cells/echo-cell/cell.yaml").unwrap();
    assert!(host.registry().by_name("echo-cell").is_some());
    let saved = host.export_state();
    assert_eq!(saved.cell_dirs, vec![("echo-cell".to_string(), "cells/echo-cell".to_string())]);
}

#[test]
fn load_manifest_replaces_or_refuses() {
    let mut host = Host::new();
    let (name, state) = host.load_cell_manifest("dir/a", false, cell("a", &["x"], &[])).unwrap();
    assert_eq!((name.as_str(), state), ("a", CellState::Active));
    let err = host.load_cell_manifest("dir/a", false, cell("a", &["x"], &[])).unwrap_err();
    assert!(matches!(err, kcell_core::Error::Validation(ref m)
        if m == "cell `a` already loaded (pass replace=true to reload)"));
    let (name, state) = host.load_cell_manifest("dir/a2", true, cell("a", &["x"], &[])).unwrap();
    assert_eq!((name.as_str(), state), ("a", CellState::Active));
    assert_eq!(host.registry().len(), 1);

    let mut wasi = cell("w", &[], &[]);
    wasi.spec.runtime.kind = RuntimeKind::Wasi;
    assert!(host.load_cell_manifest("dir/w", false, wasi).is_err());
}

#[test]
fn invoke_without_binding_answers_the_error() {
    let mut host = Host::new();
    let req = ControlRequest::invoke("web".into(), "echo".into(), JsonValue::Null);
    let id = req.id.clone();
    let (resp, stop) = handle_control(&mut host, req).unwrap();
    assert!(!stop);
    assert!(!resp.ok);
    assert_eq!(resp.id, id);
    assert_eq!(resp.error.as_deref(), Some("binding: no binding for consumer `web` capability `echo`"));
    assert!(matches!(resp.result, ControlResult::Nothing));
}

#[test]
fn activation_announces_state_then_capabilities() {
    let mut host = Host::new();
    host.register_cell("1".into(), cell("echo-cell", &["echo", "ping"], &[])).unwrap();
    assert_eq!(host.activate_cell("echo-cell").unwrap(), CellState::Active);
    let evs = host.bus().snapshot();
    assert_eq!(evs.len(), 3);
    assert!(matches!(&evs[0].1, BusEvent::CellState { cell, state } if cell == "echo-cell" && *state == CellState::Active));
    assert!(matches!(&evs[1].1, BusEvent::CapabilityAvailable { capability, .. } if capability == "echo"));
    assert!(matches!(&evs[2].1, BusEvent::CapabilityAvailable { capability, .. } if capability == "ping"));
    assert_eq!(evs[1].0, evs[0].0 + 1);
}

#[test]
fn refused_activation_is_audited_and_silent_on_the_bus() {
    let mut host = Host::new();
    let mut c = cell("net-cell", &[], &[]);
    c.spec.permissions.network = vec!["https://api.example".into()];
    host.register_cell("1".into(), c).unwrap();
    assert!(matches!(host.activate_cell("net-cell"), Err(kcell_core::Error::PolicyDenied(_))));
    assert_eq!(host.bus().len(), 0);
    let last = host.audit().events().back().unwrap();
    assert_eq!(last.kind, AuditKind::AdmitDenied);
    assert_eq!(last.cell.as_deref(), Some("net-cell"));
}

#[test]
fn restore_without_bindings_or_cells_loads_nothing() {
    let mut h1 = Host::new();
    h1.grant_many(vec!["bin/tool".into()], vec!["https://api.example".into()], vec![]);
    let exported = h1.export_state();
    let mut host2 = Host::new();
    host2.grant_many(vec!["local-cli".into()], vec![], vec![]);
    assert_eq!(host2.restore_state(&exported, vec![]).unwrap(), 0);
    assert_eq!(host2.policy().granted_process, vec!["local-cli".to_string(), "bin/tool".to_string()]);
}

#[test]
fn drain_records_two_steps_and_fail_records_one() {
    let mut lc = Lifecycle::new("echo".into());
    lc.activate().unwrap();
    let n = lc.events().len();
    lc.drain_and_stop().unwrap();
    let evs = lc.events();
    assert_eq!(evs.len(), n + 2);
    assert_eq!((evs[n].from, evs[n].to, evs[n].reason.as_deref()), (CellState::Active, CellState::Draining, Some("stop")));
    assert_eq!((evs[n + 1].from, evs[n + 1].to, evs[n + 1].reason.as_deref()), (CellState::Draining, CellState::Stopped, Some("drained")));
    assert!(lc.fail("late".into()).is_err());
    assert_eq!(lc.events().len(), n + 2);

    let mut lc = Lifecycle::new("x".into());
    lc.fail("boom".into()).unwrap();
    assert_eq!(lc.events().len(), 1);
    assert_eq!(lc.events()[0].reason.as_deref(), Some("boom"));
    lc.fail("again".into()).unwrap();
    assert_eq!(lc.events().len(), 1);
}

#[test]
fn digest_is_seventy_one_characters() {
    let m = cell("a", &[], &[]);
    let meta = kcell_core::package_from_manifest(&m, b"abc", "src");
    assert_eq!(meta.digest.len(), 71);
    assert_eq!(sha256_hex(b"").len(), 64);
}

#[test]
fn listed_cell_name_must_match() {
    let mut host = Host::new();
    let cref = kcell_core::manifest::aiman::CellRef {
        name: "a".into(),
        path: "a".into(),
        optional: true,
        depends_on: vec![],
    };
    let err = host.start_listed_cell(&cref, "dir/a".into(), cell("b", &[], &[])).unwrap_err();
    assert!(matches!(err, kcell_core::Error::Validation(ref m) if m == "ai-man name `a` != cell.yaml name `b`"));
    assert!(host.start_listed_cell(&cref, "dir/a".into(), cell("a", &[], &[])).unwrap());
    let mut w = cell("w", &[], &[]);
    w.spec.runtime.kind = RuntimeKind::Wasi;
    let wref = kcell_core::manifest::aiman::CellRef { name: "w".into(), path: "w".into(), optional: true, depends_on: vec![] };
    assert!(!host.start_listed_cell(&wref, "dir/w".into(), w).unwrap());
}

#[test]
fn restore_records_missing_and_skips_known_cells() {
    let mut host = Host::new();
    host.register_cell("a@1".into(), cell("a", &[], &[])).unwrap();
    assert!(!host.restore_cell("a", "dir/a", Some(Ok(cell("a", &[], &[])))));
    assert!(!host.restore_cell("b", "dir/b", None));
    let last = host.audit().events().back().unwrap();
    assert_eq!(last.kind, AuditKind::InvokeFailed);
    assert_eq!(last.detail, "restore skip missing dir/b");
    assert!(!host.restore_cell("c", "dir/c", Some(Err(kcell_core::Error::Yaml("bad".into())))));
    assert_eq!(host.audit().events().back().unwrap().detail, "restore load failed: yaml: bad");
    assert!(host.restore_cell("d", "dir/d", Some(Ok(cell("d", &["x"], &[])))));
    assert_eq!(host.registry().by_name("d").unwrap().state(), CellState::Active);
}
