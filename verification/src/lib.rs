//! KCell core: Cells, AI-men, bindings, policy, lifecycle and the Host that ties them.

pub mod text;
pub mod clock;
pub mod json;
pub mod table;
pub mod error;
pub mod manifest;
pub mod lifecycle;
pub mod policy;
pub mod registry;
pub mod discover;
pub mod binding;
pub mod autobind;
pub mod autoconfig;
pub mod audit;
pub mod bus;
pub mod envelope;
pub mod execute;
pub mod subprocess;
pub mod wasi;
pub mod paths;
pub mod state;
pub mod package;
pub mod specialize;
pub mod decode;
pub mod order;
pub mod host;
pub mod control;
pub mod watch;
pub mod adapters;
pub mod echo;

pub use adapters::a2a::{build_agent_card, payload_from_message, rpc_error, rpc_ok, skills_from_providers, CardConfig};
pub use adapters::agui::{
    event_run_error, event_run_finished, event_run_started, event_text_content, event_text_end, event_text_start,
    payload_from_messages, resolve_ids, Message, RunAgentInput, RunIds,
};
pub use adapters::http::{find_header_end, HttpRequest};
pub use adapters::mcp::{
    decode_tool_name, encode_tool_name, err_result, initialize_result, is_notification, ok_result, providers_to_tools, JsonRpcError,
    JsonRpcRequest, JsonRpcResponse, McpTool, PROTOCOL_VERSION,
};
pub use audit::{AuditEvent, AuditKind, AuditLog};
pub use autobind::propose_auto_bindings;
pub use autoconfig::propose_from_snapshot;
pub use binding::{apply_proposal, validate_proposal, ActiveBinding, BindingApplyResult, BindingSet};
pub use bus::{BusEvent, EventBus};
pub use control::{handle_control, ControlRequest, ControlResponse, ControlResult, CONTROL_SCHEMA};
pub use discover::{discover_providers, ProviderInfo};
pub use echo::{echo_reply, json_str};
pub use envelope::{Envelope, ENVELOPE_SCHEMA};
pub use error::{Error, Result};
pub use execute::{CellExecutor, CellHandler, InProcessExecutor, PassthroughHandler};
pub use host::{Host, HostEnv};
pub use json::{get_member, JsonNumber, JsonValue};
pub use lifecycle::{CellState, Lifecycle, TransitionEvent};
pub use manifest::aiman::{validate_aiman, AIManManifest, StaticBinding};
pub use manifest::binding_proposal::{validate_binding_proposal, BindingProposal, ProposedBinding};
pub use manifest::cell::{
    validate_cell, Capability, CellManifest, CellMetadata, CellSpec, Communication, Permissions, Requirement,
    RestartPolicy, RuntimeKind, RuntimeSpec,
};
pub use order::startup_order;
pub use package::{package_from_manifest, CellPackageMeta};
pub use policy::{AdmissionDecision, PolicyGate};
pub use registry::{CellRecord, LocalRegistry};
pub use specialize::{
    default_stem_dir, new_cell_request, parse_cap_token, parse_runtime, specialize_request, SpecializeRequest,
    SpecializeResult,
};
pub use state::{default_state_path, HostStateBindings, HostStateFile, HostStatePolicy, HOST_STATE_SCHEMA};
pub use subprocess::{ProcessOutcome, ProcessRunner, SubprocessExecutor, SubprocessSpec};
pub use wasi::{WasiExecutor, WasiSpec};
pub use watch::{apply_watch_actions, diff_watch, notify_feature_enabled, ControlClient, WatchAction, WatchConfig, WatchedCell};
