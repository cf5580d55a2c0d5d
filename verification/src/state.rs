//! Durable Host state: hot-loaded Cell directories, bindings and policy grants.

use vstd::prelude::*;

use crate::binding::ActiveBinding;
use crate::error::{is_validation, Error, Result};
use crate::paths::{join_path, joined, parent_dir, parent_of};
use crate::text::{join3, owned, same_text};

verus! {

/// The schema tag, as the constant users write.
pub const HOST_STATE_SCHEMA: &'static str = "kcell.host-state.v1";

/// The schema tag of a state file.
pub open spec fn host_state_schema() -> Seq<char> {
    "kcell.host-state.v1"@
}

/// The schema tag, as a string.
pub fn host_state_schema_text() -> (r: String)
    ensures
        r@ == host_state_schema(),
{
    owned("kcell.host-state.v1")
}

/// Everything a Host keeps across restarts.
#[derive(Debug, Clone)]
pub struct HostStateFile {
    pub schema: String,
    /// Cell name → directory, ordered by name.
    pub cell_dirs: Vec<(String, String)>,
    pub bindings: HostStateBindings,
    pub policy: HostStatePolicy,
}

/// The binding generation and its edges.
#[derive(Debug, Clone)]
pub struct HostStateBindings {
    pub generation: u64,
    pub items: Vec<ActiveBinding>,
}

/// The policy gate's grants.
#[derive(Debug, Clone)]
pub struct HostStatePolicy {
    pub default_allow: bool,
    pub granted_network: Vec<String>,
    pub granted_process: Vec<String>,
    pub granted_filesystem: Vec<String>,
    pub granted_secrets: Vec<String>,
    pub granted_peers: Vec<String>,
}

impl Default for HostStateBindings {
    fn default() -> (r: Self)
        ensures
            r.generation == 0,
            r.items@.len() == 0,
    {
        HostStateBindings { generation: 0, items: Vec::new() }
    }
}

impl Default for HostStatePolicy {
    fn default() -> (r: Self)
        ensures
            !r.default_allow,
            r.granted_network@.len() == 0,
            r.granted_process@.len() == 0,
            r.granted_filesystem@.len() == 0,
            r.granted_secrets@.len() == 0,
            r.granted_peers@.len() == 0,
    {
        HostStatePolicy {
            default_allow: false,
            granted_network: Vec::new(),
            granted_process: Vec::new(),
            granted_filesystem: Vec::new(),
            granted_secrets: Vec::new(),
            granted_peers: Vec::new(),
        }
    }
}

impl Default for HostStateFile {
    fn default() -> (r: Self)
        ensures
            r.schema@.len() == 0,
            r.cell_dirs@.len() == 0,
            r.bindings.generation == 0,
            r.bindings.items@.len() == 0,
            !r.policy.default_allow,
    {
        HostStateFile {
            schema: String::new(),
            cell_dirs: Vec::new(),
            bindings: HostStateBindings::default(),
            policy: HostStatePolicy::default(),
        }
    }
}

/// Where the state file lives given the parent of the control socket: beside the
/// socket, or `.kcell/host-state.json` when the socket has no parent directory.
pub open spec fn state_path_for(parent: Option<Seq<char>>) -> Seq<char> {
    match parent {
        Some(p) => if p.len() > 0 {
            joined(p, "host-state.json"@)
        } else {
            ".kcell/host-state.json"@
        },
        None => ".kcell/host-state.json"@,
    }
}

/// The state file path for a socket whose parent directory is `parent`.
pub fn state_path_in(parent: Option<&str>) -> (r: String)
    ensures
        r@ == state_path_for(match parent {
            Some(p) => Some(p@),
            None => None,
        }),
{
    match parent {
        Some(p) => {
            if p.unicode_len() > 0 {
                join_path(p, "host-state.json")
            } else {
                owned(".kcell/host-state.json")
            }
        },
        None => owned(".kcell/host-state.json"),
    }
}

/// The state file path that goes with the control socket at `socket`.
pub fn default_state_path(socket: &str) -> (r: String)
    ensures
        r@ == state_path_for(parent_of(socket@)),
{
    match parent_dir(socket) {
        Some(p) => state_path_in(Some(p.as_str())),
        None => state_path_in(None),
    }
}

/// Accepts a state file only with the expected schema tag.
pub fn check_host_state(state: HostStateFile) -> (r: Result<HostStateFile>)
    ensures
        state.schema@ == host_state_schema() ==> (r matches Ok(s) && s == state),
        state.schema@ != host_state_schema() ==> (r matches Err(e) && is_validation(
            e,
            "unsupported host state schema `"@ + state.schema@ + "`"@,
        )),
{
    if !same_text(state.schema.as_str(), "kcell.host-state.v1") {
        return Err(Error::Validation(join3("unsupported host state schema `", state.schema.as_str(), "`")));
    }
    Ok(state)
}

} // verus!
