# kcell_core

KCell composes AI systems from **Cells**: small units that provide and require
capabilities. An **AI-man** groups Cells; a **Host** loads them, checks them
against a permission policy, drives their lifecycle, binds consumers to providers
and routes invocations between them.

This crate is the Host library, written in Verus. The functions in `src/` carry
contracts that Verus proves, except seven small trusted wrappers around std and
`sha2` (listed below), whose contracts are taken on trust.

## Layout

- `src/` — the verified library
  - `manifest/` — Cell, AI-man and binding-proposal manifests and their validation
  - `lifecycle.rs`, `registry.rs`, `policy.rs`, `discover.rs` — Cell states, the
    registry, the permission gate, provider discovery
  - `binding.rs`, `autobind.rs`, `autoconfig.rs`, `decode.rs` — binding sets,
    proposals, automatic binding and the auto-config Cell's greedy proposal
  - `execute.rs`, `subprocess.rs`, `wasi.rs`, `envelope.rs` — executors and the
    envelope exchanged with Cells
  - `host.rs`, `control.rs`, `order.rs`, `state.rs`, `watch.rs` — the Host, its
    control protocol, start-up ordering, durable state and directory watching
  - `specialize.rs`, `package.rs` — turning a stem template into a Cell package
  - `adapters/` — MCP, AG-UI and A2A front ends: routing and message shapes
  - `json.rs`, `text.rs`, `table.rs`, `clock.rs`, `paths.rs` — supporting types
- `tests/` — tests run against the compiled library
- `app/` — the `kcell` command line and the adapter programs: file and socket
  I/O, child processes, YAML/JSON encoding

Outside crates: `sha2` (package digests), `std::path` (parent and join),
`std::time` (the clock) and `String` collection are called from the library
through small trusted wrappers (`package::sha256_digest`, `paths::parent_dir`,
`paths::join_path`, `clock::system_now`, `clock::since_epoch`,
`clock::duration_nanos`, `text::string_of`); `serde`, `serde_json`, `serde_yaml` and
`clap` are used by `app/` only.
