//! The logic of the protocol adapters that front a Host: MCP tools, the AG-UI
//! HTTP endpoint and the A2A agent.

pub mod mcp;
pub mod http;
pub mod agui;
pub mod a2a;
pub mod bridge;
