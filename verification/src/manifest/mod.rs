//! Manifests: Cells, AI-men and binding proposals.

pub mod cell;
pub mod aiman;
pub mod binding_proposal;

pub use aiman::{validate_aiman, AIManManifest, AIManMetadata, AIManPolicy, AIManSpec, CellRef, FailureStrategy, StaticBinding};
pub use binding_proposal::{validate_binding_proposal, BindingProposal, ProposalMetadata, ProposalSpec, ProposedBinding};
pub use cell::{validate_cell, Capability, CellManifest, CellMetadata, CellSpec, Communication, FsGrant, FsMode, Health, Permissions, Port, PortDirection, Requirement, Resources, RestartPolicy, RuntimeKind, RuntimeSpec};
