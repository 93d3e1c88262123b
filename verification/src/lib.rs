//! Verified core of a fleet power orchestrator for a vCenter-style
//! management plane: session authentication, filtered inventory listing,
//! per-VM guest power actions, and a priority-group reconciliation engine
//! that tolerates partial failures.
pub mod types;
pub mod plan;
pub mod engine;
pub mod session;
pub mod decode;
pub mod query;
pub mod json;
pub mod inventory;
