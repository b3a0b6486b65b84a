//! Core of a project-hosting backend: the authorization guard that gates every
//! mutating operation, and the duplication orchestrator, which deep-copies a
//! project (its row and all of its stored assets) across two independent
//! stores, failing cleanly with compensating cleanup when a step fails.
//!
//! The relational store and the object-storage bucket are modelled in memory
//! (`store`), so the orchestrator's saga — authorize, snapshot, copy blobs,
//! insert row, and on failure undo the copies — is verified end to end,
//! including the states the stores are left in after every kind of failure.

pub mod auth;
pub mod dup;
pub mod error;
pub mod laws;
pub mod project;
pub mod store;

pub use error::Error;
pub use error::Stage;
