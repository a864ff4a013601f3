//! Incremental per-file churn counting over a linear history of tree
//! snapshots, with an aggregate full-diff strategy as a cross-check.

pub mod revision;
pub mod store;
pub mod snapshot;
pub mod path;
pub mod node;
pub mod construct;
pub mod laws;
pub mod order;
pub mod report;
pub mod history;
pub mod reduce;
