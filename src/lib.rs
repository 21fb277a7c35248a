//! Reconciliation of vendored third-party crates against a resolved
//! dependency graph, and synthesis of per-crate build descriptions.

pub mod crates;
pub mod error;
pub mod graph;
pub mod inventory;
pub mod manifest;
pub mod pipeline;
pub mod reconcile;
pub mod std_deps;
pub mod synth;
pub mod version;

pub use error::GenError;
pub use version::{Comparator, Epoch, ReqOp, Version};
