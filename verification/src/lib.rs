//! Derivation descriptors for resolved crate dependency graphs.
//!
//! Given a fully resolved package dependency graph, this library reconciles
//! one package's declared manifest dependencies against the graph's resolved
//! dependency edges and derives a flattened, build-tool-agnostic record of
//! the package: its identity, source location relative to a configured root,
//! build targets, and dependency edges split by dependency kind.

pub mod model;
pub mod names;
pub mod paths;
pub mod resolve;
