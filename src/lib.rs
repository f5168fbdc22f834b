//! Incremental updates for an installed file tree: version detection from
//! file content, upgrade paths through a catalog of versions, chunked binary
//! deltas over whole trees, and the sequencing of a chain of upgrade hops.

pub mod catalog;
pub mod chain;
pub mod cli;
pub mod config;
pub mod delta;
pub mod fingerprint;
pub mod graph;
pub mod selectors;
pub mod tree;
