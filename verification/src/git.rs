//! The git layer: commits, refs, the graph built from them, and the decisions
//! made about them.
pub mod askpass;
pub mod branch;
pub mod command;
pub mod commit;
pub mod diff;
pub mod graph;
pub mod merged;
pub mod operations;
pub mod patch;
pub mod repository;
