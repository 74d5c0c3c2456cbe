//! Verified core of a terminal commit-graph viewer.
//!
//! Everything in this crate is a function of plain values: commits and refs
//! that were already read, key presses that were already decoded, command
//! output that was already captured. Reading repositories, running `git` and
//! `gh`, threads and the terminal belong to the program around it.
use vstd::prelude::*;

pub mod action;
pub mod app;
pub mod gh;
pub mod git;
pub mod graph;
pub mod graph_nav;
pub mod hashing;
pub mod interval_fetch;
pub mod issue;
pub mod issue_action;
pub mod keybindings;
pub mod keymap;
pub mod keys;
pub mod logging;
pub mod merge_base;
pub mod merged_branch_fetch;
pub mod merged_cache;
pub mod mouse;
pub mod names;
pub mod oid;
pub mod paths;
pub mod scan;
pub mod search;
pub mod sorting;
pub mod text;

verus! {

} // verus!
