//! Commit graph construction.
pub mod arms;
pub mod laws;
pub mod layout;
pub mod cells;
pub mod line;
pub mod overlay;
pub mod trace;
pub mod walk;

pub use crate::git::graph::layout::build_graph;
pub use crate::git::graph::overlay::insert_uncommitted_node;
pub use crate::git::graph::trace::{
    cell_is_traced, cell_touches_merged, edge_is_traced, edge_touches_merged,
    graph_has_enough_lanes, lineage_oids, merged_lane_oids, same_lane_ancestor_row,
    same_lane_descendant_row, trace_lit_edges, MIN_TRACE_LANES,
};

use crate::git::commit::{CommitInfo, CommitView};
use crate::oid::Oid;
use crate::text;
use vstd::prelude::*;

verus! {

/// A stroke's identity: the `(child, parent)` commits it connects.
pub type CellEdge = (Oid, Oid);

/// The `(primary, secondary)` edges of a cell; see [`GraphNode::cell_oids`].
pub type CellOids = (Option<CellEdge>, Option<CellEdge>);

/// What one cell of a row draws. The numbers are colours.
#[derive(Debug, Clone, Copy, PartialEq, Eq, Structural)]
pub enum CellType {
    /// Nothing.
    Empty,
    /// Vertical line (active lane).
    Pipe(usize),
    /// Commit node.
    Commit(usize),
    /// Start branch to the right ╭.
    BranchRight(usize),
    /// Start branch to the left ╮.
    BranchLeft(usize),
    /// Merge from the right ╰.
    MergeRight(usize),
    /// Merge from the left ╯.
    MergeLeft(usize),
    /// Horizontal line.
    Horizontal(usize),
    /// Horizontal line over a lane: the horizontal's colour, the lane's colour.
    HorizontalPipe(usize, usize),
    /// T junction to the right ├.
    TeeRight(usize),
    /// T junction to the left ┤.
    TeeLeft(usize),
    /// Upward T junction ┴.
    TeeUp(usize),
}

/// A row of the graph.
#[derive(Debug, Clone)]
pub struct GraphNode {
    /// The commit (`None` for a connector row or the uncommitted-changes row).
    pub commit: Option<CommitInfo>,
    pub lane: usize,
    pub color_index: usize,
    /// Branches pointing at this commit.
    pub branch_names: Vec<String>,
    /// Tags pointing at this commit.
    pub tag_names: Vec<String>,
    /// Whether HEAD points at this commit.
    pub is_head: bool,
    /// Whether this is the uncommitted-changes row.
    pub is_uncommitted: bool,
    pub is_stash: bool,
    /// Stash label, such as `stash@{0}`.
    pub stash_label: Option<String>,
    /// Number of uncommitted files (`None` when the count is inaccurate).
    pub uncommitted_count: Option<usize>,
    /// What the row draws: lane `n` is column `2 * n`.
    pub cells: Vec<CellType>,
    /// The edge each cell draws, parallel to `cells`: the primary edge is the
    /// one its stroke belongs to, the secondary one is the lane crossed
    /// underneath or an edge that shares the stroke. A commit dot carries the
    /// self-edge of its commit. `None` is no edge.
    pub cell_oids: Vec<CellOids>,
}

/// The rows of a graph, and the highest lane any of them uses.
#[derive(Debug, Clone)]
pub struct GraphLayout {
    pub nodes: Vec<GraphNode>,
    pub max_lane: usize,
}

/// A row as a mathematical value.
#[verifier::ext_equal]
pub struct NodeView {
    pub commit: Option<CommitView>,
    pub lane: usize,
    pub color_index: usize,
    pub branch_names: Seq<Seq<char>>,
    pub tag_names: Seq<Seq<char>>,
    pub is_head: bool,
    pub is_uncommitted: bool,
    pub is_stash: bool,
    pub stash_label: Option<Seq<char>>,
    pub uncommitted_count: Option<usize>,
    pub cells: Seq<CellType>,
    pub cell_oids: Seq<CellOids>,
}

pub open spec fn opt_commit(c: Option<CommitInfo>) -> Option<CommitView> {
    match c {
        Some(c) => Some(c@),
        None => None,
    }
}

impl View for GraphNode {
    type V = NodeView;

    open spec fn view(&self) -> NodeView {
        NodeView {
            commit: opt_commit(self.commit),
            lane: self.lane,
            color_index: self.color_index,
            branch_names: text::texts(self.branch_names@),
            tag_names: text::texts(self.tag_names@),
            is_head: self.is_head,
            is_uncommitted: self.is_uncommitted,
            is_stash: self.is_stash,
            stash_label: text::opt_text(self.stash_label),
            uncommitted_count: self.uncommitted_count,
            cells: self.cells@,
            cell_oids: self.cell_oids@,
        }
    }
}

/// A list of rows as mathematical values.
pub open spec fn nodes_view(nodes: Seq<GraphNode>) -> Seq<NodeView> {
    nodes.map_values(|n: GraphNode| n@)
}

impl NodeView {
    pub open spec fn oid(self) -> Option<Oid> {
        match self.commit {
            Some(c) => Some(c.oid),
            None => None,
        }
    }
}

impl GraphNode {
    /// A merge commit: two or more parents.
    pub fn is_merge(&self) -> (merge: bool)
        ensures
            merge == (self@.commit is Some && self@.commit->0.parents.len() >= 2),
    {
        match &self.commit {
            Some(c) => c.parent_oids.len() >= 2,
            None => false,
        }
    }

    /// A pure connector row: a fork or merge join line without a commit that is
    /// not the uncommitted-changes row.
    pub fn is_connector(&self) -> (connector: bool)
        ensures
            connector == (self@.commit is None && !self@.is_uncommitted),
    {
        self.commit.is_none() && !self.is_uncommitted
    }
}

} // verus!
