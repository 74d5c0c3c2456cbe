//! The graph of a list of commits.
use crate::git::branch::BranchInfo;
use crate::git::commit::CommitInfo;
use crate::git::graph;
use crate::git::graph::line;
use crate::git::graph::overlay;
use crate::git::graph::walk;
use crate::git::graph::walk::{Scene, Stage, Walk, WalkState};
use crate::git::graph::{CellOids, CellType, GraphLayout, GraphNode, NodeView};
use crate::git::repository::{StashInfo, TagInfo};
use crate::graph::colors::UNCOMMITTED_COLOR_INDEX;
use crate::oid::Oid;
use crate::text;
use vstd::prelude::*;

verus! {

/// The row of a repository with changes and no commit.
pub open spec fn lone_node(count: Option<usize>) -> NodeView {
    NodeView {
        commit: None,
        lane: 0,
        color_index: UNCOMMITTED_COLOR_INDEX,
        branch_names: Seq::empty(),
        tag_names: Seq::empty(),
        is_head: false,
        is_uncommitted: true,
        is_stash: false,
        stash_label: None,
        uncommitted_count: count,
        cells: seq![CellType::Commit(UNCOMMITTED_COLOR_INDEX)],
        cell_oids: seq![(None, None)],
    }
}

/// The rows of the graph and its highest lane: the walk over all commits, then
/// the uncommitted-changes row, then the squash links.
pub open spec fn graph_of(
    sc: Scene,
    uncommitted: Option<Option<usize>>,
    links: Seq<(Oid, Oid)>,
) -> (Seq<NodeView>, usize) {
    if sc.cs.len() == 0 {
        match uncommitted {
            Some(count) => (seq![lone_node(count)], 0),
            None => (Seq::empty(), 0),
        }
    } else {
        let w = Walk::after(sc, sc.cs.len());
        let (nodes, max_lane) = match uncommitted {
            Some(count) => overlay::with_uncommitted(w.nodes, w.max_lane, sc.head, count),
            None => (w.nodes, w.max_lane),
        };
        overlay::with_links(nodes, max_lane, links, links.len())
    }
}

/// What [`build_graph`] is given, as a mathematical value.
pub open spec fn scene_of(
    commits: Seq<CommitInfo>,
    branches: Seq<BranchInfo>,
    tags: Seq<TagInfo>,
    stashes: Seq<StashInfo>,
    head: Option<Oid>,
) -> Scene {
    Scene {
        cs: crate::git::commit::commits_view(commits),
        head,
        branches: walk::branch_refs(branches),
        tags: walk::tag_refs(tags),
        stashes: walk::stash_refs(stashes),
    }
}

/// Whether the columns of the graph can be addressed: two for each lane that
/// the commits, their parents and the links can take.
pub open spec fn addressable(sc: Scene, links: nat) -> bool {
    2 * (walk::lane_budget(sc.cs, sc.cs.len()) + links + 3) <= usize::MAX
}

/// Build a graph from a list of commits, newest first.
///
/// `uncommitted_count` is `None` without uncommitted changes; the inner option
/// is `None` when the number of files is unknown. `head_commit_oid` anchors
/// HEAD's first-parent line to lane 0 and the uncommitted-changes row to HEAD.
/// `squash_links` are `(branch_tip, squash_commit)` pairs to join by a grey
/// line; a pair whose commits aren't both loaded is skipped.
pub fn build_graph(
    commits: &[CommitInfo],
    branches: &[BranchInfo],
    tags: &[TagInfo],
    stashes: &[StashInfo],
    uncommitted_count: Option<Option<usize>>,
    head_commit_oid: Option<Oid>,
    squash_links: &[(Oid, Oid)],
) -> (layout: GraphLayout)
    requires
        addressable(
            scene_of(commits@, branches@, tags@, stashes@, head_commit_oid),
            squash_links@.len(),
        ),
    ensures
        (graph::nodes_view(layout.nodes@), layout.max_lane) == graph_of(
            scene_of(commits@, branches@, tags@, stashes@, head_commit_oid),
            uncommitted_count,
            squash_links@,
        ),
{
    let ghost sc = scene_of(commits@, branches@, tags@, stashes@, head_commit_oid);
    if commits.len() == 0 {
        let mut nodes: Vec<GraphNode> = Vec::new();
        if let Some(count) = uncommitted_count {
            let mut cells: Vec<CellType> = Vec::new();
            cells.push(CellType::Commit(UNCOMMITTED_COLOR_INDEX));
            let mut cell_oids: Vec<CellOids> = Vec::new();
            cell_oids.push((None, None));
            let node = GraphNode {
                commit: None,
                lane: 0,
                color_index: UNCOMMITTED_COLOR_INDEX,
                branch_names: Vec::new(),
                tag_names: Vec::new(),
                is_head: false,
                is_uncommitted: true,
                is_stash: false,
                stash_label: None,
                uncommitted_count: count,
                cells,
                cell_oids,
            };
            proof {
                assert(text::texts(Seq::<String>::empty()) =~= Seq::<Seq<char>>::empty());
                assert(node@ =~= lone_node(count));
            }
            nodes.push(node);
            assert(graph::nodes_view(nodes@) =~= seq![lone_node(count)]);
        }
        assert(uncommitted_count is None ==> graph::nodes_view(nodes@) =~= Seq::empty());
        return GraphLayout { nodes, max_lane: 0 };
    }
    let rows = line::row_map(commits);
    let head_line = line::head_first_parent_line(commits, &rows, head_commit_oid);
    let reserved = !head_line.is_empty();
    let stage = Stage {
        commits,
        rows: &rows,
        line: &head_line,
        reserved,
        head: head_commit_oid,
        branches,
        tags,
        stashes,
    };
    assert(stage.scene() == sc);
    let (mut nodes, mut max_lane) = WalkState::run(&stage);
    proof {
        walk::lemma_after_shapely(sc, sc.cs.len());
    }
    if let Some(count) = uncommitted_count {
        let ghost before = graph::nodes_view(nodes@);
        let ghost max0 = max_lane;
        overlay::insert_uncommitted_node(&mut nodes, &mut max_lane, head_commit_oid, count);
        proof {
            overlay::lemma_uncommitted_shapely(before, max0, head_commit_oid, count);
        }
    }
    overlay::inject_squash_links(&mut nodes, &mut max_lane, squash_links);
    GraphLayout { nodes, max_lane }
}

} // verus!
