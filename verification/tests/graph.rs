use keifu::git::branch::BranchInfo;
use keifu::git::commit::CommitInfo;
use keifu::git::graph::{
    build_graph, cell_is_traced, cell_touches_merged, edge_touches_merged, graph_has_enough_lanes,
    insert_uncommitted_node, lineage_oids, merged_lane_oids, same_lane_ancestor_row, same_lane_descendant_row,
    trace_lit_edges, CellType, GraphLayout, GraphNode,
};
use keifu::git::repository::{StashInfo, TagInfo};
use keifu::graph::colors::{MAIN_BRANCH_COLOR, SQUASH_LINK_COLOR_INDEX, UNCOMMITTED_COLOR_INDEX};
use keifu::oid::{EdgeMap, Oid, OidSet};

fn commit_with_parents(n: usize) -> CommitInfo {
    CommitInfo {
        oid: Oid::zero(),
        short_id: "0000000".to_string(),
        author_name: "a".to_string(),
        author_email: "a@b".to_string(),
        timestamp: 0,
        message: "m".to_string(),
        full_message: "m".to_string(),
        parent_oids: vec![Oid::zero(); n],
    }
}

fn node(commit: Option<CommitInfo>, is_uncommitted: bool) -> GraphNode {
    GraphNode {
        commit,
        lane: 0,
        color_index: 0,
        branch_names: Vec::new(),
        tag_names: Vec::new(),
        is_head: false,
        is_uncommitted,
        is_stash: false,
        stash_label: None,
        uncommitted_count: None,
        cells: Vec::new(),
        cell_oids: Vec::new(),
    }
}

#[test]
fn is_merge_needs_two_or_more_parents() {
    assert!(node(Some(commit_with_parents(2)), false).is_merge());
    assert!(node(Some(commit_with_parents(3)), false).is_merge());
    assert!(!node(Some(commit_with_parents(1)), false).is_merge());
    assert!(!node(Some(commit_with_parents(0)), false).is_merge());
    // A connector row (no commit) is never a merge.
    assert!(!node(None, false).is_merge());
}

#[test]
fn is_connector_only_for_commitless_non_uncommitted_rows() {
    assert!(node(None, false).is_connector());
    // The uncommitted-changes row also has no commit but is not a connector.
    assert!(!node(None, true).is_connector());
    // A real commit row is not a connector.
    assert!(!node(Some(commit_with_parents(1)), false).is_connector());
}

// ── insert_uncommitted_node: crossing lanes stay visible ─────────

fn oid(byte: u8) -> Oid {
    Oid::from_bytes(&[byte; 20]).unwrap()
}

/// A commit node carrying a specific oid, lane, and cell row.
fn commit_node(oid: Oid, lane: usize, cells: Vec<CellType>) -> GraphNode {
    let mut c = commit_with_parents(1);
    c.oid = oid;
    GraphNode {
        commit: Some(c),
        lane,
        color_index: 0,
        branch_names: Vec::new(),
        tag_names: Vec::new(),
        is_head: false,
        is_uncommitted: false,
        is_stash: false,
        stash_label: None,
        uncommitted_count: None,
        cells,
        cell_oids: Vec::new(),
    }
}

#[test]
fn uncommitted_node_uses_head_lane_when_free_above() {
    // HEAD is the newest commit on lane 0, its lane clear above → no
    // connector, just the uncommitted dot on the same lane.
    let head = oid(1);
    let mut nodes = vec![commit_node(head, 0, vec![CellType::Commit(0), CellType::Empty])];
    let mut max_lane = 0;
    insert_uncommitted_node(&mut nodes, &mut max_lane, Some(head), Some(3));

    assert_eq!(nodes.len(), 2);
    assert!(nodes[0].is_uncommitted);
    assert_eq!(nodes[0].lane, 0);
    assert_eq!(nodes[0].cells[0], CellType::Commit(UNCOMMITTED_COLOR_INDEX));
    // No connector markers on the HEAD row.
    let head_row = &nodes[1];
    assert!(!head_row
        .cells
        .iter()
        .any(|c| matches!(c, CellType::MergeLeft(_) | CellType::MergeRight(_))));
}

#[test]
fn uncommitted_connector_crosses_lanes_without_severing_them() {
    // The grey uncommitted connector must not clobber a lane that is free
    // above HEAD but active on the HEAD row.
    //
    // Row 0 (newer commit): occupies HEAD's lane 0 above HEAD, so HEAD's lane
    //   is unavailable and a connector is needed.
    // Row 1 (HEAD, lane 0): a pink pipe (color 4) sits on lane 1 (col 2),
    //   active on the HEAD row itself.
    let newer = oid(1);
    let head = oid(2);
    let mut nodes = vec![
        commit_node(
            newer,
            1,
            vec![
                CellType::Pipe(3), // col 0: occupies HEAD's lane above HEAD
                CellType::Empty,
                CellType::Empty, // col 2: free above HEAD
                CellType::Empty,
            ],
        ),
        commit_node(
            head,
            0,
            vec![
                CellType::Commit(0),
                CellType::Empty,
                CellType::Pipe(4), // col 2: the pink lane, active on the HEAD row
                CellType::Empty,
            ],
        ),
    ];
    let mut max_lane = 1;
    insert_uncommitted_node(&mut nodes, &mut max_lane, Some(head), Some(1));

    // The old off-by-one would pick lane 1 (col 2 free *above* HEAD) and its
    // curve would overwrite the pink pipe. The fix requires the lane free on
    // the HEAD row too, so it moves right to lane 2 (col 4).
    assert!(nodes[0].is_uncommitted);
    assert_eq!(nodes[0].lane, 2, "uncommitted lane avoids the active pink lane");
    assert_eq!(max_lane, 2);

    // HEAD is now at index 2 (uncommitted inserted at 0, newer at 1).
    let head_row = &nodes[2];
    // The pink lane survives as a HorizontalPipe crossing — the connector
    // draws over it without erasing it.
    assert_eq!(
        head_row.cells[2],
        CellType::HorizontalPipe(UNCOMMITTED_COLOR_INDEX, 4),
        "crossed pink lane must remain visible under the connector"
    );
    // The pink lane is NOT replaced by a curve.
    assert!(
        !matches!(
            head_row.cells[2],
            CellType::MergeLeft(_) | CellType::MergeRight(_)
        ),
        "crossing cell must not become the connector's curve"
    );
    // The curve endpoint lands on the free lane 2 (col 4).
    assert_eq!(
        head_row.cells[4],
        CellType::MergeLeft(UNCOMMITTED_COLOR_INDEX)
    );
}

// ── branch tracing: edge-pair identity ───────────────────────────────

fn ci(oid: Oid, parents: Vec<Oid>) -> CommitInfo {
    let mut c = commit_with_parents(0);
    c.oid = oid;
    c.parent_oids = parents;
    c
}

/// Trunk A—B—C (A newest) with feature F1—F2 branched off C and merged into
/// A: `A`'s 2nd parent is `F1`, `F2`'s first parent is `C`. `C`'s first
/// parent `Z` is off-graph (below the loaded window). Returns the layout and
/// the OIDs `[A, B, C, F1, F2, Z]`.
///
/// Layout rows (verified): 0=A(merge) 1=B 2=F1 3=F2 4=fork-connector 5=C.
fn trace_fixture() -> (GraphLayout, [Oid; 6]) {
    let (a, b, c, f1, f2, z) = (oid(1), oid(2), oid(3), oid(4), oid(5), oid(9));
    let commits = vec![
        ci(a, vec![b, f1]),
        ci(b, vec![c]),
        ci(f1, vec![f2]),
        ci(f2, vec![c]),
        ci(c, vec![z]),
    ];
    let layout = build_graph(&commits, &[], &[], &[], None, None, &[]);
    (layout, [a, b, c, f1, f2, z])
}

/// Row index of the commit carrying `target`.
fn row_of(layout: &GraphLayout, target: Oid) -> usize {
    layout
        .nodes
        .iter()
        .position(|n| n.commit.as_ref().map(|c| c.oid) == Some(target))
        .expect("commit present in layout")
}

/// Whether the cell at `(row, col)` is lit by the trace.
fn traced(layout: &GraphLayout, lit: &EdgeMap, row: usize, col: usize) -> bool {
    cell_is_traced(
        layout.nodes[row].cell_oids.get(col).copied().unwrap_or((None, None)),
        lit,
    )
}

#[test]
fn tracing_trunk_lights_only_the_trunk_line() {
    let (layout, [_a, b, c, _f1, _f2, _z]) = trace_fixture();
    let lineage = trace_lit_edges(&layout, &lineage_oids(&layout, row_of(&layout, b)));

    let (a_row, b_row, c_row) = (row_of(&layout, oid(1)), row_of(&layout, b), row_of(&layout, c));
    let conn_row = c_row - 1; // fork connector immediately precedes C

    // Trunk commits and pipes are traced.
    assert!(traced(&layout, &lineage, a_row, 0), "A's dot is on the trunk lineage");
    assert!(traced(&layout, &lineage, b_row, 0), "B's dot");
    assert!(traced(&layout, &lineage, c_row, 0), "C's dot");
    assert!(traced(&layout, &lineage, row_of(&layout, oid(4)), 0), "trunk pipe B→C at F1's row");
    assert!(traced(&layout, &lineage, row_of(&layout, oid(5)), 0), "trunk pipe B→C at F2's row");

    // The merge into A (its curve/lead-in to F1) is NOT traced — the bug.
    assert!(!traced(&layout, &lineage, a_row, 1), "merge lead-in A→F1 stays dim");
    assert!(!traced(&layout, &lineage, a_row, 2), "merge curve A→F1 stays dim");
    // The feature pipe (spawned by the merge, edge A→F1) is NOT traced.
    assert!(!traced(&layout, &lineage, b_row, 2), "feature pipe at B's row stays dim");

    // Fork connector: the main-lane ├ (edge B→C) is traced; the merging
    // strokes climbing into the feature lane (edge F2→C) are NOT.
    assert!(traced(&layout, &lineage, conn_row, 0), "fork main-lane ├ is traced");
    assert!(!traced(&layout, &lineage, conn_row, 1), "fork merging lead-in stays dim");
    assert!(!traced(&layout, &lineage, conn_row, 2), "fork merging curve stays dim");
}

#[test]
fn tracing_feature_lights_feature_and_fork_strokes() {
    let (layout, [_a, _b, c, f1, f2, _z]) = trace_fixture();
    let lineage = trace_lit_edges(&layout, &lineage_oids(&layout, row_of(&layout, f1)));

    let a_row = row_of(&layout, oid(1));
    let b_row = row_of(&layout, oid(2));
    let (f1_row, f2_row, c_row) = (row_of(&layout, f1), row_of(&layout, f2), row_of(&layout, c));
    let conn_row = c_row - 1;

    // The feature line and the fork parent are traced.
    assert!(traced(&layout, &lineage, f1_row, 2), "F1's dot");
    assert!(traced(&layout, &lineage, f2_row, 2), "F2's dot");
    assert!(traced(&layout, &lineage, c_row, 0), "C's dot (fork parent, on the F line)");
    // The fork commit's connector strokes for the F lane ARE traced —
    // both endpoints (F2, C) are on the feature lineage.
    assert!(traced(&layout, &lineage, conn_row, 1), "fork merging lead-in for F lane");
    assert!(traced(&layout, &lineage, conn_row, 2), "fork merging curve for F lane");

    // The merge arc absorbing the feature (edge A→F1, F1 a non-first
    // parent) lights from the branch side, completing the branch's arc.
    assert!(traced(&layout, &lineage, a_row, 1), "merge lead-in A→F1 lights");
    assert!(traced(&layout, &lineage, a_row, 2), "merge curve A→F1 lights");
    assert!(traced(&layout, &lineage, b_row, 2), "feature pipe above F1 lights");

    // UP from F1 finds no child (A's FIRST parent is B), so A's own dot
    // and the trunk-only cells stay untraced.
    assert!(!traced(&layout, &lineage, a_row, 0), "A's dot stays dim");
    assert!(!traced(&layout, &lineage, b_row, 0), "B's dot (trunk-only) stays dim");
    assert!(!traced(&layout, &lineage, conn_row, 0), "fork main-lane ├ stays dim");
}

#[test]
fn off_graph_parent_never_appears_in_any_rendered_edge() {
    // Lanes are only ever assigned loaded commits, so a commit whose first
    // parent is off-graph must not produce a cell edge referencing it —
    // the lineage walk can safely stop at the graph boundary.
    let (layout, [_a, _b, _c, _f1, _f2, z]) = trace_fixture();
    let references_z = layout.nodes.iter().any(|n| {
        n.cell_oids.iter().any(|(p, s)| {
            p.is_some_and(|(c, pa)| c == z || pa == z)
                || s.is_some_and(|(c, pa)| c == z || pa == z)
        })
    });
    assert!(!references_z, "no rendered edge may reference off-graph Z");
}

// ── same-lane navigation (Ctrl+Up / Ctrl+Down) ────────────────────────

/// Trunk A—B—C—D (D root) interleaved with a feature F1—F2 branched off D
/// and merged into B (`B`'s parents are `[C, F1]`), listed in an order
/// that interleaves the two lines in the layout: A, B, F1, F2, C,
/// (fork-connector), D. Verified rows: 0=A 1=B 2=F1 3=F2 4=fork-connector
/// 5=D. Returns the layout and `[A, B, C, D, F1, F2]`.
fn lane_nav_fixture() -> (GraphLayout, [Oid; 6]) {
    let (a, b, c, d, f1, f2) = (oid(1), oid(2), oid(3), oid(4), oid(5), oid(6));
    let commits = vec![
        ci(a, vec![b]),
        ci(b, vec![c, f1]),
        ci(f1, vec![f2]),
        ci(f2, vec![d]),
        ci(c, vec![d]),
        ci(d, vec![]),
    ];
    let layout = build_graph(&commits, &[], &[], &[], None, None, &[]);
    (layout, [a, b, c, d, f1, f2])
}

#[test]
fn same_lane_ancestor_follows_first_parent_skipping_other_lanes() {
    let (layout, [a, b, c, d, _f1, _f2]) = lane_nav_fixture();

    // A -> B: adjacent rows, no skip needed.
    assert_eq!(
        same_lane_ancestor_row(&layout, row_of(&layout, a)),
        Some(row_of(&layout, b))
    );
    // B -> C: F1, F2 (and the fork connector) sit between them in the
    // rendered rows but are on a different lane, so the jump must skip
    // straight past them to C.
    let b_row = row_of(&layout, b);
    let c_row = row_of(&layout, c);
    assert!(c_row > b_row + 1, "fixture must interleave rows between B and C");
    assert_eq!(same_lane_ancestor_row(&layout, b_row), Some(c_row));
    // C -> D: trunk continues to the root.
    assert_eq!(
        same_lane_ancestor_row(&layout, c_row),
        Some(row_of(&layout, d))
    );
    // D is a root commit: no further ancestor on the lane.
    assert_eq!(same_lane_ancestor_row(&layout, row_of(&layout, d)), None);
}

#[test]
fn same_lane_descendant_follows_first_parent_children_skipping_other_lanes() {
    let (layout, [a, b, c, _d, _f1, _f2]) = lane_nav_fixture();

    // C -> B: the inverse of the ancestor jump, skipping the same
    // interleaved feature rows.
    let b_row = row_of(&layout, b);
    let c_row = row_of(&layout, c);
    assert_eq!(same_lane_descendant_row(&layout, c_row), Some(b_row));
    // B -> A: adjacent rows.
    assert_eq!(
        same_lane_descendant_row(&layout, b_row),
        Some(row_of(&layout, a))
    );
    // A is the tip of the lane: no further descendant.
    assert_eq!(same_lane_descendant_row(&layout, row_of(&layout, a)), None);
}

#[test]
fn same_lane_navigation_ignores_non_first_parent_merges_for_ancestor_walk() {
    // The feature line F1—F2 is absorbed into B as a *non-first* parent.
    // Descending (Ctrl+Down, first-parent only) must never treat that as
    // continuing the trunk lane.
    let (layout, [_a, _b, _c, d, f1, f2]) = lane_nav_fixture();

    let f1_row = row_of(&layout, f1);
    let f2_row = row_of(&layout, f2);
    // The feature line's own first-parent chain still works.
    assert_eq!(same_lane_ancestor_row(&layout, f1_row), Some(f2_row));
    // F2's first parent is the fork point D — reachable...
    assert_eq!(
        same_lane_ancestor_row(&layout, f2_row),
        Some(row_of(&layout, d))
    );
}

#[test]
fn same_lane_descendant_at_lane_top_jumps_to_the_merge_commit() {
    // F1 is the tip of the feature lane: no commit's FIRST parent is F1
    // (B's first parent is C). B's parents are [C, F1] — F1 is B's
    // non-first ("merged in") parent — so Ctrl+Up from F1 lands on B, the commit that
    // merged this lane into the trunk.
    let (layout, [_a, b, _c, _d, f1, _f2]) = lane_nav_fixture();

    assert_eq!(
        same_lane_descendant_row(&layout, row_of(&layout, f1)),
        Some(row_of(&layout, b))
    );
}

#[test]
fn same_lane_descendant_unmerged_branch_tip_still_none() {
    // A branch tip that nothing ever merges (not even as a non-first
    // parent) must still no-op — a true end of the lane.
    let (a, b, tip) = (oid(1), oid(2), oid(7));
    let commits = vec![ci(tip, vec![b]), ci(a, vec![b]), ci(b, vec![])];
    let layout = build_graph(&commits, &[], &[], &[], None, None, &[]);

    assert_eq!(same_lane_descendant_row(&layout, row_of(&layout, tip)), None);
}

#[test]
fn same_lane_descendant_prefers_first_parent_child_over_merge_fallback() {
    // Mid-lane navigation is unchanged: when a same-lane first-parent
    // child exists, it wins even though this commit is ALSO merged
    // elsewhere as a non-first parent — the fallback only kicks in when
    // the first-parent search comes up empty.
    let (layout, [_a, b, c, _d, _f1, _f2]) = lane_nav_fixture();

    // B's first parent is C, so walking up from C lands on B exactly as
    // before — B merging F1 in as a non-first parent doesn't interfere.
    assert_eq!(
        same_lane_descendant_row(&layout, row_of(&layout, c)),
        Some(row_of(&layout, b))
    );
}

#[test]
fn same_lane_navigation_is_none_for_connector_and_missing_rows() {
    let (layout, _) = lane_nav_fixture();
    let connector_row = layout
        .nodes
        .iter()
        .position(|n| n.is_connector())
        .expect("fixture has a fork connector row");

    assert_eq!(same_lane_ancestor_row(&layout, connector_row), None);
    assert_eq!(same_lane_descendant_row(&layout, connector_row), None);
    // Out-of-range index.
    assert_eq!(same_lane_ancestor_row(&layout, layout.nodes.len()), None);
    assert_eq!(same_lane_descendant_row(&layout, layout.nodes.len()), None);
}

// ── HEAD anchored to lane 0 (leftmost, VSCode-like) ───────────────────

fn branch(name: &str, tip: Oid, is_head: bool) -> BranchInfo {
    BranchInfo {
        name: name.to_string(),
        is_head,
        is_remote: false,
        upstream: None,
        tip_oid: tip,
        ahead: 0,
        behind: 0,
    }
}

/// Two branches diverging from a shared base Z: `main` (M1—M2—Z) and a
/// feature (F1—Z). Rows are ordered newest-first so the feature tip is NOT
/// row 0 — M1 is processed before it — which exercises the anchoring rather
/// than the incidental "first tip processed owns lane 0". Returns the commit
/// list and `[M1, M2, F1, Z]`.
fn diverged_fixture() -> (Vec<CommitInfo>, [Oid; 4]) {
    let (m1, m2, f1, z) = (oid(1), oid(2), oid(3), oid(9));
    let commits = vec![
        ci(m1, vec![m2]),
        ci(f1, vec![z]),
        ci(m2, vec![z]),
        ci(z, vec![]),
    ];
    (commits, [m1, m2, f1, z])
}

#[test]
fn head_feature_branch_claims_lane_zero() {
    let (commits, [m1, m2, f1, z]) = diverged_fixture();
    let branches = [branch("main", m1, false), branch("feature", f1, true)];
    let layout = build_graph(&commits, &branches, &[], &[], None, Some(f1), &[]);

    // HEAD's line (F1 and its ancestor Z) sits at the far-left lane 0...
    assert_eq!(layout.nodes[row_of(&layout, f1)].lane, 0, "HEAD tip at lane 0");
    assert_eq!(
        layout.nodes[row_of(&layout, z)].lane, 0,
        "HEAD's first-parent ancestor stays at lane 0"
    );
    // ...even though an older branch's commit (M1) is drawn first (row 0),
    // and that branch shifts one lane to the right.
    assert!(layout.nodes[row_of(&layout, m1)].lane >= 1, "other branch shifts right");
    assert!(layout.nodes[row_of(&layout, m2)].lane >= 1, "other branch shifts right");
}

#[test]
fn head_line_owns_the_main_color_others_do_not() {
    let (commits, [m1, _m2, f1, _z]) = diverged_fixture();
    let branches = [branch("main", m1, false), branch("feature", f1, true)];
    let layout = build_graph(&commits, &branches, &[], &[], None, Some(f1), &[]);

    // The lane-0 HEAD line owns the reserved main (blue) colour; the other
    // branch, though processed first, cannot claim it.
    assert_eq!(
        layout.nodes[row_of(&layout, f1)].color_index, MAIN_BRANCH_COLOR,
        "HEAD's line is the blue main line"
    );
    assert_ne!(
        layout.nodes[row_of(&layout, m1)].color_index, MAIN_BRANCH_COLOR,
        "a non-HEAD branch must not collide with the main colour"
    );
}

#[test]
fn detached_head_still_anchored_to_lane_zero() {
    // No branch carries is_head (detached HEAD). Anchoring must use the
    // passed HEAD oid, not branch identity.
    let (commits, [_m1, _m2, f1, z]) = diverged_fixture();
    let layout = build_graph(&commits, &[], &[], &[], None, Some(f1), &[]);

    assert_eq!(layout.nodes[row_of(&layout, f1)].lane, 0, "detached HEAD at lane 0");
    assert_eq!(layout.nodes[row_of(&layout, z)].lane, 0);
    assert_eq!(
        layout.nodes[row_of(&layout, f1)].color_index, MAIN_BRANCH_COLOR,
        "detached HEAD's line is still the blue main line"
    );
}

/// The star renders purely on `node.is_head`. A detached HEAD carries no
/// branch with `is_head`, so `is_head` must be keyed off the passed HEAD oid
/// or the row loses its star entirely.
#[test]
fn detached_head_off_branch_row_is_flagged_head() {
    // Detached at a commit that is NOT any branch tip: `x` is a child of the
    // feature tip F1, reachable from no branch. Only the HEAD oid identifies it.
    let (m1, f1, x, z) = (oid(1), oid(3), oid(7), oid(9));
    let commits = vec![
        ci(x, vec![f1]),
        ci(m1, vec![z]),
        ci(f1, vec![z]),
        ci(z, vec![]),
    ];
    let branches = [branch("main", m1, false), branch("feature", f1, false)];
    let layout = build_graph(&commits, &branches, &[], &[], None, Some(x), &[]);

    let head_rows: Vec<usize> = layout
        .nodes
        .iter()
        .enumerate()
        .filter(|(_, n)| n.is_head)
        .map(|(i, _)| i)
        .collect();
    assert_eq!(head_rows, vec![row_of(&layout, x)], "exactly the HEAD row is flagged");
}

/// Detached at a commit that *is* on a branch (a branch tip). No branch is
/// `is_head`, but the row must still be flagged (star), keyed off the oid.
#[test]
fn detached_head_on_branch_tip_row_is_flagged_head() {
    let (commits, [m1, _m2, f1, _z]) = diverged_fixture();
    // Detached exactly at feature's tip F1; no branch is is_head.
    let branches = [branch("main", m1, false), branch("feature", f1, false)];
    let layout = build_graph(&commits, &branches, &[], &[], None, Some(f1), &[]);

    assert!(layout.nodes[row_of(&layout, f1)].is_head, "detached-on-tip row is HEAD");
    assert!(
        !layout.nodes[row_of(&layout, m1)].is_head,
        "non-HEAD tip is not flagged"
    );
}

#[test]
fn without_head_first_tip_owns_lane_zero() {
    // Fallback: with no HEAD oid, the historical behaviour holds — the
    // first-processed tip keeps lane 0 and the main colour.
    let (commits, [m1, _m2, f1, _z]) = diverged_fixture();
    let layout = build_graph(&commits, &[], &[], &[], None, None, &[]);

    assert_eq!(layout.nodes[row_of(&layout, m1)].lane, 0);
    assert_eq!(layout.nodes[row_of(&layout, m1)].color_index, MAIN_BRANCH_COLOR);
    assert!(layout.nodes[row_of(&layout, f1)].lane >= 1);
}

#[test]
fn branch_ahead_of_head_shares_lane_zero() {
    // `bar` is HEAD (`foo`) plus one commit B1 ahead: B1's first parent is
    // HEAD. The shared first-parent line keeps HEAD at lane 0 with B1 above
    // it, rather than B1 pushing HEAD onto lane 1 and leaving lane 0 empty.
    // A diverged `other` tip is newest (row 0), processed before the line.
    let (foo, b1, other, z) = (oid(1), oid(2), oid(5), oid(9));
    let commits = vec![
        ci(other, vec![z]),
        ci(b1, vec![foo]),
        ci(foo, vec![z]),
        ci(z, vec![]),
    ];
    let layout = build_graph(&commits, &[], &[], &[], None, Some(foo), &[]);

    assert_eq!(layout.nodes[row_of(&layout, foo)].lane, 0, "HEAD stays leftmost");
    assert_eq!(
        layout.nodes[row_of(&layout, b1)].lane, 0,
        "a commit fast-forwarded ahead of HEAD shares lane 0"
    );
    assert!(
        layout.nodes[row_of(&layout, other)].lane >= 1,
        "the diverged branch shifts right"
    );
}

#[test]
fn anchoring_preserves_first_parent_lane_inheritance() {
    // Same-lane navigation relies on first-parent edges inheriting the
    // child's lane. Anchoring only reorders which lane a tip starts on, so
    // the HEAD line's first-parent chain must remain walkable end to end.
    let (commits, [_m1, _m2, f1, z]) = diverged_fixture();
    let layout = build_graph(&commits, &[], &[], &[], None, Some(f1), &[]);

    // F1 -> Z along the (anchored) lane 0.
    assert_eq!(
        same_lane_ancestor_row(&layout, row_of(&layout, f1)),
        Some(row_of(&layout, z))
    );
    // ...and back up, Z -> F1 on the same lane.
    assert_eq!(
        same_lane_descendant_row(&layout, row_of(&layout, z)),
        Some(row_of(&layout, f1))
    );
}

// ── squash-merge link lines ─────────────────────────────────────

/// The color index a cell is drawn in (`None` for `Empty`).
fn cell_color(cell: CellType) -> Option<usize> {
    match cell {
        CellType::Empty => None,
        CellType::Pipe(c)
        | CellType::Commit(c)
        | CellType::BranchRight(c)
        | CellType::BranchLeft(c)
        | CellType::MergeRight(c)
        | CellType::MergeLeft(c)
        | CellType::Horizontal(c)
        | CellType::TeeRight(c)
        | CellType::TeeLeft(c)
        | CellType::TeeUp(c)
        | CellType::HorizontalPipe(c, _) => Some(c),
    }
}

/// Whether any cell in the layout is drawn in the reserved squash-link grey.
fn has_squash_grey(layout: &GraphLayout) -> bool {
    layout.nodes.iter().any(|n| {
        n.cells
            .iter()
            .any(|c| cell_color(*c) == Some(SQUASH_LINK_COLOR_INDEX))
    })
}

/// A trunk tip `S` and a diverged feature tip `F1`, both loaded. Newest-first
/// order: S, F1, T, Z. Returns the commit list and `[S, F1, T, Z]`.
fn squash_link_fixture() -> (Vec<CommitInfo>, [Oid; 4]) {
    let (s, f1, t, z) = (oid(1), oid(4), oid(2), oid(9));
    let commits = vec![
        ci(s, vec![t]),
        ci(f1, vec![z]),
        ci(t, vec![z]),
        ci(z, vec![]),
    ];
    (commits, [s, f1, t, z])
}

#[test]
fn squash_link_off_is_byte_identical_and_adds_no_grey() {
    let (commits, _) = squash_link_fixture();
    let base = build_graph(&commits, &[], &[], &[], None, None, &[]);
    // Building again with no links is byte-identical for every cell.
    let again = build_graph(&commits, &[], &[], &[], None, None, &[]);
    assert_eq!(base.max_lane, again.max_lane);
    for (a, b) in base.nodes.iter().zip(&again.nodes) {
        assert_eq!(a.cells, b.cells, "option-off layout must be stable");
        assert_eq!(a.cell_oids, b.cell_oids);
    }
    assert!(!has_squash_grey(&base), "no link cells when the option is off");
}

#[test]
fn squash_link_draws_grey_and_preserves_real_cells() {
    let (commits, [s, f1, _t, _z]) = squash_link_fixture();
    let base = build_graph(&commits, &[], &[], &[], None, None, &[]);
    let linked = build_graph(&commits, &[], &[], &[], None, None, &[(f1, s)]);

    // The link introduces grey cells; the baseline had none.
    assert!(!has_squash_grey(&base));
    assert!(has_squash_grey(&linked), "the link draws grey cells");

    // Every real (non-Empty) baseline cell survives verbatim: the link only
    // fills empty space / new columns, never disturbing a real stroke.
    for (bi, bn) in base.nodes.iter().enumerate() {
        for (col, bcell) in bn.cells.iter().enumerate() {
            if *bcell != CellType::Empty {
                assert_eq!(
                    linked.nodes[bi].cells.get(col),
                    Some(bcell),
                    "real cell at row {bi} col {col} must be unchanged by the link"
                );
            }
        }
    }

    // No commit's parentage changes: is_merge and lineage are identical.
    for i in 0..base.nodes.len() {
        assert_eq!(base.nodes[i].is_merge(), linked.nodes[i].is_merge());
    }
    let (before, after) = (
        lineage_oids(&base, row_of(&base, f1)),
        lineage_oids(&linked, row_of(&linked, f1)),
    );
    assert_eq!(before.len(), after.len());
    for c in &commits {
        assert_eq!(
            before.contains(&c.oid),
            after.contains(&c.oid),
            "the link must not alter the feature's lineage"
        );
    }
}

#[test]
fn squash_link_cells_are_never_traced() {
    let (commits, [s, f1, _t, _z]) = squash_link_fixture();
    let layout = build_graph(&commits, &[], &[], &[], None, None, &[(f1, s)]);

    // Tracing either the feature or the trunk must leave the grey link dim.
    for sel in [f1, s] {
        let lit = trace_lit_edges(&layout, &lineage_oids(&layout, row_of(&layout, sel)));
        for node in &layout.nodes {
            for (i, cell) in node.cells.iter().enumerate() {
                if cell_color(*cell) == Some(SQUASH_LINK_COLOR_INDEX) {
                    assert!(
                        !cell_is_traced(node.cell_oids[i], &lit),
                        "a squash-link cell must never light under tracing"
                    );
                }
            }
        }
    }
}

/// The single column carrying the grey connector's vertical / elbow cells
/// (`Pipe`/`Branch*`/`Merge*` — not the horizontal crossing run). Asserts they
/// all share one column (no dangling half in a second column) and
/// returns it.
fn squash_connector_col(layout: &GraphLayout) -> usize {
    let mut col: Option<usize> = None;
    for node in &layout.nodes {
        for (c, cell) in node.cells.iter().enumerate() {
            let is_link_spine = cell_color(*cell) == Some(SQUASH_LINK_COLOR_INDEX)
                && matches!(
                    cell,
                    CellType::Pipe(_)
                        | CellType::BranchLeft(_)
                        | CellType::BranchRight(_)
                        | CellType::MergeLeft(_)
                        | CellType::MergeRight(_)
                );
            if is_link_spine {
                match col {
                    None => col = Some(c),
                    Some(x) => assert_eq!(
                        x, c,
                        "the squash connector must occupy a single column, not a split/dangling second one"
                    ),
                }
            }
        }
    }
    col.expect("a squash connector spine cell is present")
}

/// Squash commit S on the trunk (lane 0, upper), feature tip
/// F two lanes right (lane 2), a live branch H keeping the middle lane busy at
/// the intermediate row. The connector must hug F's own lane, NOT detour out
/// to a fresh lane right of the tip.
#[test]
fn squash_link_hugs_tip_lane_without_right_detour() {
    let (s, h, f, t, b) = (oid(1), oid(2), oid(3), oid(4), oid(5));
    let commits = vec![
        ci(s, vec![t]), // squash commit, trunk (lane 0)
        ci(h, vec![b]), // a live branch — keeps the middle lane busy
        ci(f, vec![b]), // squash-merged feature tip (lane 2)
        ci(t, vec![b]), // trunk continues
        ci(b, vec![]),  // shared base
    ];
    let base = build_graph(&commits, &[], &[], &[], None, None, &[]);
    let linked = build_graph(&commits, &[], &[], &[], None, None, &[(f, s)]);

    let sr = row_of(&linked, s);
    let fr = row_of(&linked, f);
    let flane = linked.nodes[fr].lane;
    let gcol = squash_connector_col(&linked);

    // The connector rides the tip's OWN column — no lane was added to detour
    // right of the tip.
    assert_eq!(
        linked.max_lane, base.max_lane,
        "the link must not widen the graph into a right-side detour lane"
    );
    assert_eq!(gcol, flane * 2, "connector rides the tip's own lane column");

    // No grey cell of ANY kind sits right of the tip's column.
    for node in &linked.nodes {
        for (col, cell) in node.cells.iter().enumerate() {
            if cell_color(*cell) == Some(SQUASH_LINK_COLOR_INDEX) {
                assert!(
                    col <= gcol,
                    "no squash-link cell may sit right of the tip column"
                );
            }
        }
    }

    // Tip is dot-anchored: its own cell is the commit dot and the grey pipe
    // runs straight down the same column into it (a continuous connector, no
    // separate up-and-right elbow leaving the tip).
    assert!(matches!(linked.nodes[fr].cells[gcol], CellType::Commit(_)));
    assert!(
        matches!(linked.nodes[fr - 1].cells[gcol], CellType::Pipe(SQUASH_LINK_COLOR_INDEX)),
        "grey connector runs straight down into the tip dot"
    );

    // The squash commit is joined by a single grey elbow in that same column.
    assert!(
        matches!(
            linked.nodes[sr].cells[gcol],
            CellType::BranchLeft(SQUASH_LINK_COLOR_INDEX)
                | CellType::BranchRight(SQUASH_LINK_COLOR_INDEX)
        ),
        "squash commit joins the connector with a grey elbow"
    );

    // Continuity: every intermediate row carries the grey pipe in that column.
    for i in (sr + 1)..fr {
        assert!(
            matches!(linked.nodes[i].cells[gcol], CellType::Pipe(SQUASH_LINK_COLOR_INDEX)),
            "intermediate row {i} carries the grey connector pipe"
        );
    }
}

#[test]
fn squash_link_is_one_continuous_connector_between_endpoints() {
    // Adjacent-row case: tip F1 on lane 1, squash S on lane
    // 0 one row above. The connector hugs F1's lane — S elbows in, F1 is
    // dot-anchored — forming ONE join between the two rows.
    // When the connector rides an endpoint's own lane, that endpoint is anchored
    // by its dot and carries no separate curve.
    let (commits, [s, f1, _t, _z]) = squash_link_fixture();
    let layout = build_graph(&commits, &[], &[], &[], None, None, &[(f1, s)]);

    let sr = row_of(&layout, s);
    let fr = row_of(&layout, f1);
    let flane = layout.nodes[fr].lane;
    let ulane = layout.nodes[sr].lane;
    let gcol = squash_connector_col(&layout);

    assert_eq!(gcol, flane * 2, "connector rides the tip's own lane");
    // Neither endpoint sits right of the other — no detour.
    assert!(gcol <= ulane.max(flane) * 2);

    // Tip dot-anchored; squash commit joined by a grey elbow directly above it
    // (`Branch*` touches the bottom edge, so the tip dot below connects up).
    assert!(matches!(layout.nodes[fr].cells[gcol], CellType::Commit(_)));
    assert!(matches!(
        layout.nodes[sr].cells[gcol],
        CellType::BranchLeft(SQUASH_LINK_COLOR_INDEX)
            | CellType::BranchRight(SQUASH_LINK_COLOR_INDEX)
    ));
}

#[test]
fn squash_link_absent_when_an_endpoint_is_unloaded() {
    // A link whose target isn't loaded draws nothing (both-endpoints guard).
    let (commits, [_s, f1, _t, _z]) = squash_link_fixture();
    let bogus = oid(200);
    let missing = build_graph(&commits, &[], &[], &[], None, None, &[(f1, bogus)]);
    assert!(
        !has_squash_grey(&missing),
        "no link is drawn when an endpoint isn't loaded"
    );
}

// ── merged_lane_oids: which commits the dim-merged setting greys ──

/// Trunk A—B—C (A newest, C the loaded base whose parent Z is off-graph),
/// with three branches off C:
///
/// - F1—F2: merged into A via a merge commit (A's 2nd parent is F1);
/// - S1: a squash-merged branch (its local ref survives but it is NOT an
///   ancestor of the trunk);
/// - G1: an ordinary UNMERGED branch.
///
/// Returns the commit list and the OIDs `[A, B, C, F1, F2, S1, G1, Z]`.
fn merged_lane_fixture() -> (Vec<CommitInfo>, [Oid; 8]) {
    let (a, b, c, f1, f2, s1, g1, z) = (
        oid(1),
        oid(2),
        oid(3),
        oid(4),
        oid(5),
        oid(6),
        oid(7),
        oid(9),
    );
    let commits = vec![
        ci(a, vec![b, f1]), // trunk merge: first parent B, 2nd parent F1
        ci(b, vec![c]),
        ci(f1, vec![f2]),
        ci(f2, vec![c]),
        ci(s1, vec![c]),
        ci(g1, vec![c]),
        ci(c, vec![z]), // trunk base; Z is off-graph (not loaded)
    ];
    (commits, [a, b, c, f1, f2, s1, g1, z])
}

#[test]
fn merged_lane_selects_everything_off_the_live_first_parent_chains() {
    let (commits, [a, b, c, f1, f2, s1, g1, _z]) = merged_lane_fixture();
    // Live lines: trunk A and the unmerged branch G. F (merged via merge
    // commit) and S (squash-merged) have no live ref: the dim set is
    // the complement of the live first-parent chains, so their lanes dim
    // WITHOUT needing their tips to be known/classified.
    let merged = merged_lane_oids(&commits, &[a, g1]);

    assert!(merged.contains(&f1), "merge-commit branch tip dims");
    assert!(merged.contains(&f2), "merge-commit branch interior dims");
    assert!(merged.contains(&s1), "squash-merged branch commit dims");
    // Trunk first-parent commits never dim — even C, which the merged
    // branches also reach (it sits on the live chains).
    assert!(!merged.contains(&a), "trunk tip stays lit");
    assert!(!merged.contains(&b), "trunk interior stays lit");
    assert!(!merged.contains(&c), "shared fork-point commit stays lit");
    assert!(!merged.contains(&g1), "unmerged (live) branch stays lit");
}

#[test]
fn merged_lane_dims_deleted_branch_side_history() {
    // A merge-commit PR whose branch ref was
    // deleted on merge. No ref points at F1/F2, yet hide-merged removes
    // them (the first-parent walk needs no ref) — so dim must grey them.
    // This is exactly the fixture above with F's ref absent: same result
    // set, asserted separately so the no-ref case can't regress.
    let (commits, [a, _b, _c, f1, f2, _s1, g1, _z]) = merged_lane_fixture();
    let merged = merged_lane_oids(&commits, &[a, g1]);
    assert!(merged.contains(&f1) && merged.contains(&f2), "ref-less side lane dims");
}

#[test]
fn merged_lane_spares_a_fast_forwarded_branch_on_the_trunk_line() {
    // A branch whose commits sit on the trunk's own first-parent chain (a
    // fast-forward merge left nothing exclusive) must NOT dim: hide-merged
    // would keep those commits, so the dim mirror keeps them too.
    let (a, b, c) = (oid(1), oid(2), oid(3));
    let commits = vec![ci(a, vec![b]), ci(b, vec![c]), ci(c, vec![])];
    // B's branch is "merged" (ff) — trunk tip A reaches it first-parent.
    let merged = merged_lane_oids(&commits, &[a]);
    assert!(merged.is_empty(), "no commit exclusive to a ff-merged branch");
}

#[test]
fn merged_lane_is_empty_when_every_ref_is_live() {
    // All tips live → every loaded commit sits on some live first-parent
    // chain except merge side-parents… which here means F's lane dims only
    // if F isn't live. Make every branch live: nothing dims.
    let (commits, [a, _b, _c, f1, _f2, s1, g1, _z]) = merged_lane_fixture();
    assert!(merged_lane_oids(&commits, &[a, f1, s1, g1]).is_empty());
}

#[test]
fn edge_and_cell_touch_merged_on_either_endpoint() {
    let merged = OidSet::from_slice(&[oid(4)]);
    // Either endpoint in the set makes the edge touch.
    assert!(edge_touches_merged(Some((oid(4), oid(3))), &merged));
    assert!(edge_touches_merged(Some((oid(1), oid(4))), &merged));
    assert!(!edge_touches_merged(Some((oid(1), oid(3))), &merged));
    assert!(!edge_touches_merged(None, &merged));
    // A cell touches when either of its two edges does.
    assert!(cell_touches_merged((None, Some((oid(4), oid(3)))), &merged));
    assert!(!cell_touches_merged((Some((oid(1), oid(2))), None), &merged));
}

#[test]
fn rows_carry_branches_tags_and_stashes() {
    let stash = StashInfo { index: 0, message: "wip".to_string(), oid: oid(3), base_oid: oid(1) };
    let commits = vec![ci(oid(3), vec![oid(1)]), ci(oid(1), vec![])];
    let branches = [branch("main", oid(1), true)];
    let tags = [TagInfo { name: "v1".to_string(), target_oid: oid(1) }];
    let layout = build_graph(&commits, &branches, &tags, &[stash], Some(Some(2)), Some(oid(1)), &[]);
    let row = &layout.nodes[row_of(&layout, oid(1))];
    assert_eq!(row.branch_names, vec!["main"]);
    assert_eq!(row.tag_names, vec!["v1"]);
    assert!(row.is_head);
    let stash_row = &layout.nodes[row_of(&layout, oid(3))];
    assert!(stash_row.is_stash);
    assert_eq!(stash_row.stash_label.as_deref(), Some("stash@{0}"));
    let uncommitted: Vec<&GraphNode> = layout.nodes.iter().filter(|n| n.is_uncommitted).collect();
    assert_eq!(uncommitted.len(), 1);
    assert_eq!(uncommitted[0].uncommitted_count, Some(2));
}

#[test]
fn every_commit_has_one_row() {
    let (layout, oids) = lane_nav_fixture();
    for o in oids {
        let rows = layout.nodes.iter().filter(|n| n.commit.as_ref().map(|c| c.oid) == Some(o)).count();
        assert_eq!(rows, 1);
    }
    assert!(build_graph(&[], &[], &[], &[], None, None, &[]).nodes.is_empty());
}

#[test]
fn a_single_lane_is_not_worth_tracing() {
    let layout = build_graph(&[ci(oid(1), vec![])], &[], &[], &[], None, None, &[]);
    assert!(!graph_has_enough_lanes(&layout));
}

#[test]
fn a_lane_step_up_and_down_returns() {
    let (layout, _) = lane_nav_fixture();
    for row in 0..layout.nodes.len() {
        if let Some(up) = same_lane_descendant_row(&layout, row) {
            if layout.nodes[up].lane == layout.nodes[row].lane {
                assert_eq!(same_lane_ancestor_row(&layout, up), Some(row));
            }
        }
    }
    assert_eq!(same_lane_descendant_row(&layout, 1), Some(0));
}
