//! What a row of the graph tells of its commit: its labels, its dot, and the
//! edges that its strokes stand for.
use crate::git::branch::BranchInfo;
use crate::git::commit::CommitView;
use crate::git::graph::cells;
use crate::git::graph::cells::ParentLink;
use crate::git::graph::laws;
use crate::git::graph::layout;
use crate::git::graph::line;
use crate::git::graph::overlay;
use crate::git::graph::walk;
use crate::git::graph::walk::{Scene, Walk};
use crate::git::graph::{CellEdge, CellOids, CellType, NodeView};
use crate::git::repository::{StashInfo, TagInfo};
use crate::oid::Oid;
use crate::text;
use vstd::prelude::*;

verus! {

/// A branch is named at its tip and nowhere else, after the branches before it.
pub proof fn law_branches_are_named_at_their_tips(bs: Seq<BranchInfo>, b: BranchInfo, oid: Oid)
    ensures
        walk::names_at(walk::branch_refs(Seq::empty()), oid) == Seq::<Seq<char>>::empty(),
        walk::names_at(walk::branch_refs(bs.push(b)), oid) == (if b.tip_oid == oid {
            walk::names_at(walk::branch_refs(bs), oid).push(b.name@)
        } else {
            walk::names_at(walk::branch_refs(bs), oid)
        }),
{
    let refs = walk::branch_refs(bs.push(b));
    assert(refs.drop_last() =~= walk::branch_refs(bs));
    assert(refs.last() == (b.tip_oid, b.name@));
}

/// A tag is named at the commit it marks and nowhere else, after the tags before
/// it.
pub proof fn law_tags_are_named_at_their_commits(ts: Seq<TagInfo>, t: TagInfo, oid: Oid)
    ensures
        walk::names_at(walk::tag_refs(Seq::empty()), oid) == Seq::<Seq<char>>::empty(),
        walk::names_at(walk::tag_refs(ts.push(t)), oid) == (if t.target_oid == oid {
            walk::names_at(walk::tag_refs(ts), oid).push(t.name@)
        } else {
            walk::names_at(walk::tag_refs(ts), oid)
        }),
{
    let refs = walk::tag_refs(ts.push(t));
    assert(refs.drop_last() =~= walk::tag_refs(ts));
    assert(refs.last() == (t.target_oid, t.name@));
}

/// A stash is labelled at its commit with its number in git's notation.
pub proof fn law_stashes_are_labelled(ss: Seq<StashInfo>, s: StashInfo, oid: Oid)
    ensures
        walk::label_at(walk::stash_refs(Seq::empty()), oid) is None,
        walk::label_at(walk::stash_refs(ss.push(s)), oid) == (if s.oid == oid {
            Some(seq!['s', 't', 'a', 's', 'h', '@', '{'] + text::decimal(s.index as nat) + seq!['}'])
        } else {
            walk::label_at(walk::stash_refs(ss), oid)
        }),
{
    reveal_strlit("stash@{");
    reveal_strlit("}");
    let refs = walk::stash_refs(ss.push(s));
    assert(refs.drop_last() =~= walk::stash_refs(ss));
    assert(refs.last() == (s.oid, s.index));
    assert("stash@{"@ =~= seq!['s', 't', 'a', 's', 'h', '@', '{']);
    assert("}"@ =~= seq!['}']);
}

/// A commit's row bears the names and the stash label of the commit, and no
/// other row bears any.
pub open spec fn labelled(sc: Scene, n: NodeView) -> bool {
    match n.commit {
        Some(c) => {
            &&& n.branch_names == walk::names_at(sc.branches, c.oid)
            &&& n.tag_names == walk::names_at(sc.tags, c.oid)
            &&& n.stash_label == walk::label_at(sc.stashes, c.oid)
            &&& n.is_stash == (walk::label_at(sc.stashes, c.oid) is Some)
            &&& !n.is_uncommitted
            &&& n.uncommitted_count is None
        },
        None => {
            &&& n.branch_names.len() == 0
            &&& n.tag_names.len() == 0
            &&& n.stash_label is None
            &&& !n.is_stash
        },
    }
}

proof fn lemma_step_bare(sc: Scene, w: Walk, row: int)
    ensures
        ({
            let pre = w.prepared(sc, row).0;
            pre.nodes == w.nodes || labelled(sc, pre.nodes.last())
        }),
{
}

proof fn lemma_walk_labelled(sc: Scene, n: nat)
    requires
        n <= sc.cs.len(),
    ensures
        forall|i: int|
            0 <= i < Walk::after(sc, n).nodes.len() ==> labelled(
                sc,
                #[trigger] Walk::after(sc, n).nodes[i],
            ),
    decreases n,
{
    if n > 0 {
        lemma_walk_labelled(sc, (n - 1) as nat);
        let w = Walk::after(sc, (n - 1) as nat);
        laws::lemma_step_nodes(sc, w, n - 1);
        lemma_step_bare(sc, w, n - 1);
        let s = Walk::after(sc, n);
        let pre = w.prepared(sc, n - 1).0;
        assert forall|i: int| 0 <= i < s.nodes.len() implies labelled(sc, #[trigger] s.nodes[i]) by {
            if i < pre.nodes.len() {
                assert(s.nodes[i] == pre.nodes[i]);
                if i < w.nodes.len() {
                    assert(pre.nodes[i] == w.nodes[i]) by {
                        if pre.nodes != w.nodes {
                            assert(pre.nodes.drop_last()[i] == w.nodes[i]);
                        }
                    }
                }
            }
        }
    }
}

/// Every row of the graph bears the labels of its commit: the branches whose tip
/// it is, the tags that mark it and its stash, whatever is drawn over the rows.
pub proof fn law_rows_bear_the_labels_of_their_commits(
    sc: Scene,
    uncommitted: Option<Option<usize>>,
    links: Seq<(Oid, Oid)>,
)
    ensures
        forall|i: int|
            0 <= i < layout::graph_of(sc, uncommitted, links).0.len() ==> labelled(
                sc,
                #[trigger] layout::graph_of(sc, uncommitted, links).0[i],
            ),
{
    if sc.cs.len() > 0 {
        let w = Walk::after(sc, sc.cs.len());
        lemma_walk_labelled(sc, sc.cs.len());
        let (nodes, max_lane) = match uncommitted {
            Some(count) => overlay::with_uncommitted(w.nodes, w.max_lane, sc.head, count),
            None => (w.nodes, w.max_lane),
        };
        assert forall|i: int| 0 <= i < nodes.len() implies labelled(sc, #[trigger] nodes[i]) by {
            if uncommitted is Some && sc.head is Some && overlay::first_row(
                w.nodes,
                sc.head->0,
            ) is Some {
                if i > 0 {
                    assert(labelled(sc, w.nodes[i - 1]));
                }
            } else {
                assert(labelled(sc, w.nodes[i]));
            }
        }
        laws::law_links_change_only_cells(nodes, max_lane, links, links.len());
        let out = overlay::with_links(nodes, max_lane, links, links.len()).0;
        assert forall|i: int| 0 <= i < out.len() implies labelled(sc, #[trigger] out[i]) by {
            assert(labelled(sc, nodes[i]));
        }
    }
}

/// Without commits there is at most one row: that of the uncommitted changes, on
/// lane 0, with their count.
pub proof fn law_an_empty_history(
    sc: Scene,
    count: Option<usize>,
    links: Seq<(Oid, Oid)>,
)
    requires
        sc.cs.len() == 0,
    ensures
        layout::graph_of(sc, None, links).0.len() == 0,
        ({
            let ns = layout::graph_of(sc, Some(count), links).0;
            &&& ns.len() == 1
            &&& ns[0].commit is None
            &&& ns[0].is_uncommitted
            &&& ns[0].uncommitted_count == count
            &&& ns[0].lane == 0
            &&& ns[0].cells.len() == 1
            &&& ns[0].cells[0] is Commit
        }),
{
}

/// A commit's dot: on its lane, in the row's colour, for the commit itself.
pub open spec fn dotted(n: NodeView) -> bool {
    n.commit is Some ==> {
        &&& 2 * n.lane < n.cells.len()
        &&& 2 * n.lane < n.cell_oids.len()
        &&& n.cells[2 * n.lane] == CellType::Commit(n.color_index)
        &&& n.cell_oids[2 * n.lane].0 == Some((n.commit->0.oid, n.commit->0.oid))
    }
}

proof fn lemma_dot(
    view: cells::LaneView,
    lane: usize,
    shade: usize,
    oid: Oid,
    links: Seq<ParentLink>,
    n: nat,
)
    requires
        n <= links.len(),
    ensures
        cells::row_cell(view, lane, shade, oid, links, n, 2 * lane) == (
            CellType::Commit(shade),
            (Some((oid, oid)), None::<CellEdge>),
        ),
    decreases n,
{
    if n > 0 {
        lemma_dot(view, lane, shade, oid, links, (n - 1) as nat);
    }
}

/// Every commit has its dot, in the colour of its row and traceable as itself.
pub proof fn law_commits_have_their_dots(sc: Scene, n: nat)
    requires
        n <= sc.cs.len(),
    ensures
        forall|i: int|
            0 <= i < Walk::after(sc, n).nodes.len() ==> dotted(#[trigger] Walk::after(sc, n).nodes[i]),
    decreases n,
{
    if n > 0 {
        law_commits_have_their_dots(sc, (n - 1) as nat);
        let w = Walk::after(sc, (n - 1) as nat);
        laws::lemma_step_nodes(sc, w, n - 1);
        let s = Walk::after(sc, n);
        let (pre, lane, color) = w.prepared(sc, n - 1);
        let p = w.connected(sc, n - 1);
        let node = walk::commit_node(sc, n - 1, lane, color, p);
        lemma_dot(p.walk.view(), lane, node.color_index, sc.cs[n - 1].oid, p.links, p.links.len());
        walk::lemma_after_shapely(sc, n);
        assert(s.nodes.last() == node);
        assert(node.lane <= s.max_lane);
        assert(dotted(node));
        assert forall|i: int| 0 <= i < s.nodes.len() implies dotted(#[trigger] s.nodes[i]) by {
            if i < pre.nodes.len() {
                assert(s.nodes[i] == pre.nodes[i]);
                if i < w.nodes.len() {
                    assert(pre.nodes[i] == w.nodes[i]) by {
                        if pre.nodes != w.nodes {
                            assert(pre.nodes.drop_last()[i] == w.nodes[i]);
                        }
                    }
                }
            }
        }
    }
}

/// An edge leads from a commit to one of its parents, or stands for a commit
/// itself.
pub open spec fn kin(cs: Seq<CommitView>, edge: CellEdge) -> bool {
    exists|r: int|
        0 <= r < cs.len() && (#[trigger] cs[r]).oid == edge.0 && (edge.1 == edge.0
            || cs[r].parents.contains(edge.1))
}

/// The edges of a cell lead from commits to their parents.
pub open spec fn oids_kin(cs: Seq<CommitView>, oids: CellOids) -> bool {
    (oids.0 is Some ==> kin(cs, oids.0->0)) && (oids.1 is Some ==> kin(cs, oids.1->0))
}

/// The edges of a row lead from commits to their parents.
pub open spec fn row_kin(cs: Seq<CommitView>, n: NodeView) -> bool {
    forall|k: int| 0 <= k < n.cell_oids.len() ==> oids_kin(cs, #[trigger] n.cell_oids[k])
}

spec fn rows_kin(cs: Seq<CommitView>, ns: Seq<NodeView>) -> bool {
    forall|i: int| 0 <= i < ns.len() ==> row_kin(cs, #[trigger] ns[i])
}

/// Each lane awaits a parent of the commit that opened it.
spec fn lanes_kin(cs: Seq<CommitView>, lanes: Seq<Option<Oid>>, children: Seq<Option<Oid>>) -> bool {
    forall|l: int|
        0 <= l < lanes.len() && 0 <= l < children.len() && (#[trigger] lanes[l]) is Some
            && children[l] is Some ==> kin(cs, (children[l]->0, lanes[l]->0))
}

spec fn links_kin(cs: Seq<CommitView>, oid: Oid, links: Seq<ParentLink>) -> bool {
    forall|i: int| 0 <= i < links.len() ==> kin(cs, (oid, (#[trigger] links[i]).oid))
}

proof fn lemma_row_kin(
    cs: Seq<CommitView>,
    w: Walk,
    lane: usize,
    color: usize,
    oid: Oid,
    links: Seq<ParentLink>,
    n: nat,
    col: int,
)
    requires
        lanes_kin(cs, w.lanes, w.children),
        kin(cs, (oid, oid)),
        links_kin(cs, oid, links),
        n <= links.len(),
    ensures
        oids_kin(cs, cells::row_cell(w.view(), lane, color, oid, links, n, col).1),
    decreases n,
{
    if n > 0 {
        lemma_row_kin(cs, w, lane, color, oid, links, (n - 1) as nat, col);
        assert(kin(cs, (oid, links[n - 1].oid)));
    } else if col % 2 == 0 && 0 <= col / 2 < w.lanes.len() {
        assert(w.lanes[col / 2] is None || w.lanes[col / 2] is Some);
    }
}

proof fn lemma_fork_kin(
    cs: Seq<CommitView>,
    w: Walk,
    main: usize,
    color: usize,
    oid: Oid,
    m: Seq<(usize, usize)>,
    n: nat,
    col: int,
)
    requires
        lanes_kin(cs, w.lanes, w.children),
        w.lanes.len() == w.children.len(),
        main < w.lanes.len(),
        w.lanes[main as int] == Some(oid),
        forall|i: int|
            0 <= i < m.len() ==> (#[trigger] m[i]).0 < w.lanes.len() && w.lanes[m[i].0 as int] == Some(oid),
        n <= m.len(),
    ensures
        oids_kin(cs, cells::fork_cell(w.view(), main, color, oid, m, n, col).1),
    decreases n,
{
    if n > 0 {
        lemma_fork_kin(cs, w, main, color, oid, m, (n - 1) as nat, col);
        assert(w.lanes[m[n - 1].0 as int] == Some(oid));
    } else if col % 2 == 0 && 0 <= col / 2 < w.lanes.len() {
        assert(w.lanes[col / 2] is None || w.lanes[col / 2] is Some);
    }
}

proof fn lemma_merging_awaits(w: Walk, oid: Oid, main: usize, n: nat)
    requires
        n <= w.lanes.len() <= usize::MAX,
    ensures
        forall|i: int|
            0 <= i < w.merging(oid, main, n).len() ==> (#[trigger] w.merging(oid, main, n)[i]).0
                < w.lanes.len() && w.lanes[w.merging(oid, main, n)[i].0 as int] == Some(oid),
    decreases n,
{
    if n > 0 {
        lemma_merging_awaits(w, oid, main, (n - 1) as nat);
    }
}

proof fn lemma_placed_kin(
    sc: Scene,
    row: int,
    oid: Oid,
    lane: usize,
    color: usize,
    w: Walk,
    parents: Seq<Oid>,
    n: nat,
)
    requires
        lanes_kin(sc.cs, w.lanes, w.children),
        w.lanes.len() == w.children.len(),
        lane < w.lanes.len(),
        w.lanes.len() + n < usize::MAX,
        n <= parents.len(),
        forall|i: int| 0 <= i < parents.len() ==> kin(sc.cs, (oid, #[trigger] parents[i])),
    ensures
        ({
            let p = walk::placed(sc, row, oid, lane, color, w, parents, n);
            lanes_kin(sc.cs, p.walk.lanes, p.walk.children) && links_kin(sc.cs, oid, p.links)
        }),
    decreases n,
{
    if n > 0 {
        let m = (n - 1) as nat;
        lemma_placed_kin(sc, row, oid, lane, color, w, parents, m);
        laws::lemma_placed_lanes(sc, row, oid, lane, color, w, parents, m);
        let q = walk::placed(sc, row, oid, lane, color, w, parents, m);
        let p = walk::placed(sc, row, oid, lane, color, w, parents, n);
        let parent = parents[m as int];
        assert(kin(sc.cs, (oid, parent)));
        laws::lemma_opened(q.walk.lanes, sc.zero_ok(parent));
        assert forall|l: int|
            0 <= l < p.walk.lanes.len() && 0 <= l < p.walk.children.len() && (
            #[trigger] p.walk.lanes[l]) is Some && p.walk.children[l] is Some implies kin(
            sc.cs,
            (p.walk.children[l]->0, p.walk.lanes[l]->0),
        ) by {
            if l < q.walk.lanes.len() {
                assert(q.walk.lanes[l] is None || q.walk.lanes[l] is Some);
            }
        }
        assert forall|i: int| 0 <= i < p.links.len() implies kin(
            sc.cs,
            (oid, (#[trigger] p.links[i]).oid),
        ) by {
            if i < q.links.len() {
                assert(p.links[i] == q.links[i]);
            }
        }
    }
}

proof fn lemma_step_kin(sc: Scene, w: Walk, row: int)
    requires
        0 <= row < sc.cs.len(),
        laws::within(sc, w, row as nat),
        walk::lane_budget(sc.cs, sc.cs.len()) < usize::MAX,
        lanes_kin(sc.cs, w.lanes, w.children),
        rows_kin(sc.cs, w.nodes),
    ensures
        lanes_kin(sc.cs, w.step(sc, row).lanes, w.step(sc, row).children),
        rows_kin(sc.cs, w.step(sc, row).nodes),
{
    let cs = sc.cs;
    let oid = cs[row].oid;
    assert(kin(cs, (oid, oid)));
    laws::lemma_budget_monotone(cs, row as nat, cs.len());
    laws::lemma_step_lanes(sc, w, row);
    laws::lemma_step_nodes(sc, w, row);
    let (pre, lane, color) = w.prepared(sc, row);
    let next = Walk { colors: w.colors.next_row(), ..w };
    let seated = next.seated(lane);
    laws::lemma_awaiting(next.lanes, oid);
    laws::lemma_opened(next.lanes, sc.zero_ok(oid));
    assert(lanes_kin(cs, seated.lanes, seated.children)) by {
        assert forall|l: int|
            0 <= l < seated.lanes.len() && 0 <= l < seated.children.len() && (
            #[trigger] seated.lanes[l]) is Some && seated.children[l] is Some implies kin(
            cs,
            (seated.children[l]->0, seated.lanes[l]->0),
        ) by {
            assert(w.lanes[l] == seated.lanes[l]);
        }
    }
    let m = seated.merging(oid, lane, seated.lanes.len());
    lemma_merging_awaits(seated, oid, lane, seated.lanes.len());
    let j = seated.joined(oid, lane);
    assert(lanes_kin(cs, j.lanes, j.children)) by {
        assert forall|l: int|
            0 <= l < j.lanes.len() && 0 <= l < j.children.len() && (#[trigger] j.lanes[l]) is Some
                && j.children[l] is Some implies kin(cs, (j.children[l]->0, j.lanes[l]->0)) by {
            assert(seated.lanes[l] == j.lanes[l] && seated.children[l] == j.children[l]);
        }
    }
    assert(rows_kin(cs, j.nodes)) by {
        if m.len() > 0 {
            assert(seated.lanes[m[0].0 as int] == Some(oid));
            assert(w.lanes[m[0].0 as int] == Some(oid));
            assert(seated.lanes[lane as int] == Some(oid));
            let c = cells::lane_color(seated.lane_colors, seated.oid_colors, lane, oid);
            let n = j.nodes.last();
            assert forall|k: int| 0 <= k < n.cell_oids.len() implies oids_kin(
                cs,
                #[trigger] n.cell_oids[k],
            ) by {
                lemma_fork_kin(cs, seated, lane, c, oid, m, m.len(), k);
            }
            assert forall|i: int| 0 <= i < j.nodes.len() implies row_kin(cs, #[trigger] j.nodes[i]) by {
                if i < w.nodes.len() {
                    assert(j.nodes[i] == w.nodes[i]);
                }
            }
        }
    }
    assert(lanes_kin(cs, pre.lanes, pre.children)) by {
        assert forall|l: int|
            0 <= l < pre.lanes.len() && 0 <= l < pre.children.len() && (#[trigger] pre.lanes[l]) is Some
                && pre.children[l] is Some implies kin(cs, (pre.children[l]->0, pre.lanes[l]->0)) by {
            assert(j.lanes[l] == pre.lanes[l] && j.children[l] == pre.children[l]);
        }
    }
    let parents = sc.parents(row);
    let start = if parents.len() >= 2 {
        Walk { colors: pre.colors.forking(), ..pre }
    } else {
        pre
    };
    let keep = |p: Oid| line::loaded(cs, p);
    assert forall|i: int| 0 <= i < parents.len() implies kin(cs, (oid, #[trigger] parents[i])) by {
        cs[row].parents.lemma_filter_contains_rev(keep, parents[i]);
        assert(cs[row].oid == oid);
    }
    cs[row].parents.lemma_filter_len(keep);
    laws::lemma_budget_monotone(cs, (row + 1) as nat, cs.len());
    lemma_placed_kin(sc, row, oid, lane, color, start, parents, parents.len());
    let p = w.connected(sc, row);
    let node = walk::commit_node(sc, row, lane, color, p);
    assert forall|k: int| 0 <= k < node.cell_oids.len() implies oids_kin(
        cs,
        #[trigger] node.cell_oids[k],
    ) by {
        lemma_row_kin(cs, p.walk, lane, node.color_index, oid, p.links, p.links.len(), k);
    }
    let s = w.step(sc, row);
    assert(lanes_kin(cs, s.lanes, s.children)) by {
        let q = p.walk;
        if walk::crossed_lane(p.links, lane) is Some {
            let k = choose|k: int| walk::crosses_first(p.links, lane, k);
            assert(walk::crosses_first(p.links, lane, k));
            let other = p.links[k].lane;
            assert(other < q.lanes.len());
            let end = if other < lane { lane } else { other };
            assert(q.lanes[end as int] is None || q.lanes[end as int] is Some);
        }
        assert forall|l: int|
            0 <= l < s.lanes.len() && 0 <= l < s.children.len() && (#[trigger] s.lanes[l]) is Some
                && s.children[l] is Some implies kin(cs, (s.children[l]->0, s.lanes[l]->0)) by {
            assert(q.lanes[l] is None || q.lanes[l] is Some);
        }
    }
    assert forall|i: int| 0 <= i < s.nodes.len() implies row_kin(cs, #[trigger] s.nodes[i]) by {
        if i < pre.nodes.len() {
            assert(s.nodes[i] == j.nodes[i]);
        }
    }
}

/// Every stroke of the graph stands for an edge from a commit to one of its
/// parents, so that tracing an edge never lights a stroke that joins strangers.
pub proof fn law_strokes_lead_from_commits_to_parents(sc: Scene, n: nat)
    requires
        n <= sc.cs.len(),
        walk::lane_budget(sc.cs, sc.cs.len()) < usize::MAX,
    ensures
        forall|i: int|
            0 <= i < Walk::after(sc, n).nodes.len() ==> row_kin(
                sc.cs,
                #[trigger] Walk::after(sc, n).nodes[i],
            ),
{
    lemma_after_kin(sc, n);
}

proof fn lemma_after_kin(sc: Scene, n: nat)
    requires
        n <= sc.cs.len(),
        walk::lane_budget(sc.cs, sc.cs.len()) < usize::MAX,
    ensures
        laws::within(sc, Walk::after(sc, n), n),
        lanes_kin(sc.cs, Walk::after(sc, n).lanes, Walk::after(sc, n).children),
        rows_kin(sc.cs, Walk::after(sc, n).nodes),
    decreases n,
{
    if n > 0 {
        lemma_after_kin(sc, (n - 1) as nat);
        laws::lemma_step_lanes(sc, Walk::after(sc, (n - 1) as nat), n - 1);
        lemma_step_kin(sc, Walk::after(sc, (n - 1) as nat), n - 1);
    }
}

/// A commit stands on the leftmost lane that awaits it. One that none awaits
/// takes the leftmost free lane, or a new one on the right; lane 0 is free only
/// to HEAD's line, if there is one.
pub proof fn law_where_a_commit_stands(sc: Scene, w: Walk, oid: Oid)
    requires
        w.lanes.len() <= usize::MAX,
    ensures
        ({
            let lane = w.seat(sc, oid) as int;
            let barred = |l: int|
                l == 0 && !sc.line().contains(oid) && exists|o: Oid| sc.line().contains(o);
            if exists|l: int| 0 <= l < w.lanes.len() && w.lanes[l] == Some(oid) {
                &&& lane < w.lanes.len()
                &&& w.lanes[lane] == Some(oid)
                &&& forall|l: int| 0 <= l < lane ==> #[trigger] w.lanes[l] != Some(oid)
            } else {
                &&& lane <= w.lanes.len()
                &&& lane < w.lanes.len() ==> w.lanes[lane] is None && !barred(lane)
                &&& forall|l: int| 0 <= l < lane ==> (#[trigger] w.lanes[l]) is Some || barred(l)
            }
        }),
{
    laws::lemma_awaiting(w.lanes, oid);
    let zero_ok = sc.zero_ok(oid);
    assert(sc.reserved() <==> exists|o: Oid| sc.line().contains(o)) by {
        if !(exists|o: Oid| sc.line().contains(o)) {
            assert(sc.line() =~= Set::<Oid>::empty());
        }
    }
    if exists|l: int| 0 <= l < w.lanes.len() && w.lanes[l] == Some(oid) {
        let l = choose|l: int| 0 <= l < w.lanes.len() && w.lanes[l] == Some(oid);
        assert(walk::awaiting(w.lanes, oid) is Some);
    } else if exists|i: int| walk::free_first(w.lanes, zero_ok, i) {
        let i = choose|i: int| walk::free_first(w.lanes, zero_ok, i);
        assert(walk::free_first(w.lanes, zero_ok, i));
    } else {
        lemma_none_free(w.lanes, zero_ok, w.lanes.len() as int);
    }
}

proof fn lemma_none_free(lanes: Seq<Option<Oid>>, zero_ok: bool, n: int)
    requires
        0 <= n <= lanes.len(),
        !(exists|i: int| walk::free_first(lanes, zero_ok, i)),
    ensures
        forall|l: int| 0 <= l < n ==> (#[trigger] lanes[l]) is Some || (l == 0 && !zero_ok),
    decreases n,
{
    if n > 0 {
        lemma_none_free(lanes, zero_ok, n - 1);
        let l = n - 1;
        if lanes[l] is None && !(l == 0 && !zero_ok) {
            assert(walk::free_first(lanes, zero_ok, l));
        }
    }
}

/// The first commit to stand on lane 0 has the main colour: if there is a line of
/// HEAD's, whenever that is, and else only in the first row. Any other commit
/// keeps the colour of the lane that awaited it, or starts a new one.
pub proof fn law_colour_of_a_commit(sc: Scene, w: Walk, lane: usize)
    ensures
        ({
            let main = lane == 0 && !w.main_assigned && (w.nodes.len() == 0 || exists|o: Oid|
                sc.line().contains(o));
            &&& main ==> w.commit_color(sc, lane, true) == 0 && w.commit_color(sc, lane, false) == 0
            &&& !main ==> w.commit_color(sc, lane, true) == w.colors.kept_color(lane)
                && w.commit_color(sc, lane, false) == w.colors.next_color()
        }),
{
    assert(sc.reserved() <==> exists|o: Oid| sc.line().contains(o)) by {
        if !(exists|o: Oid| sc.line().contains(o)) {
            assert(sc.line() =~= Set::<Oid>::empty());
        }
    }
}

/// A commit is a fork point if it is loaded and two or more edges of the loaded
/// commits lead to it.
pub proof fn law_fork_points(cs: Seq<CommitView>, c: CommitView, parents: Seq<Oid>, p: Oid, oid: Oid)
    ensures
        walk::fork_point(cs, oid) == (line::loaded(cs, oid) && walk::edges_to(cs, oid) >= 2),
        walk::edges_to(Seq::empty(), oid) == 0,
        walk::edges_to(cs.push(c), oid) == walk::edges_to(cs, oid) + walk::occurrences(c.parents, oid),
        walk::occurrences(Seq::empty(), oid) == 0,
        walk::occurrences(parents.push(p), oid) == walk::occurrences(parents, oid) + (if p == oid {
            1int
        } else {
            0
        }),
{
    assert(cs.push(c).drop_last() =~= cs);
    assert(parents.push(p).drop_last() =~= parents);
}

/// How a parent is connected. One that no lane awaits goes on in the commit's own
/// lane and colour, if it is the first, and otherwise in a lane of its own with a
/// colour of its own. One that a lane awaits is joined there in that lane's
/// colour, except that a first parent which is a fork point is awaited in the
/// commit's own lane as well.
pub proof fn law_how_parents_are_connected(
    sc: Scene,
    row: int,
    oid: Oid,
    lane: usize,
    color: usize,
    p: walk::Placing,
    i: int,
    parent: Oid,
)
    requires
        p.walk.lanes.len() == p.walk.children.len(),
        p.walk.lanes.len() < usize::MAX,
        lane < p.walk.lanes.len(),
    ensures
        ({
            let now = walk::place(sc, row, oid, lane, color, p, i, parent);
            let link = now.links.last();
            let was = p.walk.lanes;
            let awaited = exists|l: int| 0 <= l < was.len() && was[l] == Some(parent);
            &&& now.links.drop_last() == p.links
            &&& link.oid == parent
            &&& !awaited && i == 0 ==> {
                &&& link.lane == lane
                &&& link.color == color
                &&& !link.existing
                &&& now.walk.lanes == was.update(lane as int, Some(parent))
                &&& now.walk.children == p.walk.children.update(lane as int, Some(oid))
            }
            &&& !awaited && i != 0 ==> {
                &&& link.lane == walk::opened(was, sc.zero_ok(parent))
                &&& link.color == p.walk.colors.next_sibling_color()
                &&& !link.existing
                &&& now.walk.lanes[link.lane as int] == Some(parent)
                &&& now.walk.children[link.lane as int] == Some(oid)
                &&& now.walk.lane_colors[link.lane] == link.color
            }
            &&& awaited && i == 0 && walk::fork_point(sc.cs, parent) ==> {
                &&& link.lane == lane
                &&& !link.existing
                &&& link.color == (if p.walk.colors.main_lane == Some(lane) { 0 } else { color })
                &&& now.walk.lanes == was.update(lane as int, Some(parent))
                &&& now.walk.children == p.walk.children.update(lane as int, Some(oid))
                &&& now.sibling == Some(link.color)
            }
            &&& awaited && !(i == 0 && walk::fork_point(sc.cs, parent)) ==> {
                &&& link.existing
                &&& was[link.lane as int] == Some(parent)
                &&& forall|l: int| 0 <= l < link.lane ==> #[trigger] was[l] != Some(parent)
                &&& link.color == cells::lane_color(
                    p.walk.lane_colors,
                    p.walk.oid_colors,
                    link.lane,
                    parent,
                )
                &&& now.walk == p.walk
            }
        }),
{
    laws::lemma_awaiting(p.walk.lanes, parent);
    laws::lemma_opened(p.walk.lanes, sc.zero_ok(parent));
    let now = walk::place(sc, row, oid, lane, color, p, i, parent);
    assert(now.links.drop_last() =~= p.links);
    if walk::awaiting(p.walk.lanes, parent) is Some {
        assert(p.walk.lanes[walk::awaiting(p.walk.lanes, parent)->0 as int] == Some(parent));
    }
}

} // verus!
