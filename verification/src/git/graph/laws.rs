//! What holds of every graph.
use crate::git::commit::CommitView;
use crate::git::graph::cells;
use crate::git::graph::cells::ParentLink;
use crate::git::graph::layout;
use crate::git::graph::line;
use crate::git::graph::overlay;
use crate::git::graph::trace;
use crate::git::graph::walk;
use crate::git::graph::walk::{Scene, Walk};
use crate::git::graph::{CellEdge, CellOids, CellType, NodeView};
use crate::graph::colors;
use crate::graph::colors::MAIN_BRANCH_COLOR;
use crate::oid::Oid;
use crate::search;
use vstd::prelude::*;

verus! {

/// The commits that the rows carry, from top to bottom.
pub open spec fn commits_of(ns: Seq<NodeView>) -> Seq<CommitView>
    decreases ns.len(),
{
    if ns.len() == 0 {
        Seq::empty()
    } else {
        let rest = commits_of(ns.drop_last());
        match ns.last().commit {
            Some(c) => rest.push(c),
            None => rest,
        }
    }
}

proof fn lemma_commits_push(ns: Seq<NodeView>, n: NodeView)
    ensures
        commits_of(ns.push(n)) == (match n.commit {
            Some(c) => commits_of(ns).push(c),
            None => commits_of(ns),
        }),
{
    assert(ns.push(n).drop_last() =~= ns);
}

proof fn lemma_commits_same(a: Seq<NodeView>, b: Seq<NodeView>)
    requires
        a.len() == b.len(),
        forall|i: int| 0 <= i < a.len() ==> (#[trigger] a[i]).commit == b[i].commit,
    ensures
        commits_of(a) == commits_of(b),
    decreases a.len(),
{
    if a.len() > 0 {
        assert forall|i: int| 0 <= i < a.len() - 1 implies (#[trigger] a.drop_last()[i]).commit
            == b.drop_last()[i].commit by {
            assert(a[i].commit == b[i].commit);
        }
        lemma_commits_same(a.drop_last(), b.drop_last());
        assert(a[a.len() - 1].commit == b[b.len() - 1].commit);
    }
}

proof fn lemma_commits_prepend(n: NodeView, ns: Seq<NodeView>)
    requires
        n.commit is None,
    ensures
        commits_of(seq![n] + ns) == commits_of(ns),
    decreases ns.len(),
{
    if ns.len() > 0 {
        lemma_commits_prepend(n, ns.drop_last());
        assert((seq![n] + ns).drop_last() =~= seq![n] + ns.drop_last());
        assert((seq![n] + ns).last() == ns.last());
    } else {
        assert((seq![n] + ns) =~= seq![n]);
        assert(seq![n].drop_last() =~= Seq::<NodeView>::empty());
        assert(commits_of(seq![n].drop_last()) =~= Seq::empty());
    }
}

/// The rows of one more step: those before it, perhaps a connector, then the
/// row of the commit.
pub proof fn lemma_step_nodes(sc: Scene, w: Walk, row: int)
    ensures
        ({
            let s = w.step(sc, row);
            let (pre, lane, color) = w.prepared(sc, row);
            let p = w.connected(sc, row);
            let node = walk::commit_node(sc, row, lane, color, p);
            &&& s.nodes == pre.nodes.push(node)
            &&& s.max_lane == p.walk.max_lane
            &&& pre.nodes == w.nodes || (pre.nodes.len() == w.nodes.len() + 1
                && pre.nodes.drop_last() == w.nodes && pre.nodes.last().commit is None
                && !pre.nodes.last().is_head && !pre.nodes.last().is_uncommitted)
        }),
{
    let oid = sc.cs[row].oid;
    let (pre, lane, color) = w.prepared(sc, row);
    let parents = sc.parents(row);
    let start = if parents.len() >= 2 {
        Walk { colors: pre.colors.forking(), ..pre }
    } else {
        pre
    };
    walk::lemma_placed_frame(sc, row, oid, lane, color, start, parents, parents.len());
    let next = Walk { colors: w.colors.next_row(), ..w };
    let seated = next.seated(lane);
    let j = seated.joined(oid, lane);
    if seated.merging(oid, lane, seated.lanes.len()).len() > 0 {
        assert(j.nodes.drop_last() =~= w.nodes);
    }
}

/// Every commit yields exactly one row, in the order of the list.
pub proof fn law_one_row_per_commit(
    sc: Scene,
    uncommitted: Option<Option<usize>>,
    links: Seq<(Oid, Oid)>,
)
    ensures
        commits_of(layout::graph_of(sc, uncommitted, links).0) == sc.cs,
{
    if sc.cs.len() == 0 {
        match uncommitted {
            Some(count) => {
                lemma_commits_push(Seq::empty(), layout::lone_node(count));
                assert(seq![layout::lone_node(count)] =~= Seq::empty().push(
                    layout::lone_node(count),
                ));
                assert(commits_of(Seq::<NodeView>::empty()) =~= sc.cs);
            },
            None => {
                assert(sc.cs =~= Seq::empty());
            },
        }
    } else {
        let w = Walk::after(sc, sc.cs.len());
        lemma_walk_commits(sc, sc.cs.len());
        assert(sc.cs.take(sc.cs.len() as int) =~= sc.cs);
        let (nodes, max_lane) = match uncommitted {
            Some(count) => overlay::with_uncommitted(w.nodes, w.max_lane, sc.head, count),
            None => (w.nodes, w.max_lane),
        };
        if uncommitted is Some {
            lemma_uncommitted_commits(w.nodes, w.max_lane, sc.head, uncommitted->0);
        }
        law_links_change_only_cells(nodes, max_lane, links, links.len());
        lemma_commits_same(nodes, overlay::with_links(nodes, max_lane, links, links.len()).0);
    }
}

proof fn lemma_walk_commits(sc: Scene, n: nat)
    requires
        n <= sc.cs.len(),
    ensures
        commits_of(Walk::after(sc, n).nodes) == sc.cs.take(n as int),
    decreases n,
{
    if n == 0 {
        assert(sc.cs.take(0) =~= Seq::empty());
    } else {
        lemma_walk_commits(sc, (n - 1) as nat);
        let w = Walk::after(sc, (n - 1) as nat);
        let row = n - 1;
        lemma_step_nodes(sc, w, row);
        let (pre, lane, color) = w.prepared(sc, row);
        let node = walk::commit_node(sc, row, lane, color, w.connected(sc, row));
        lemma_commits_push(pre.nodes, node);
        assert(sc.cs.take(n as int) =~= sc.cs.take(row).push(sc.cs[row]));
    }
}

proof fn lemma_uncommitted_commits(
    ns: Seq<NodeView>,
    max_lane: usize,
    head: Option<Oid>,
    count: Option<usize>,
)
    ensures
        commits_of(overlay::with_uncommitted(ns, max_lane, head, count).0) == commits_of(ns),
{
    let out = overlay::with_uncommitted(ns, max_lane, head, count).0;
    if head is Some && overlay::first_row(ns, head->0) is Some {
        let rows = out.subrange(1, out.len() as int);
        assert(out =~= seq![out[0]] + rows);
        lemma_commits_prepend(out[0], rows);
        assert forall|i: int| 0 <= i < rows.len() implies (#[trigger] rows[i]).commit
            == ns[i].commit by {
            assert(rows[i] == out[i + 1]);
        }
        lemma_commits_same(rows, ns);
    }
}

/// Squash links change nothing but cells: the same rows carry the same commits
/// on the same lanes, in the same colours and with the same labels.
pub proof fn law_links_change_only_cells(
    ns: Seq<NodeView>,
    max_lane: usize,
    links: Seq<(Oid, Oid)>,
    n: nat,
)
    requires
        n <= links.len(),
    ensures
        ({
            let out = overlay::with_links(ns, max_lane, links, n).0;
            &&& out.len() == ns.len()
            &&& forall|i: int|
                0 <= i < ns.len() ==> #[trigger] out[i] == (NodeView {
                    cells: out[i].cells,
                    cell_oids: out[i].cell_oids,
                    ..ns[i]
                })
        }),
    decreases n,
{
    if n > 0 {
        law_links_change_only_cells(ns, max_lane, links, (n - 1) as nat);
        let (mid, m) = overlay::with_links(ns, max_lane, links, (n - 1) as nat);
        let out = overlay::with_links(ns, max_lane, links, n).0;
        assert forall|i: int| 0 <= i < ns.len() implies #[trigger] out[i] == (NodeView {
            cells: out[i].cells,
            cell_oids: out[i].cell_oids,
            ..ns[i]
        }) by {
            assert(mid[i] == (NodeView {
                cells: mid[i].cells,
                cell_oids: mid[i].cell_oids,
                ..ns[i]
            }));
        }
    }
}

/// Without links the layout is what it would be without the option.
pub proof fn law_no_links_no_change(sc: Scene, uncommitted: Option<Option<usize>>)
    ensures
        sc.cs.len() > 0 && uncommitted is None ==> layout::graph_of(
            sc,
            uncommitted,
            Seq::empty(),
        ) == (
            Walk::after(sc, sc.cs.len()).nodes,
            Walk::after(sc, sc.cs.len()).max_lane,
        ),
        sc.cs.len() > 0 && uncommitted is Some ==> layout::graph_of(sc, uncommitted, Seq::empty())
            == overlay::with_uncommitted(
            Walk::after(sc, sc.cs.len()).nodes,
            Walk::after(sc, sc.cs.len()).max_lane,
            sc.head,
            uncommitted->0,
        ),
{
}

/// A link one of whose commits is not on the graph draws nothing.
pub proof fn law_unloaded_link_draws_nothing(
    ns: Seq<NodeView>,
    max_lane: usize,
    links: Seq<(Oid, Oid)>,
    n: nat,
)
    requires
        0 < n <= links.len(),
        !trace::on_graph(ns, links[n - 1].0) || !trace::on_graph(ns, links[n - 1].1),
    ensures
        overlay::with_links(ns, max_lane, links, n) == overlay::with_links(
            ns,
            max_lane,
            links,
            (n - 1) as nat,
        ),
{
    let mid = overlay::with_links(ns, max_lane, links, (n - 1) as nat).0;
    law_links_change_only_cells(ns, max_lane, links, (n - 1) as nat);
    let (tip, target) = links[n - 1];
    assert forall|o: Oid| trace::on_graph(mid, o) implies trace::on_graph(ns, o) by {
        let i = choose|i: int| 0 <= i < mid.len() && (#[trigger] mid[i]).oid() == Some(o);
        assert(mid[i].commit == ns[i].commit);
        assert(ns[i].oid() == Some(o));
    }
    trace::lemma_on_graph(mid, tip);
    trace::lemma_on_graph(mid, target);
}

proof fn lemma_trace_down_grows(ns: Seq<NodeView>, set: Set<Oid>, cur: Oid)
    ensures
        set.subset_of(trace::trace_down(ns, set, cur)),
    decreases trace::rows_outside(ns, set),
{
    if let Some(p) = trace::drawn_first_parent(ns, cur) {
        if !set.contains(p) {
            trace::lemma_rows_outside_insert(ns, set, p);
            lemma_trace_down_grows(ns, set.insert(p), p);
        }
    }
}

proof fn lemma_trace_up_grows(ns: Seq<NodeView>, set: Set<Oid>, cur: Oid)
    ensures
        set.subset_of(trace::trace_up(ns, set, cur)),
    decreases trace::rows_outside(ns, set),
{
    if let Some(ch) = trace::lane_child(ns, set, cur) {
        trace::lemma_lane_child(ns, set, cur);
        trace::lemma_rows_outside_insert(ns, set, ch);
        lemma_trace_up_grows(ns, set.insert(ch), ch);
    }
}

/// Whatever a row carries is among the commits.
proof fn lemma_carried(ns: Seq<NodeView>, i: int)
    requires
        0 <= i < ns.len(),
        ns[i].commit is Some,
    ensures
        commits_of(ns).contains(ns[i].commit->0),
    decreases ns.len(),
{
    let rest = commits_of(ns.drop_last());
    let all = commits_of(ns);
    if i < ns.len() - 1 {
        lemma_carried(ns.drop_last(), i);
        let k = choose|k: int| 0 <= k < rest.len() && rest[k] == ns[i].commit->0;
        assert(all[k] == rest[k]);
    } else {
        assert(all[rest.len() as int] == ns[i].commit->0);
    }
}

/// None of the first `n` links is drawn when each lacks a commit on the graph.
proof fn lemma_unloaded_links(ns: Seq<NodeView>, max_lane: usize, links: Seq<(Oid, Oid)>, n: nat)
    requires
        n <= links.len(),
        forall|k: int|
            0 <= k < links.len() ==> !trace::on_graph(ns, (#[trigger] links[k]).0) || !trace::on_graph(
                ns,
                links[k].1,
            ),
    ensures
        overlay::with_links(ns, max_lane, links, n) == (ns, max_lane),
    decreases n,
{
    if n > 0 {
        lemma_unloaded_links(ns, max_lane, links, (n - 1) as nat);
        assert(!trace::on_graph(ns, links[n - 1].0) || !trace::on_graph(ns, links[n - 1].1));
        law_unloaded_link_draws_nothing(ns, max_lane, links, n);
    }
}

/// Squash links only lie over the graph: with them it has the same rows, and each
/// row keeps everything but its cells. Links of which none has both its commits
/// loaded change nothing at all.
pub proof fn law_squash_links_are_an_overlay(
    sc: Scene,
    uncommitted: Option<Option<usize>>,
    links: Seq<(Oid, Oid)>,
)
    ensures
        ({
            let (bare, _) = layout::graph_of(sc, uncommitted, Seq::empty());
            let (linked, _) = layout::graph_of(sc, uncommitted, links);
            &&& linked.len() == bare.len()
            &&& forall|i: int|
                0 <= i < bare.len() ==> #[trigger] linked[i] == (NodeView {
                    cells: linked[i].cells,
                    cell_oids: linked[i].cell_oids,
                    ..bare[i]
                })
        }),
        (forall|k: int|
            0 <= k < links.len() ==> !(line::loaded(sc.cs, (#[trigger] links[k]).0) && line::loaded(
                sc.cs,
                links[k].1,
            ))) ==> layout::graph_of(sc, uncommitted, links) == layout::graph_of(
            sc,
            uncommitted,
            Seq::empty(),
        ),
{
    if sc.cs.len() > 0 {
        let (ns, max_lane) = layout::graph_of(sc, uncommitted, Seq::empty());
        law_no_links_no_change(sc, uncommitted);
        law_links_change_only_cells(ns, max_lane, links, links.len());
        if forall|k: int|
            0 <= k < links.len() ==> !(line::loaded(sc.cs, (#[trigger] links[k]).0) && line::loaded(
                sc.cs,
                links[k].1,
            )) {
            law_one_row_per_commit(sc, uncommitted, Seq::empty());
            assert forall|o: Oid| trace::on_graph(ns, o) implies line::loaded(sc.cs, o) by {
                let i = choose|i: int| 0 <= i < ns.len() && (#[trigger] ns[i]).oid() == Some(o);
                lemma_carried(ns, i);
                let k = choose|k: int| 0 <= k < sc.cs.len() && sc.cs[k] == ns[i].commit->0;
                assert(sc.cs[k].oid == o);
            }
            assert forall|k: int| 0 <= k < links.len() implies !trace::on_graph(
                ns,
                (#[trigger] links[k]).0,
            ) || !trace::on_graph(ns, links[k].1) by {}
            lemma_unloaded_links(ns, max_lane, links, links.len());
        }
    }
}

/// The lineage of a commit row holds that commit; that of any other row is
/// empty.
pub proof fn law_lineage_holds_its_commit(ns: Seq<NodeView>, row: int)
    ensures
        0 <= row < ns.len() && ns[row].commit is Some ==> trace::lineage(ns, row).contains(
            ns[row].commit->0.oid,
        ),
        !(0 <= row < ns.len() && ns[row].commit is Some) ==> trace::lineage(ns, row)
            == Set::<Oid>::empty(),
{
    if 0 <= row < ns.len() && ns[row].commit is Some {
        let sel = ns[row].commit->0.oid;
        let down = trace::trace_down(ns, set![sel], sel);
        lemma_trace_down_grows(ns, set![sel], sel);
        lemma_trace_up_grows(ns, down, sel);
        assert(set![sel].contains(sel));
    }
}

/// Everything on a lineage is drawn.
pub proof fn law_lineage_is_on_graph(ns: Seq<NodeView>, row: int, oid: Oid)
    requires
        trace::lineage(ns, row).contains(oid),
    ensures
        trace::on_graph(ns, oid),
{
    let sel = ns[row].commit->0.oid;
    assert(ns[row].oid() == Some(sel));
    assert forall|o: Oid| set![sel].contains(o) implies trace::on_graph(ns, o) by {
        assert(o == sel);
    }
    lemma_trace_down_drawn(ns, set![sel], sel);
    lemma_trace_up_drawn(ns, trace::trace_down(ns, set![sel], sel), sel);
}

spec fn all_drawn(ns: Seq<NodeView>, set: Set<Oid>) -> bool {
    forall|o: Oid| #[trigger] set.contains(o) ==> trace::on_graph(ns, o)
}

proof fn lemma_trace_down_drawn(ns: Seq<NodeView>, set: Set<Oid>, cur: Oid)
    requires
        all_drawn(ns, set),
    ensures
        all_drawn(ns, trace::trace_down(ns, set, cur)),
    decreases trace::rows_outside(ns, set),
{
    if let Some(p) = trace::drawn_first_parent(ns, cur) {
        if !set.contains(p) {
            trace::lemma_rows_outside_insert(ns, set, p);
            lemma_trace_down_drawn(ns, set.insert(p), p);
        }
    }
}

proof fn lemma_trace_up_drawn(ns: Seq<NodeView>, set: Set<Oid>, cur: Oid)
    requires
        all_drawn(ns, set),
    ensures
        all_drawn(ns, trace::trace_up(ns, set, cur)),
    decreases trace::rows_outside(ns, set),
{
    if let Some(ch) = trace::lane_child(ns, set, cur) {
        trace::lemma_lane_child(ns, set, cur);
        trace::lemma_rows_outside_insert(ns, set, ch);
        lemma_trace_up_drawn(ns, set.insert(ch), ch);
    }
}

/// Why an edge lights: both ends are on the traced line, or its parent is and
/// some row merges that parent in.
pub open spec fn lit_because(ns: Seq<NodeView>, on: Set<Oid>, edge: CellEdge) -> bool {
    on.contains(edge.1) && (on.contains(edge.0) || exists|i: int|
        0 <= i < ns.len() && (#[trigger] ns[i]).oid() == Some(edge.0) && trace::merges_in(
            ns,
            edge.1,
            i,
        ))
}

/// Tracing lights no edge for any other reason. In particular a branch's
/// lead-in stroke, whose child is off the line and whose parent is the child's
/// first, stays dark.
pub proof fn law_only_line_edges_light(ns: Seq<NodeView>, on: Set<Oid>, n: nat, edge: CellEdge)
    requires
        n <= ns.len(),
        trace::lit_rows(ns, on, n).dom().contains(edge),
    ensures
        lit_because(ns, on, edge),
    decreases n,
{
    if n > 0 {
        let rest = trace::lit_rows(ns, on, (n - 1) as nat);
        match ns[n - 1].commit {
            Some(c) => {
                let dot = if on.contains(c.oid) {
                    rest.insert((c.oid, c.oid), c.oid)
                } else {
                    rest
                };
                if rest.dom().contains(edge) {
                    law_only_line_edges_light(ns, on, (n - 1) as nat, edge);
                } else if !dot.dom().contains(edge) {
                    lemma_lit_parents(dot, c, on, c.parents.len(), edge);
                    if !on.contains(edge.0) {
                        let k = choose|k: int|
                            1 <= k < c.parents.len() && #[trigger] c.parents[k] == edge.1;
                        assert(ns[n - 1].commit->0.parents[k] == edge.1);
                        assert(trace::merges_in(ns, edge.1, n - 1));
                        assert(ns[n - 1].oid() == Some(edge.0));
                    }
                }
            },
            None => {
                law_only_line_edges_light(ns, on, (n - 1) as nat, edge);
            },
        }
    }
}

proof fn lemma_lit_parents(
    lit: Map<CellEdge, Oid>,
    c: CommitView,
    on: Set<Oid>,
    k: nat,
    edge: CellEdge,
)
    requires
        k <= c.parents.len(),
        trace::lit_parents(lit, c, on, k).dom().contains(edge),
        !lit.dom().contains(edge),
    ensures
        edge.0 == c.oid,
        on.contains(edge.1),
        on.contains(edge.0) || exists|j: int| 1 <= j < k && #[trigger] c.parents[j] == edge.1,
    decreases k,
{
    if k > 0 {
        let rest = trace::lit_parents(lit, c, on, (k - 1) as nat);
        if rest.dom().contains(edge) {
            lemma_lit_parents(lit, c, on, (k - 1) as nat, edge);
        } else {
            assert(edge == (c.oid, c.parents[k - 1]));
        }
    }
}

/// HEAD's star: on the row of the HEAD commit, and nowhere else.
pub open spec fn starred(head: Option<Oid>, n: NodeView) -> bool {
    n.is_head == (n.commit is Some && head == Some(n.commit->0.oid))
}

/// A commit's row is starred exactly if HEAD points at the commit, also when
/// HEAD is detached; no other row is.
pub proof fn law_head_is_starred(
    sc: Scene,
    uncommitted: Option<Option<usize>>,
    links: Seq<(Oid, Oid)>,
)
    ensures
        forall|i: int|
            0 <= i < layout::graph_of(sc, uncommitted, links).0.len() ==> starred(
                sc.head,
                #[trigger] layout::graph_of(sc, uncommitted, links).0[i],
            ),
{
    if sc.cs.len() > 0 {
        let w = Walk::after(sc, sc.cs.len());
        lemma_walk_starred(sc, sc.cs.len());
        let (nodes, max_lane) = match uncommitted {
            Some(count) => overlay::with_uncommitted(w.nodes, w.max_lane, sc.head, count),
            None => (w.nodes, w.max_lane),
        };
        assert forall|i: int| 0 <= i < nodes.len() implies starred(
            sc.head,
            #[trigger] nodes[i],
        ) by {
            if uncommitted is Some && sc.head is Some && overlay::first_row(
                w.nodes,
                sc.head->0,
            ) is Some {
                if i > 0 {
                    assert(starred(sc.head, w.nodes[i - 1]));
                }
            } else {
                assert(starred(sc.head, w.nodes[i]));
            }
        }
        law_links_change_only_cells(nodes, max_lane, links, links.len());
        let out = overlay::with_links(nodes, max_lane, links, links.len()).0;
        assert forall|i: int| 0 <= i < out.len() implies starred(sc.head, #[trigger] out[i]) by {
            assert(starred(sc.head, nodes[i]));
        }
    }
}

proof fn lemma_walk_starred(sc: Scene, n: nat)
    requires
        n <= sc.cs.len(),
    ensures
        forall|i: int|
            0 <= i < Walk::after(sc, n).nodes.len() ==> starred(
                sc.head,
                #[trigger] Walk::after(sc, n).nodes[i],
            ),
    decreases n,
{
    if n > 0 {
        lemma_walk_starred(sc, (n - 1) as nat);
        let w = Walk::after(sc, (n - 1) as nat);
        lemma_step_nodes(sc, w, n - 1);
        let s = Walk::after(sc, n);
        let pre = w.prepared(sc, n - 1).0;
        assert forall|i: int| 0 <= i < s.nodes.len() implies starred(
            sc.head,
            #[trigger] s.nodes[i],
        ) by {
            if i < pre.nodes.len() {
                assert(s.nodes[i] == pre.nodes[i]);
                if i < w.nodes.len() {
                    assert(pre.nodes[i] == w.nodes[i]) by {
                        if pre.nodes != w.nodes {
                            assert(pre.nodes.drop_last()[i] == w.nodes[i]);
                        }
                    }
                }
            }
        }
    }
}

/// What an overlay may do to a cell: fill an empty one or cross a pipe, which
/// stays visible and keeps its edge as the secondary one. Whatever it draws has
/// no primary edge, so tracing never lights it.
pub open spec fn overlaid(was: (CellType, CellOids), now: (CellType, CellOids)) -> bool {
    ||| now == was
    ||| was.0 == CellType::Empty && now.1 == (None::<CellEdge>, None::<CellEdge>)
    ||| (was.0 matches CellType::Pipe(p) && (now.0 matches CellType::HorizontalPipe(_, q) && q == p)
        && now.1 == (None::<CellEdge>, was.1.0))
}

/// The cell and the edges in column `col`.
pub open spec fn stroke_at(n: NodeView, col: int) -> (CellType, CellOids) {
    (
        overlay::cell_at(n, col),
        if 0 <= col < n.cell_oids.len() {
            n.cell_oids[col]
        } else {
            (None, None)
        },
    )
}

/// Like [`overlaid`], but a filled cell may keep the edges it had.
pub open spec fn connected_over(was: (CellType, CellOids), now: (CellType, CellOids)) -> bool {
    overlaid(was, now) || (was.0 == CellType::Empty && now.1 == was.1)
}

/// No cell of the row is severed by the uncommitted-changes connector.
pub open spec fn uncut(was: NodeView, now: NodeView) -> bool {
    forall|col: int| connected_over(stroke_at(was, col), #[trigger] stroke_at(now, col))
}

/// No cell of the row is severed by a link.
pub open spec fn unsevered(was: NodeView, now: NodeView) -> bool {
    forall|col: int| overlaid(stroke_at(was, col), #[trigger] stroke_at(now, col))
}

proof fn lemma_padded_strokes(n: NodeView, width: int, col: int)
    ensures
        stroke_at(overlay::padded(n, width), col) == stroke_at(n, col),
{
}

proof fn lemma_nearest_ok(ok: spec_fn(int) -> bool, dist: spec_fn(int) -> int, max: int)
    requires
        0 <= max <= usize::MAX,
    ensures
        overlay::nearest_lane(ok, dist, max) <= max,
        ok(overlay::nearest_lane(ok, dist, max) as int) || overlay::nearest_lane(ok, dist, max)
            == max,
{
    if exists|c: int| overlay::nearest(ok, dist, max, c) {
        let c = choose|c: int| overlay::nearest(ok, dist, max, c);
        assert(overlay::nearest(ok, dist, max, c));
    }
}

/// The uncommitted-changes connector severs no lane: on every row it only fills
/// empty cells and crosses pipes, which stay visible.
pub proof fn law_uncommitted_connector_severs_nothing(
    ns: Seq<NodeView>,
    max_lane: usize,
    head: Option<Oid>,
    count: Option<usize>,
)
    requires
        walk::shapely(ns, max_lane),
        max_lane < usize::MAX,
    ensures
        ({
            let out = overlay::with_uncommitted(ns, max_lane, head, count).0;
            if head is Some && overlay::first_row(ns, head->0) is Some {
                &&& out.len() == ns.len() + 1
                &&& forall|j: int| 1 <= j < out.len() ==> uncut(ns[j - 1], #[trigger] out[j])
            } else {
                out == ns
            }
        }),
{
    let (out, max) = overlay::with_uncommitted(ns, max_lane, head, count);
    if head is Some && overlay::first_row(ns, head->0) is Some {
        let h = overlay::first_row(ns, head->0)->0;
        let k = choose|k: int| overlay::carries_first(ns, head->0, k);
        assert(overlay::carries_first(ns, head->0, k));
        let home = ns[h].lane;
        let lane = overlay::uncommitted_lane(ns, max_lane, h);
        let ok = |c: int| overlay::column_free(ns, c, h + 1);
        let dist = |c: int| overlay::distance(c, home as int);
        lemma_nearest_ok(ok, dist, max_lane + 1);
        if lane != home {
            assert(overlay::cell_at(ns[h], 2 * lane) == CellType::Empty) by {
                if ok(lane as int) {
                    assert(overlay::column_free(ns, lane as int, h + 1));
                }
            }
        }
        let width = 2 * (max + 1);
        assert forall|j: int| 1 <= j < out.len() implies uncut(ns[j - 1], #[trigger] out[j]) by {
            let i = j - 1;
            let p = overlay::padded(ns[i], width);
            assert forall|col: int| connected_over(stroke_at(ns[i], col), #[trigger] stroke_at(
                out[j],
                col,
            )) by {
                lemma_padded_strokes(ns[i], width, col);
                assert(p.cells.len() == p.cell_oids.len());
            }
        }
    }
}

/// Squash links sever no lane: on every row they only fill empty cells and
/// cross pipes, which stay visible and traceable, and no link cell can be lit
/// by tracing.
pub proof fn law_links_sever_nothing(
    ns: Seq<NodeView>,
    max_lane: usize,
    links: Seq<(Oid, Oid)>,
    n: nat,
)
    requires
        n <= links.len(),
        walk::shapely(ns, max_lane),
        max_lane + n < usize::MAX,
    ensures
        ({
            let (out, max) = overlay::with_links(ns, max_lane, links, n);
            &&& out.len() == ns.len()
            &&& walk::shapely(out, max)
            &&& max <= max_lane + n
            &&& forall|i: int| 0 <= i < ns.len() ==> unsevered(ns[i], #[trigger] out[i])
        }),
    decreases n,
{
    if n > 0 {
        law_links_sever_nothing(ns, max_lane, links, (n - 1) as nat);
        let (mid, m) = overlay::with_links(ns, max_lane, links, (n - 1) as nat);
        let (out, max) = overlay::with_links(ns, max_lane, links, n);
        match (
            overlay::last_row(mid, links[n - 1].0),
            overlay::last_row(mid, links[n - 1].1),
        ) {
            (Some(r1), Some(r2)) => if r1 != r2 {
                let (tip, target) = links[n - 1];
                let k1 = choose|k: int| overlay::carries_last(mid, tip, k);
                assert(overlay::carries_last(mid, tip, k1));
                let k2 = choose|k: int| overlay::carries_last(mid, target, k);
                assert(overlay::carries_last(mid, target, k2));
                lemma_link_severs_nothing(mid, m, r1, r2);
            } else {
                assert forall|i: int| 0 <= i < mid.len() implies unsevered(
                    mid[i],
                    #[trigger] out[i],
                ) by {}
            },
            _ => {
                assert forall|i: int| 0 <= i < mid.len() implies unsevered(
                    mid[i],
                    #[trigger] out[i],
                ) by {}
            },
        }
        assert forall|i: int| 0 <= i < ns.len() implies unsevered(ns[i], #[trigger] out[i]) by {
            assert(unsevered(ns[i], mid[i]));
            assert(unsevered(mid[i], out[i]));
            assert forall|col: int| overlaid(stroke_at(ns[i], col), #[trigger] stroke_at(
                out[i],
                col,
            )) by {
                assert(overlaid(stroke_at(ns[i], col), stroke_at(mid[i], col)));
            }
        }
    } else {
        assert forall|i: int| 0 <= i < ns.len() implies unsevered(ns[i], #[trigger] ns[i]) by {}
    }
}

proof fn lemma_link_severs_nothing(ns: Seq<NodeView>, max_lane: usize, r1: int, r2: int)
    requires
        0 <= r1 < ns.len(),
        0 <= r2 < ns.len(),
        r1 != r2,
        walk::shapely(ns, max_lane),
        max_lane < usize::MAX,
    ensures
        ({
            let (out, max) = overlay::linked(ns, max_lane, r1, r2);
            &&& out.len() == ns.len()
            &&& walk::shapely(out, max)
            &&& max <= max_lane + 1
            &&& forall|i: int| 0 <= i < ns.len() ==> unsevered(ns[i], #[trigger] out[i])
        }),
{
    let (out, max) = overlay::linked(ns, max_lane, r1, r2);
    let u = if r1 < r2 {
        r1
    } else {
        r2
    };
    let l = if r1 < r2 {
        r2
    } else {
        r1
    };
    let lane = overlay::link_lane(ns, max_lane, u, l);
    let ok = |c: int| overlay::link_column(ns, u, l, c);
    let dist = |c: int|
        overlay::distance(c, ns[u].lane as int) + overlay::distance(c, ns[l].lane as int);
    lemma_nearest_ok(ok, dist, max_lane + 1);
    assert(lane != ns[u].lane ==> overlay::cell_at(ns[u], 2 * lane) == CellType::Empty) by {
        if ok(lane as int) {
            assert(overlay::link_column(ns, u, l, lane as int));
        }
    }
    assert(lane != ns[l].lane ==> overlay::cell_at(ns[l], 2 * lane) == CellType::Empty) by {
        if ok(lane as int) {
            assert(overlay::link_column(ns, u, l, lane as int));
        }
    }
    let width = 2 * (max + 1);
    assert forall|i: int| 0 <= i < ns.len() implies unsevered(ns[i], #[trigger] out[i]) by {
        let p = overlay::padded(ns[i], width);
        assert(out[i] == overlay::link_row(ns, u, l, lane, width, i));
        assert forall|col: int| overlaid(stroke_at(ns[i], col), #[trigger] stroke_at(
            out[i],
            col,
        )) by {
            lemma_padded_strokes(ns[i], width, col);
            assert(p.cells.len() == p.cell_oids.len());
        }
    }
    assert forall|i: int| 0 <= i < out.len() implies (#[trigger] out[i]).lane <= max
        && out[i].cells.len() == out[i].cell_oids.len() && out[i].cells.len() <= 2 * (max + 1) by {
        let p = overlay::padded(ns[i], width);
        assert(out[i] == overlay::link_row(ns, u, l, lane, width, i));
        assert(ns[i].lane <= max_lane);
        assert(out[i].cells.len() == p.cells.len());
        assert(out[i].cell_oids.len() == p.cell_oids.len());
    }
}

/// Both ends of an edge are loaded commits.
pub open spec fn edge_loaded(cs: Seq<CommitView>, edge: Option<CellEdge>) -> bool {
    edge is Some ==> line::loaded(cs, (edge->0).0) && line::loaded(cs, (edge->0).1)
}

/// Both edges of a cell are between loaded commits.
pub open spec fn oids_loaded(cs: Seq<CommitView>, oids: CellOids) -> bool {
    edge_loaded(cs, oids.0) && edge_loaded(cs, oids.1)
}

/// Every edge that a row draws is between loaded commits.
pub open spec fn row_loaded(cs: Seq<CommitView>, n: NodeView) -> bool {
    forall|k: int| 0 <= k < n.cell_oids.len() ==> oids_loaded(cs, #[trigger] n.cell_oids[k])
}

spec fn slots_loaded(cs: Seq<CommitView>, slots: Seq<Option<Oid>>) -> bool {
    forall|i: int| 0 <= i < slots.len() && (#[trigger] slots[i]) is Some ==> line::loaded(
        cs,
        slots[i]->0,
    )
}

spec fn lanes_loaded(cs: Seq<CommitView>, w: Walk) -> bool {
    slots_loaded(cs, w.lanes) && slots_loaded(cs, w.children)
}

spec fn rows_loaded(cs: Seq<CommitView>, ns: Seq<NodeView>) -> bool {
    forall|i: int| 0 <= i < ns.len() ==> row_loaded(cs, #[trigger] ns[i])
}

spec fn links_loaded(cs: Seq<CommitView>, links: Seq<ParentLink>) -> bool {
    forall|i: int| 0 <= i < links.len() ==> line::loaded(cs, (#[trigger] links[i]).oid)
}

proof fn lemma_row_cell_loaded(
    cs: Seq<CommitView>,
    w: Walk,
    lane: usize,
    color: usize,
    oid: Oid,
    links: Seq<ParentLink>,
    n: nat,
    col: int,
)
    requires
        lanes_loaded(cs, w),
        line::loaded(cs, oid),
        links_loaded(cs, links),
        n <= links.len(),
    ensures
        oids_loaded(cs, cells::row_cell(w.view(), lane, color, oid, links, n, col).1),
    decreases n,
{
    if n > 0 {
        lemma_row_cell_loaded(cs, w, lane, color, oid, links, (n - 1) as nat, col);
        assert(line::loaded(cs, links[n - 1].oid));
    }
}

proof fn lemma_fork_cell_loaded(
    cs: Seq<CommitView>,
    w: Walk,
    main: usize,
    color: usize,
    oid: Oid,
    m: Seq<(usize, usize)>,
    n: nat,
    col: int,
)
    requires
        lanes_loaded(cs, w),
        line::loaded(cs, oid),
        n <= m.len(),
    ensures
        oids_loaded(cs, cells::fork_cell(w.view(), main, color, oid, m, n, col).1),
    decreases n,
{
    if n > 0 {
        lemma_fork_cell_loaded(cs, w, main, color, oid, m, (n - 1) as nat, col);
    }
}

proof fn lemma_parents_loaded(sc: Scene, row: int)
    ensures
        forall|i: int|
            0 <= i < sc.parents(row).len() ==> line::loaded(sc.cs, #[trigger] sc.parents(row)[i]),
{
    let keep = |p: Oid| line::loaded(sc.cs, p);
    assert forall|i: int| 0 <= i < sc.parents(row).len() implies line::loaded(
        sc.cs,
        #[trigger] sc.parents(row)[i],
    ) by {
        sc.cs[row].parents.lemma_filter_pred(keep, i);
    }
}

proof fn lemma_placed_loaded(
    sc: Scene,
    row: int,
    oid: Oid,
    lane: usize,
    color: usize,
    w: Walk,
    parents: Seq<Oid>,
    n: nat,
)
    requires
        lanes_loaded(sc.cs, w),
        line::loaded(sc.cs, oid),
        w.lanes.len() == w.children.len(),
        lane < w.lanes.len(),
        w.lanes.len() + n < usize::MAX,
        n <= parents.len(),
        forall|i: int| 0 <= i < parents.len() ==> line::loaded(sc.cs, #[trigger] parents[i]),
    ensures
        lanes_loaded(sc.cs, walk::placed(sc, row, oid, lane, color, w, parents, n).walk),
        links_loaded(sc.cs, walk::placed(sc, row, oid, lane, color, w, parents, n).links),
    decreases n,
{
    if n > 0 {
        lemma_placed_loaded(sc, row, oid, lane, color, w, parents, (n - 1) as nat);
        lemma_placed_lanes(sc, row, oid, lane, color, w, parents, (n - 1) as nat);
        let q = walk::placed(sc, row, oid, lane, color, w, parents, (n - 1) as nat);
        assert(line::loaded(sc.cs, parents[n - 1]));
        lemma_opened(q.walk.lanes, sc.zero_ok(parents[n - 1]));
    }
}

proof fn lemma_settled_loaded(
    sc: Scene,
    row: int,
    lane: usize,
    w: Walk,
    links: Seq<ParentLink>,
)
    requires
        lanes_loaded(sc.cs, w),
        lane < w.lanes.len() == w.children.len(),
        forall|i: int| 0 <= i < links.len() ==> (#[trigger] links[i]).lane < w.lanes.len(),
    ensures
        lanes_loaded(sc.cs, walk::settled(sc, row, lane, w, links)),
{
    if walk::crossed_lane(links, lane) is Some {
        let k = choose|k: int| walk::crosses_first(links, lane, k);
        assert(walk::crosses_first(links, lane, k));
        assert(links[k].lane < w.lanes.len());
    }
}

pub proof fn lemma_opened(lanes: Seq<Option<Oid>>, zero_ok: bool)
    requires
        lanes.len() <= usize::MAX,
    ensures
        walk::opened(lanes, zero_ok) <= lanes.len(),
        walk::opened(lanes, zero_ok) == 0 && lanes.len() > 0 ==> zero_ok,
        walk::opened(lanes, zero_ok) < lanes.len() ==> lanes[walk::opened(
            lanes,
            zero_ok,
        ) as int] is None,
{
    if exists|i: int| walk::free_first(lanes, zero_ok, i) {
        let i = choose|i: int| walk::free_first(lanes, zero_ok, i);
        assert(walk::free_first(lanes, zero_ok, i));
    }
}

pub proof fn lemma_awaiting(lanes: Seq<Option<Oid>>, oid: Oid)
    requires
        lanes.len() <= usize::MAX,
    ensures
        walk::awaiting(lanes, oid) is Some ==> walk::awaits_first(
            lanes,
            oid,
            walk::awaiting(lanes, oid)->0 as int,
        ),
        walk::awaiting(lanes, oid) is None ==> forall|i: int|
            0 <= i < lanes.len() ==> lanes[i] != Some(oid),
{
    if walk::awaiting(lanes, oid) is Some {
        let i = choose|i: int| walk::awaits_first(lanes, oid, i);
        assert(walk::awaits_first(lanes, oid, i));
    } else if exists|i: int| 0 <= i < lanes.len() && lanes[i] == Some(oid) {
        let i = choose|i: int| 0 <= i < lanes.len() && lanes[i] == Some(oid);
        lemma_first_awaiting(lanes, oid, i);
    }
}

proof fn lemma_first_awaiting(lanes: Seq<Option<Oid>>, oid: Oid, i: int)
    requires
        0 <= i < lanes.len(),
        lanes[i] == Some(oid),
    ensures
        exists|k: int| walk::awaits_first(lanes, oid, k),
    decreases i,
{
    if exists|j: int| 0 <= j < i && lanes[j] == Some(oid) {
        let j = choose|j: int| 0 <= j < i && lanes[j] == Some(oid);
        lemma_first_awaiting(lanes, oid, j);
    } else {
        assert(walk::awaits_first(lanes, oid, i));
    }
}

pub proof fn lemma_placed_lanes(
    sc: Scene,
    row: int,
    oid: Oid,
    lane: usize,
    color: usize,
    w: Walk,
    parents: Seq<Oid>,
    n: nat,
)
    requires
        w.lanes.len() == w.children.len(),
        lane < w.lanes.len(),
        n <= parents.len(),
        w.lanes.len() + n < usize::MAX,
    ensures
        ({
            let p = walk::placed(sc, row, oid, lane, color, w, parents, n);
            &&& p.walk.lanes.len() == p.walk.children.len()
            &&& w.lanes.len() <= p.walk.lanes.len() <= w.lanes.len() + n
            &&& p.links.len() == n
            &&& forall|i: int|
                0 <= i < p.links.len() ==> (#[trigger] p.links[i]).lane < p.walk.lanes.len()
        }),
    decreases n,
{
    if n > 0 {
        lemma_placed_lanes(sc, row, oid, lane, color, w, parents, (n - 1) as nat);
        let q = walk::placed(sc, row, oid, lane, color, w, parents, (n - 1) as nat);
        let p = walk::placed(sc, row, oid, lane, color, w, parents, n);
        lemma_awaiting(q.walk.lanes, parents[n - 1]);
        lemma_opened(q.walk.lanes, sc.zero_ok(parents[n - 1]));
        assert forall|i: int| 0 <= i < p.links.len() implies (#[trigger] p.links[i]).lane
            < p.walk.lanes.len() by {
            if i < q.links.len() {
                assert(p.links[i] == q.links[i]);
            }
        }
    }
}

/// The walk is within its lane budget.
pub open spec fn within(sc: Scene, w: Walk, n: nat) -> bool {
    w.lanes.len() == w.children.len() && w.lanes.len() <= walk::lane_budget(sc.cs, n)
}

pub proof fn lemma_budget_monotone(cs: Seq<CommitView>, n: nat, m: nat)
    requires
        n <= m,
    ensures
        walk::lane_budget(cs, n) <= walk::lane_budget(cs, m),
    decreases m - n,
{
    if n < m {
        lemma_budget_monotone(cs, n, (m - 1) as nat);
    }
}

/// What a step does to the lanes, stage by stage.
pub proof fn lemma_step_lanes(sc: Scene, w: Walk, row: int)
    requires
        0 <= row < sc.cs.len(),
        within(sc, w, row as nat),
        walk::lane_budget(sc.cs, sc.cs.len()) < usize::MAX,
    ensures
        ({
            let (pre, lane, color) = w.prepared(sc, row);
            let p = w.connected(sc, row);
            &&& within(sc, w.step(sc, row), (row + 1) as nat)
            &&& lane < pre.lanes.len() == pre.children.len()
            &&& pre.lanes.len() <= w.lanes.len() + 1
            &&& p.walk.lanes.len() == p.walk.children.len()
            &&& lane < p.walk.lanes.len()
            &&& forall|i: int|
                0 <= i < p.links.len() ==> (#[trigger] p.links[i]).lane < p.walk.lanes.len()
        }),
{
    let oid = sc.cs[row].oid;
    lemma_budget_monotone(sc.cs, (row + 1) as nat, sc.cs.len());
    let next = Walk { colors: w.colors.next_row(), ..w };
    lemma_awaiting(next.lanes, oid);
    lemma_opened(next.lanes, sc.zero_ok(oid));
    let (pre, lane, color) = w.prepared(sc, row);
    let parents = sc.parents(row);
    sc.cs[row].parents.lemma_filter_len(|p: Oid| line::loaded(sc.cs, p));
    let start = if parents.len() >= 2 {
        Walk { colors: pre.colors.forking(), ..pre }
    } else {
        pre
    };
    lemma_placed_lanes(sc, row, oid, lane, color, start, parents, parents.len());
}

proof fn lemma_step_loaded(sc: Scene, w: Walk, row: int)
    requires
        0 <= row < sc.cs.len(),
        within(sc, w, row as nat),
        walk::lane_budget(sc.cs, sc.cs.len()) < usize::MAX,
        lanes_loaded(sc.cs, w),
        rows_loaded(sc.cs, w.nodes),
    ensures
        lanes_loaded(sc.cs, w.step(sc, row)),
        rows_loaded(sc.cs, w.step(sc, row).nodes),
{
    let oid = sc.cs[row].oid;
    assert(line::loaded(sc.cs, oid));
    lemma_step_lanes(sc, w, row);
    lemma_step_nodes(sc, w, row);
    let (pre, lane, color) = w.prepared(sc, row);
    let next = Walk { colors: w.colors.next_row(), ..w };
    let seated = next.seated(lane);
    assert(lanes_loaded(sc.cs, seated));
    let j = seated.joined(oid, lane);
    let m = seated.merging(oid, lane, seated.lanes.len());
    assert(lanes_loaded(sc.cs, j));
    assert(rows_loaded(sc.cs, j.nodes)) by {
        if m.len() > 0 {
            let c = cells::lane_color(seated.lane_colors, seated.oid_colors, lane, oid);
            let n = j.nodes.last();
            assert forall|k: int| 0 <= k < n.cell_oids.len() implies oids_loaded(
                sc.cs,
                #[trigger] n.cell_oids[k],
            ) by {
                lemma_fork_cell_loaded(sc.cs, seated, lane, c, oid, m, m.len(), k);
            }
            assert forall|i: int| 0 <= i < j.nodes.len() implies row_loaded(
                sc.cs,
                #[trigger] j.nodes[i],
            ) by {
                if i < w.nodes.len() {
                    assert(j.nodes[i] == w.nodes[i]);
                }
            }
        }
    }
    assert(lanes_loaded(sc.cs, pre));
    let parents = sc.parents(row);
    let start = if parents.len() >= 2 {
        Walk { colors: pre.colors.forking(), ..pre }
    } else {
        pre
    };
    lemma_parents_loaded(sc, row);
    lemma_budget_monotone(sc.cs, (row + 1) as nat, sc.cs.len());
    sc.cs[row].parents.lemma_filter_len(|p: Oid| line::loaded(sc.cs, p));
    lemma_placed_loaded(sc, row, oid, lane, color, start, parents, parents.len());
    let p = w.connected(sc, row);
    let node = walk::commit_node(sc, row, lane, color, p);
    let shade = node.color_index;
    assert(row_loaded(sc.cs, node)) by {
        assert forall|k: int| 0 <= k < node.cell_oids.len() implies oids_loaded(
            sc.cs,
            #[trigger] node.cell_oids[k],
        ) by {
            lemma_row_cell_loaded(
                sc.cs,
                p.walk,
                lane,
                shade,
                oid,
                p.links,
                p.links.len(),
                k,
            );
        }
    }
    lemma_settled_loaded(sc, row, lane, p.walk, p.links);
    let s = w.step(sc, row);
    assert forall|i: int| 0 <= i < s.nodes.len() implies row_loaded(
        sc.cs,
        #[trigger] s.nodes[i],
    ) by {
        if i < pre.nodes.len() {
            assert(s.nodes[i] == j.nodes[i]);
        }
    }
}

proof fn lemma_after_loaded(sc: Scene, n: nat)
    requires
        n <= sc.cs.len(),
        walk::lane_budget(sc.cs, sc.cs.len()) < usize::MAX,
    ensures
        within(sc, Walk::after(sc, n), n),
        lanes_loaded(sc.cs, Walk::after(sc, n)),
        rows_loaded(sc.cs, Walk::after(sc, n).nodes),
    decreases n,
{
    if n > 0 {
        lemma_after_loaded(sc, (n - 1) as nat);
        lemma_step_lanes(sc, Walk::after(sc, (n - 1) as nat), n - 1);
        lemma_step_loaded(sc, Walk::after(sc, (n - 1) as nat), n - 1);
    }
}

proof fn lemma_unsevered_loaded(cs: Seq<CommitView>, was: NodeView, now: NodeView)
    requires
        row_loaded(cs, was),
        unsevered(was, now) || uncut(was, now),
    ensures
        row_loaded(cs, now),
{
    assert forall|k: int| 0 <= k < now.cell_oids.len() implies oids_loaded(
        cs,
        #[trigger] now.cell_oids[k],
    ) by {
        assert(connected_over(stroke_at(was, k), stroke_at(now, k)));
        if 0 <= k < was.cell_oids.len() {
            assert(oids_loaded(cs, was.cell_oids[k]));
        }
    }
}

/// No stroke of the graph leads to a commit that is not loaded: parents below
/// the loaded window never appear in an edge.
pub proof fn law_edges_join_loaded_commits(
    sc: Scene,
    uncommitted: Option<Option<usize>>,
    links: Seq<(Oid, Oid)>,
)
    requires
        layout::addressable(sc, links.len()),
    ensures
        forall|i: int|
            0 <= i < layout::graph_of(sc, uncommitted, links).0.len() ==> row_loaded(
                sc.cs,
                #[trigger] layout::graph_of(sc, uncommitted, links).0[i],
            ),
{
    if sc.cs.len() > 0 {
        let w = Walk::after(sc, sc.cs.len());
        lemma_after_loaded(sc, sc.cs.len());
        walk::lemma_after_shapely(sc, sc.cs.len());
        lemma_max_lane(sc, sc.cs.len());
        let (nodes, max_lane) = match uncommitted {
            Some(count) => overlay::with_uncommitted(w.nodes, w.max_lane, sc.head, count),
            None => (w.nodes, w.max_lane),
        };
        if uncommitted is Some {
            law_uncommitted_connector_severs_nothing(
                w.nodes,
                w.max_lane,
                sc.head,
                uncommitted->0,
            );
            overlay::lemma_uncommitted_shapely(w.nodes, w.max_lane, sc.head, uncommitted->0);
            lemma_uncommitted_width(w.nodes, w.max_lane, sc.head, uncommitted->0);
        }
        assert forall|i: int| 0 <= i < nodes.len() implies row_loaded(
            sc.cs,
            #[trigger] nodes[i],
        ) by {
            if uncommitted is Some && sc.head is Some && overlay::first_row(
                w.nodes,
                sc.head->0,
            ) is Some {
                if i > 0 {
                    lemma_unsevered_loaded(sc.cs, w.nodes[i - 1], nodes[i]);
                }
            } else {
                assert(row_loaded(sc.cs, w.nodes[i]));
            }
        }
        law_links_sever_nothing(nodes, max_lane, links, links.len());
        let out = overlay::with_links(nodes, max_lane, links, links.len()).0;
        assert forall|i: int| 0 <= i < out.len() implies row_loaded(sc.cs, #[trigger] out[i]) by {
            lemma_unsevered_loaded(sc.cs, nodes[i], out[i]);
        }
    }
}

proof fn lemma_uncommitted_width(
    ns: Seq<NodeView>,
    max_lane: usize,
    head: Option<Oid>,
    count: Option<usize>,
)
    requires
        walk::shapely(ns, max_lane),
        max_lane < usize::MAX,
    ensures
        overlay::with_uncommitted(ns, max_lane, head, count).1 <= max_lane + 1,
{
    if head is Some && overlay::first_row(ns, head->0) is Some {
        let h = overlay::first_row(ns, head->0)->0;
        let k = choose|k: int| overlay::carries_first(ns, head->0, k);
        assert(overlay::carries_first(ns, head->0, k));
        let home = ns[h].lane;
        let ok = |c: int| overlay::column_free(ns, c, h + 1);
        let dist = |c: int| overlay::distance(c, home as int);
        lemma_nearest_ok(ok, dist, max_lane + 1);
    }
}

proof fn lemma_max_lane(sc: Scene, n: nat)
    requires
        n <= sc.cs.len(),
        walk::lane_budget(sc.cs, sc.cs.len()) < usize::MAX,
    ensures
        Walk::after(sc, n).max_lane <= walk::lane_budget(sc.cs, n),
    decreases n,
{
    if n > 0 {
        lemma_max_lane(sc, (n - 1) as nat);
        lemma_after_loaded(sc, (n - 1) as nat);
        let w = Walk::after(sc, (n - 1) as nat);
        let row = n - 1;
        lemma_step_lanes(sc, w, row);
        lemma_step_nodes(sc, w, row);
        let oid = sc.cs[row].oid;
        let (pre, lane, color) = w.prepared(sc, row);
        let next = Walk { colors: w.colors.next_row(), ..w };
        let seated = next.seated(lane);
        let m = seated.merging(oid, lane, seated.lanes.len());
        lemma_budget_monotone(sc.cs, n, sc.cs.len());
        walk::lemma_merging(seated, oid, lane, seated.lanes.len());
        let of_merging = m.map_values(|p: (usize, usize)| p.0).push(lane);
        walk::lemma_widest(seated.max_lane, of_merging);
        if m.len() > 0 && pre.max_lane != seated.max_lane {
            let k = choose|k: int|
                0 <= k < of_merging.len() && #[trigger] of_merging[k] == pre.max_lane;
            if k < m.len() {
                assert(of_merging[k] == m[k].0);
            }
        }
        let p = w.connected(sc, row);
        let parents = sc.parents(row);
        let start = if parents.len() >= 2 {
            Walk { colors: pre.colors.forking(), ..pre }
        } else {
            pre
        };
        walk::lemma_placed_frame(sc, row, oid, lane, color, start, parents, parents.len());
        let base = if lane > pre.max_lane {
            lane
        } else {
            pre.max_lane
        };
        let of_links = p.links.map_values(|l: ParentLink| l.lane);
        walk::lemma_widest(base, of_links);
        if p.walk.max_lane != base {
            let k = choose|k: int|
                0 <= k < of_links.len() && #[trigger] of_links[k] == p.walk.max_lane;
            assert(of_links[k] == p.links[k].lane);
        }
        assert(p.walk.lanes.len() <= walk::lane_budget(sc.cs, n)) by {
            assert(w.step(sc, row).lanes.len() == p.walk.lanes.len());
        }
    }
}

/// No two commits of the list share an id.
pub open spec fn distinct(cs: Seq<CommitView>) -> bool {
    forall|i: int, j: int|
        0 <= i < cs.len() && 0 <= j < cs.len() && (#[trigger] cs[i]).oid == (
        #[trigger] cs[j]).oid ==> i == j
}

/// Parents come below their children.
pub open spec fn ordered(cs: Seq<CommitView>) -> bool {
    forall|i: int, k: int, j: int|
        0 <= i < cs.len() && 0 <= k < cs[i].parents.len() && 0 <= j < cs.len()
            && #[trigger] cs[i].parents[k] == (#[trigger] cs[j]).oid ==> i < j
}

/// Where a commit of HEAD's line has a loaded parent, its first parent is
/// loaded. It is not for a merge at the lower edge of the loaded window whose
/// first parent is cut off.
pub open spec fn line_unbroken(sc: Scene) -> bool {
    forall|i: int|
        0 <= i < sc.cs.len() && sc.line().contains((#[trigger] sc.cs[i]).oid) && sc.parents(
            i,
        ).len() > 0 ==> line::loaded(sc.cs, sc.cs[i].parents[0])
}

/// The loaded first parent of everything on `line` is `cur` or on `line`.
spec fn closed_but(cs: Seq<CommitView>, line: Set<Oid>, cur: Oid) -> bool {
    forall|o: Oid| #[trigger]
        line.contains(o) && line::loaded_first_parent(cs, o) is Some ==> (
        line::loaded_first_parent(cs, o)->0 == cur || line.contains(
            line::loaded_first_parent(cs, o)->0,
        ))
}

spec fn closed(cs: Seq<CommitView>, line: Set<Oid>) -> bool {
    forall|o: Oid| #[trigger]
        line.contains(o) && line::loaded_first_parent(cs, o) is Some ==> line.contains(
            line::loaded_first_parent(cs, o)->0,
        )
}

proof fn lemma_down_closed(cs: Seq<CommitView>, line: Set<Oid>, cur: Oid)
    requires
        closed_but(cs, line, cur),
        line::loaded(cs, cur),
    ensures
        closed(cs, line::line_down(cs, line, cur)),
        line.subset_of(line::line_down(cs, line, cur)),
        line::line_down(cs, line, cur).contains(cur),
    decreases line::outside(cs, line),
{
    if !line.contains(cur) {
        line::lemma_outside_insert(cs, line, cur);
        if let Some(p) = line::loaded_first_parent(cs, cur) {
            lemma_down_closed(cs, line.insert(cur), p);
        }
    }
}

proof fn lemma_up_closed(cs: Seq<CommitView>, line: Set<Oid>, cur: Oid)
    requires
        distinct(cs),
        cs.len() <= usize::MAX,
        closed(cs, line),
        line.contains(cur),
    ensures
        closed(cs, line::line_up(cs, line, cur)),
        line.subset_of(line::line_up(cs, line, cur)),
    decreases line::outside(cs, line),
{
    if let Some(ch) = line::continuation(cs, line, cur) {
        let k = choose|k: int| line::continues_first(cs, line, cur, k);
        assert(line::continues_first(cs, line, cur, k));
        assert(cs[k].oid == ch);
        line::lemma_outside_insert(cs, line, ch);
        line::lemma_rows(cs, ch);
        assert(line::rows(cs)[ch] == k);
        lemma_up_closed(cs, line.insert(ch), ch);
    }
}

/// HEAD's line holds HEAD and the loaded first parents of its commits.
pub proof fn law_head_line_is_first_parent_closed(sc: Scene, i: int)
    requires
        distinct(sc.cs),
        sc.cs.len() <= usize::MAX,
        0 <= i < sc.cs.len(),
        sc.line().contains(sc.cs[i].oid),
        sc.cs[i].parents.len() > 0,
        line::loaded(sc.cs, sc.cs[i].parents[0]),
    ensures
        sc.line().contains(sc.cs[i].parents[0]),
{
    let cs = sc.cs;
    let head = sc.head->0;
    lemma_down_closed(cs, Set::empty(), head);
    lemma_up_closed(cs, line::line_down(cs, Set::empty(), head), head);
    line::lemma_rows(cs, cs[i].oid);
    assert(line::rows(cs)[cs[i].oid] == i);
    assert(line::loaded_first_parent(cs, cs[i].oid) == Some(cs[i].parents[0]));
}

/// Lane 0 awaits only commits of HEAD's line, and no lane awaits a commit whose
/// row is above `row`.
spec fn anchored(sc: Scene, w: Walk, row: int) -> bool {
    &&& w.lanes.len() == w.children.len()
    &&& w.lanes.len() >= 1
    &&& w.lanes[0] is Some ==> sc.line().contains(w.lanes[0]->0)
    &&& forall|i: int|
        0 <= i < w.lanes.len() && (#[trigger] w.lanes[i]) is Some ==> line::loaded(
            sc.cs,
            w.lanes[i]->0,
        ) && line::rows(sc.cs)[w.lanes[i]->0] >= row
}

proof fn lemma_placed_anchored(
    sc: Scene,
    row: int,
    lane: usize,
    color: usize,
    w: Walk,
    n: nat,
)
    requires
        0 <= row < sc.cs.len() <= usize::MAX,
        distinct(sc.cs),
        ordered(sc.cs),
        sc.reserved(),
        line_unbroken(sc),
        anchored(sc, w, row + 1),
        lane < w.lanes.len(),
        lane == 0 ==> sc.line().contains(sc.cs[row].oid),
        n <= sc.parents(row).len(),
        w.lanes.len() + n < usize::MAX,
    ensures
        anchored(
            sc,
            walk::placed(sc, row, sc.cs[row].oid, lane, color, w, sc.parents(row), n).walk,
            row + 1,
        ),
    decreases n,
{
    if n > 0 {
        let oid = sc.cs[row].oid;
        let parents = sc.parents(row);
        lemma_placed_anchored(sc, row, lane, color, w, (n - 1) as nat);
        lemma_placed_lanes(sc, row, oid, lane, color, w, parents, (n - 1) as nat);
        let q = walk::placed(sc, row, oid, lane, color, w, parents, (n - 1) as nat);
        let parent = parents[n - 1];
        lemma_parents_loaded(sc, row);
        assert(line::loaded(sc.cs, parent));
        lemma_opened(q.walk.lanes, sc.zero_ok(parent));
        lemma_parent_below(sc, row, n - 1);
        if n == 1 && lane == 0 {
            lemma_first_of_line(sc, row);
        }
    }
}

pub proof fn lemma_parent_below(sc: Scene, row: int, i: int)
    requires
        0 <= row < sc.cs.len() <= usize::MAX,
        ordered(sc.cs),
        0 <= i < sc.parents(row).len(),
    ensures
        line::loaded(sc.cs, sc.parents(row)[i]),
        line::rows(sc.cs)[sc.parents(row)[i]] > row,
{
    let p = sc.parents(row)[i];
    let keep = |p: Oid| line::loaded(sc.cs, p);
    sc.cs[row].parents.lemma_filter_pred(keep, i);
    assert(keep(p));
    line::lemma_rows(sc.cs, p);
    let j = line::rows(sc.cs)[p] as int;
    assert(sc.cs[row].parents.contains(p)) by {
        assert(sc.cs[row].parents.filter(keep)[i] == p);
        sc.cs[row].parents.lemma_filter_contains_rev(keep, p);
    }
    let k = choose|k: int| 0 <= k < sc.cs[row].parents.len() && sc.cs[row].parents[k] == p;
    assert(sc.cs[row].parents[k] == sc.cs[j].oid);
}

/// The first loaded parent of a commit on an unbroken line is on the line.
proof fn lemma_first_of_line(sc: Scene, row: int)
    requires
        0 <= row < sc.cs.len() <= usize::MAX,
        distinct(sc.cs),
        line_unbroken(sc),
        sc.line().contains(sc.cs[row].oid),
        sc.parents(row).len() > 0,
    ensures
        sc.line().contains(sc.parents(row)[0]),
{
    let ps = sc.cs[row].parents;
    let keep = |p: Oid| line::loaded(sc.cs, p);
    assert(line::loaded(sc.cs, ps[0]));
    lemma_filter_first(ps, keep);
    law_head_line_is_first_parent_closed(sc, row);
}

proof fn lemma_filter_first(s: Seq<Oid>, keep: spec_fn(Oid) -> bool)
    requires
        s.len() > 0,
        keep(s[0]),
    ensures
        s.filter(keep).len() > 0,
        s.filter(keep)[0] == s[0],
    decreases s.len(),
{
    reveal(Seq::filter);
    if s.len() > 1 {
        lemma_filter_first(s.drop_last(), keep);
    } else {
        assert(s.drop_last() =~= Seq::empty());
        assert(s.drop_last().filter(keep) =~= Seq::empty());
    }
}

proof fn lemma_step_anchored(sc: Scene, w: Walk, row: int)
    requires
        0 <= row < sc.cs.len() <= usize::MAX,
        distinct(sc.cs),
        ordered(sc.cs),
        sc.reserved(),
        line_unbroken(sc),
        within(sc, w, row as nat),
        walk::lane_budget(sc.cs, sc.cs.len()) < usize::MAX,
        anchored(sc, w, row),
    ensures
        anchored(sc, w.step(sc, row), row + 1),
        w.prepared(sc, row).1 == 0 ==> sc.line().contains(sc.cs[row].oid),
{
    let oid = sc.cs[row].oid;
    lemma_budget_monotone(sc.cs, (row + 1) as nat, sc.cs.len());
    lemma_step_lanes(sc, w, row);
    let (pre, lane, color) = w.prepared(sc, row);
    let next = Walk { colors: w.colors.next_row(), ..w };
    lemma_awaiting(next.lanes, oid);
    lemma_opened(next.lanes, sc.zero_ok(oid));
    assert(lane == 0 ==> sc.line().contains(oid));
    let seated = next.seated(lane);
    let j = seated.joined(oid, lane);
    let m = seated.merging(oid, lane, seated.lanes.len());
    walk::lemma_merging(seated, oid, lane, seated.lanes.len());
    line::lemma_rows(sc.cs, oid);
    assert(line::rows(sc.cs)[oid] == row);
    assert forall|i: int| 0 <= i < pre.lanes.len() && (#[trigger] pre.lanes[i]) is Some implies
        line::loaded(sc.cs, pre.lanes[i]->0) && line::rows(sc.cs)[pre.lanes[i]->0] >= row + 1 by {
        assert(i != lane);
        assert(pre.lanes[i] == j.lanes[i]);
        assert(j.lanes[i] == seated.lanes[i]);
        assert(seated.lanes[i] != Some(oid));
        assert(i < w.lanes.len());
        let o = w.lanes[i]->0;
        assert(w.lanes[i] is Some);
        line::lemma_rows(sc.cs, o);
    }
    assert(anchored(sc, pre, row + 1));
    let parents = sc.parents(row);
    sc.cs[row].parents.lemma_filter_len(|p: Oid| line::loaded(sc.cs, p));
    let start = if parents.len() >= 2 {
        Walk { colors: pre.colors.forking(), ..pre }
    } else {
        pre
    };
    lemma_placed_anchored(sc, row, lane, color, start, parents.len());
    let p = w.connected(sc, row);
    let s = walk::settled(sc, row, lane, p.walk, p.links);
    if walk::crossed_lane(p.links, lane) is Some {
        let k = choose|k: int| walk::crosses_first(p.links, lane, k);
        assert(walk::crosses_first(p.links, lane, k));
        let other = p.links[k].lane;
        let end = if other < lane {
            lane
        } else {
            other
        };
        let held = p.walk.lanes[end as int];
        if held is Some {
            line::lemma_rows(sc.cs, held->0);
        }
    }
}

proof fn lemma_after_anchored(sc: Scene, n: nat)
    requires
        n <= sc.cs.len() <= usize::MAX,
        distinct(sc.cs),
        ordered(sc.cs),
        sc.reserved(),
        line_unbroken(sc),
        walk::lane_budget(sc.cs, sc.cs.len()) < usize::MAX,
    ensures
        anchored(sc, Walk::after(sc, n), n as int),
        forall|i: int|
            0 <= i < Walk::after(sc, n).nodes.len() ==> lane_zero_is_heads(
                sc,
                #[trigger] Walk::after(sc, n).nodes[i],
            ),
    decreases n,
{
    if n > 0 {
        lemma_after_anchored(sc, (n - 1) as nat);
        lemma_after_loaded(sc, (n - 1) as nat);
        let w = Walk::after(sc, (n - 1) as nat);
        lemma_step_anchored(sc, w, n - 1);
        lemma_step_nodes(sc, w, n - 1);
        let pre = w.prepared(sc, n - 1).0;
        let s = Walk::after(sc, n);
        assert forall|i: int| 0 <= i < s.nodes.len() implies lane_zero_is_heads(
            sc,
            #[trigger] s.nodes[i],
        ) by {
            if i < w.nodes.len() {
                assert(s.nodes[i] == w.nodes[i]) by {
                    assert(s.nodes[i] == pre.nodes[i]);
                    if pre.nodes != w.nodes {
                        assert(pre.nodes.drop_last()[i] == w.nodes[i]);
                    }
                }
            } else if i < pre.nodes.len() {
                assert(s.nodes[i] == pre.nodes[i]);
            }
        }
    }
}

/// A commit row on lane 0 carries a commit of HEAD's line.
pub open spec fn lane_zero_is_heads(sc: Scene, n: NodeView) -> bool {
    n.commit is Some && n.lane == 0 ==> sc.line().contains(n.commit->0.oid)
}

/// When HEAD is loaded, lane 0 is HEAD's: no commit off HEAD's first-parent
/// line sits on it.
pub proof fn law_lane_zero_is_heads(
    sc: Scene,
    uncommitted: Option<Option<usize>>,
    links: Seq<(Oid, Oid)>,
)
    requires
        distinct(sc.cs),
        ordered(sc.cs),
        line_unbroken(sc),
        sc.reserved(),
        layout::addressable(sc, links.len()),
    ensures
        forall|i: int|
            0 <= i < layout::graph_of(sc, uncommitted, links).0.len() ==> lane_zero_is_heads(
                sc,
                #[trigger] layout::graph_of(sc, uncommitted, links).0[i],
            ),
{
    if sc.cs.len() > 0 {
        let w = Walk::after(sc, sc.cs.len());
        lemma_budget_counts(sc.cs, sc.cs.len());
        lemma_after_anchored(sc, sc.cs.len());
        let (nodes, max_lane) = match uncommitted {
            Some(count) => overlay::with_uncommitted(w.nodes, w.max_lane, sc.head, count),
            None => (w.nodes, w.max_lane),
        };
        assert forall|i: int| 0 <= i < nodes.len() implies lane_zero_is_heads(
            sc,
            #[trigger] nodes[i],
        ) by {
            if uncommitted is Some && sc.head is Some && overlay::first_row(
                w.nodes,
                sc.head->0,
            ) is Some {
                if i > 0 {
                    assert(lane_zero_is_heads(sc, w.nodes[i - 1]));
                }
            } else {
                assert(lane_zero_is_heads(sc, w.nodes[i]));
            }
        }
        law_links_change_only_cells(nodes, max_lane, links, links.len());
        let out = overlay::with_links(nodes, max_lane, links, links.len()).0;
        assert forall|i: int| 0 <= i < out.len() implies lane_zero_is_heads(
            sc,
            #[trigger] out[i],
        ) by {
            assert(lane_zero_is_heads(sc, nodes[i]));
        }
    }
}

proof fn lemma_budget_counts(cs: Seq<CommitView>, n: nat)
    ensures
        n < walk::lane_budget(cs, n),
    decreases n,
{
    if n > 0 {
        lemma_budget_counts(cs, (n - 1) as nat);
    }
}

/// A commit of HEAD's line takes lane 0 as soon as nothing stands in its way:
/// lane 0 awaits it, or lane 0 is free and no other lane awaits it.
pub proof fn law_head_line_takes_lane_zero(sc: Scene, w: Walk, row: int)
    requires
        0 <= row < sc.cs.len(),
        sc.line().contains(sc.cs[row].oid),
        w.lanes.len() > 0,
        w.lanes.len() <= usize::MAX,
        w.lanes[0] == Some(sc.cs[row].oid) || (w.lanes[0] is None && walk::awaiting(
            w.lanes,
            sc.cs[row].oid,
        ) is None),
    ensures
        w.prepared(sc, row).1 == 0,
{
    let oid = sc.cs[row].oid;
    if w.lanes[0] == Some(oid) {
        assert(walk::awaits_first(w.lanes, oid, 0));
        let k = choose|k: int| walk::awaits_first(w.lanes, oid, k);
        assert(walk::awaits_first(w.lanes, oid, k));
        assert(k == 0);
    } else {
        assert(walk::free_first(w.lanes, sc.zero_ok(oid), 0));
        let k = choose|k: int| walk::free_first(w.lanes, sc.zero_ok(oid), k);
        assert(walk::free_first(w.lanes, sc.zero_ok(oid), k));
        assert(k == 0);
    }
}

/// The main colour is out of circulation and rests on lane 0 alone.
spec fn main_held(w: Walk) -> bool {
    &&& w.colors.wf()
    &&& w.colors.reserved[MAIN_BRANCH_COLOR as int]
    &&& forall|l: usize| #[trigger]
        w.colors.lanes.dom().contains(l) && w.colors.lanes[l] == MAIN_BRANCH_COLOR ==> l == 0
    &&& w.colors.main_lane is Some ==> w.colors.main_lane == Some(0usize)
}

proof fn lemma_placed_main(
    sc: Scene,
    row: int,
    oid: Oid,
    lane: usize,
    color: usize,
    w: Walk,
    parents: Seq<Oid>,
    n: nat,
)
    requires
        main_held(w),
        color == MAIN_BRANCH_COLOR ==> lane == 0,
    ensures
        ({
            let p = walk::placed(sc, row, oid, lane, color, w, parents, n);
            &&& main_held(p.walk)
            &&& p.walk.colors.main_lane == w.colors.main_lane
            &&& p.sibling == Some(MAIN_BRANCH_COLOR) ==> lane == 0
            &&& p.sibling is Some && w.colors.main_lane == Some(lane) ==> p.sibling == Some(
                MAIN_BRANCH_COLOR,
            )
        }),
    decreases n,
{
    if n > 0 {
        lemma_placed_main(sc, row, oid, lane, color, w, parents, (n - 1) as nat);
        let q = walk::placed(sc, row, oid, lane, color, w, parents, (n - 1) as nat);
        colors::law_new_lines_avoid_reserved_colors(q.walk.colors);
        colors::lemma_states_keep_order(
            q.walk.colors,
            walk::opened(q.walk.lanes, sc.zero_ok(parents[n - 1])),
            0,
        );
    }
}

proof fn lemma_step_main(sc: Scene, w: Walk, row: int)
    requires
        0 <= row < sc.cs.len(),
        main_held(w) || (row == 0 && w == Walk::start(sc) && !sc.reserved()),
    ensures
        main_held(w.step(sc, row)),
        w.step(sc, row).nodes.last().color_index == MAIN_BRANCH_COLOR ==> w.prepared(sc, row).1
            == 0,
        w.prepared(sc, row).0.main_assigned && !w.main_assigned ==> w.step(
            sc,
            row,
        ).nodes.last().color_index == MAIN_BRANCH_COLOR,
{
    let oid = sc.cs[row].oid;
    lemma_step_nodes(sc, w, row);
    let next = Walk { colors: w.colors.next_row(), ..w };
    let (pre, lane, color) = w.prepared(sc, row);
    let going_on = walk::awaiting(next.lanes, oid) is Some;
    let seated = next.seated(lane);
    let m = seated.merging(oid, lane, seated.lanes.len());
    let j = seated.joined(oid, lane);
    assert(w.colors.wf()) by {
        if !main_held(w) {
            assert(!w.colors.reserved[1]);
        }
    }
    colors::lemma_states_keep_order(w.colors, lane, 0);
    assert(j.colors.wf()) by {
        let c = choose|c: int|
            0 <= c < colors::PALETTE_LEN && c != MAIN_BRANCH_COLOR && !(
            #[trigger] next.colors.reserved[c]);
        assert(!j.colors.reserved[c]);
    }
    colors::law_new_lines_avoid_reserved_colors(j.colors);
    if !main_held(w) {
        assert(w.lanes.len() == 0);
        assert(walk::awaiting(w.lanes, oid) is None);
        assert(!exists|i: int| walk::free_first(w.lanes, sc.zero_ok(oid), i));
        assert(lane == 0);
        assert(seated.lanes =~= seq![None]);
        walk::lemma_merging(seated, oid, lane, seated.lanes.len());
        assert(m.len() == 0);
        assert(j.claims_main(sc, lane));
    }
    colors::lemma_states_keep_order(j.colors, lane, color);
    assert(color == MAIN_BRANCH_COLOR ==> lane == 0);
    assert(main_held(pre));
    let parents = sc.parents(row);
    let start = if parents.len() >= 2 {
        Walk { colors: pre.colors.forking(), ..pre }
    } else {
        pre
    };
    colors::lemma_states_keep_order(pre.colors, lane, 0);
    assert(main_held(start));
    lemma_placed_main(sc, row, oid, lane, color, start, parents, parents.len());
    let p = w.connected(sc, row);
    assert(main_held(p.walk));
    if let Some(other) = walk::crossed_lane(p.links, lane) {
        let end = if other < lane {
            lane
        } else {
            other
        };
        colors::lemma_states_keep_order(p.walk.colors, end, 0);
    }
}

/// A commit row in the main colour sits on lane 0.
pub open spec fn main_color_on_lane_zero(n: NodeView) -> bool {
    n.commit is Some && n.color_index == MAIN_BRANCH_COLOR ==> n.lane == 0
}

proof fn lemma_after_main(sc: Scene, n: nat)
    requires
        n <= sc.cs.len(),
    ensures
        n > 0 || sc.reserved() ==> main_held(Walk::after(sc, n)),
        forall|i: int|
            0 <= i < Walk::after(sc, n).nodes.len() ==> main_color_on_lane_zero(
                #[trigger] Walk::after(sc, n).nodes[i],
            ),
    decreases n,
{
    if n == 0 {
        if sc.reserved() {
            assert(!Walk::after(sc, 0).colors.reserved[1]);
        }
    } else {
        lemma_after_main(sc, (n - 1) as nat);
        let w = Walk::after(sc, (n - 1) as nat);
        lemma_step_main(sc, w, n - 1);
        lemma_step_nodes(sc, w, n - 1);
        let pre = w.prepared(sc, n - 1).0;
        let s = Walk::after(sc, n);
        assert forall|i: int| 0 <= i < s.nodes.len() implies main_color_on_lane_zero(
            #[trigger] s.nodes[i],
        ) by {
            if i < w.nodes.len() {
                assert(s.nodes[i] == w.nodes[i]) by {
                    assert(s.nodes[i] == pre.nodes[i]);
                    if pre.nodes != w.nodes {
                        assert(pre.nodes.drop_last()[i] == w.nodes[i]);
                    }
                }
            } else if i < pre.nodes.len() {
                assert(s.nodes[i] == pre.nodes[i]);
            }
        }
    }
}

/// Only commits on lane 0 wear the main colour, so no side branch is mistaken
/// for HEAD's line.
pub proof fn law_main_color_marks_lane_zero(
    sc: Scene,
    uncommitted: Option<Option<usize>>,
    links: Seq<(Oid, Oid)>,
)
    ensures
        forall|i: int|
            0 <= i < layout::graph_of(sc, uncommitted, links).0.len() ==> main_color_on_lane_zero(
                #[trigger] layout::graph_of(sc, uncommitted, links).0[i],
            ),
{
    if sc.cs.len() > 0 {
        let w = Walk::after(sc, sc.cs.len());
        lemma_after_main(sc, sc.cs.len());
        let (nodes, max_lane) = match uncommitted {
            Some(count) => overlay::with_uncommitted(w.nodes, w.max_lane, sc.head, count),
            None => (w.nodes, w.max_lane),
        };
        assert forall|i: int| 0 <= i < nodes.len() implies main_color_on_lane_zero(
            #[trigger] nodes[i],
        ) by {
            if uncommitted is Some && sc.head is Some && overlay::first_row(
                w.nodes,
                sc.head->0,
            ) is Some {
                if i > 0 {
                    assert(main_color_on_lane_zero(w.nodes[i - 1]));
                }
            } else {
                assert(main_color_on_lane_zero(w.nodes[i]));
            }
        }
        law_links_change_only_cells(nodes, max_lane, links, links.len());
        let out = overlay::with_links(nodes, max_lane, links, links.len()).0;
        assert forall|i: int| 0 <= i < out.len() implies main_color_on_lane_zero(
            #[trigger] out[i],
        ) by {
            assert(main_color_on_lane_zero(nodes[i]));
        }
    }
}

/// A step up a lane and a step down lead back, whenever a child goes on from the
/// row on its lane: the rows' commits being distinct, no other row answers.
pub proof fn law_lane_steps_return(ns: Seq<NodeView>, row: int, child: int)
    requires
        0 <= row < ns.len(),
        ns[row].commit is Some,
        overlay::first_row(ns, ns[row].commit->0.oid) == Some(row),
        0 <= child < ns.len(),
        trace::succeeds(ns, ns[row].commit->0.oid, ns[row].lane, child),
    ensures
        trace::descendant_row(ns, row) matches Some(up) && 0 <= up <= child && ns[up].lane
            == ns[row].lane && trace::ancestor_row(ns, up) == Some(row),
{
    let oid = ns[row].commit->0.oid;
    let lane = ns[row].lane;
    let p = |i: int| trace::succeeds(ns, oid, lane, i);
    search::lemma_some_such(ns.len() as int, p, child);
    let up = search::first_such(ns.len() as int, p)->0;
    assert(up <= child) by {
        if child < up {
            assert(!p(child));
        }
    }
}

} // verus!
