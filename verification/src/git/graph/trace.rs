//! Branch tracing, lane navigation and merged-lane dimming over a layout.
pub mod laws;

use crate::git::commit;
use crate::git::commit::CommitInfo;
use crate::git::graph;
use crate::git::graph::line;
use crate::git::graph::overlay;
use crate::git::graph::{CellEdge, CellOids, GraphLayout, NodeView};
use crate::oid::{EdgeMap, Oid, OidSet};
use crate::search;
use vstd::prelude::*;

verus! {

/// Branch tracing needs at least this many lanes to be worth doing.
pub const MIN_TRACE_LANES: usize = 3;

/// Whether the graph is branchy enough for tracing to help.
pub fn graph_has_enough_lanes(layout: &GraphLayout) -> (enough: bool)
    ensures
        enough == (layout.max_lane + 1 >= MIN_TRACE_LANES),
{
    layout.max_lane >= MIN_TRACE_LANES - 1
}

/// Whether some row carries `oid`.
pub open spec fn on_graph(ns: Seq<NodeView>, oid: Oid) -> bool {
    exists|i: int| 0 <= i < ns.len() && (#[trigger] ns[i]).oid() == Some(oid)
}

/// How many commit rows lie outside `set`.
pub open spec fn rows_outside(ns: Seq<NodeView>, set: Set<Oid>) -> nat
    decreases ns.len(),
{
    if ns.len() == 0 {
        0
    } else {
        rows_outside(ns.drop_last(), set) + (if ns.last().oid() is Some && !set.contains(
            ns.last().oid()->0,
        ) {
            1nat
        } else {
            0nat
        })
    }
}

pub proof fn lemma_rows_outside_insert(ns: Seq<NodeView>, set: Set<Oid>, oid: Oid)
    ensures
        rows_outside(ns, set.insert(oid)) <= rows_outside(ns, set),
        on_graph(ns, oid) && !set.contains(oid) ==> rows_outside(ns, set.insert(oid))
            < rows_outside(ns, set),
    decreases ns.len(),
{
    if ns.len() > 0 {
        let rest = ns.drop_last();
        lemma_rows_outside_insert(rest, set, oid);
        if on_graph(ns, oid) && ns.last().oid() != Some(oid) {
            let i = choose|i: int| 0 <= i < ns.len() && (#[trigger] ns[i]).oid() == Some(oid);
            assert(rest[i].oid() == Some(oid));
        }
    }
}

/// The first parent of the row that carries `oid`, when it is on the graph.
pub open spec fn drawn_first_parent(ns: Seq<NodeView>, oid: Oid) -> Option<Oid> {
    match overlay::last_row(ns, oid) {
        Some(row) => {
            let parents = ns[row].commit->0.parents;
            if parents.len() > 0 && on_graph(ns, parents[0]) {
                Some(parents[0])
            } else {
                None
            }
        },
        None => None,
    }
}

/// `set` with the first-parent ancestors of `cur` that are on the graph.
pub open spec fn trace_down(ns: Seq<NodeView>, set: Set<Oid>, cur: Oid) -> Set<Oid>
    decreases rows_outside(ns, set),
{
    match drawn_first_parent(ns, cur) {
        Some(p) => if set.contains(p) {
            set
        } else {
            proof {
                lemma_rows_outside_insert(ns, set, p);
            }
            trace_down(ns, set.insert(p), p)
        },
        None => set,
    }
}

/// Row `i` carries a commit outside `set` that goes on from `cur` by its first
/// parent, on `lane`.
pub open spec fn goes_on(ns: Seq<NodeView>, set: Set<Oid>, cur: Oid, lane: usize, i: int) -> bool {
    &&& 0 <= i < ns.len()
    &&& ns[i].commit is Some
    &&& ns[i].commit->0.parents.len() > 0
    &&& ns[i].commit->0.parents[0] == cur
    &&& ns[i].lane == lane
    &&& !set.contains(ns[i].commit->0.oid)
}

/// Row `i` is the first that [`goes_on`].
pub open spec fn goes_on_first(
    ns: Seq<NodeView>,
    set: Set<Oid>,
    cur: Oid,
    lane: usize,
    i: int,
) -> bool {
    &&& goes_on(ns, set, cur, lane, i)
    &&& forall|j: int| 0 <= j < i ==> !goes_on(ns, set, cur, lane, j)
}

/// The commit that continues the line upward from `cur` on its lane.
pub open spec fn lane_child(ns: Seq<NodeView>, set: Set<Oid>, cur: Oid) -> Option<Oid> {
    match overlay::last_row(ns, cur) {
        Some(row) => {
            let lane = ns[row].lane;
            if exists|i: int| goes_on_first(ns, set, cur, lane, i) {
                Some(ns[choose|i: int| goes_on_first(ns, set, cur, lane, i)].commit->0.oid)
            } else {
                None
            }
        },
        None => None,
    }
}

pub proof fn lemma_lane_child(ns: Seq<NodeView>, set: Set<Oid>, cur: Oid)
    requires
        lane_child(ns, set, cur) is Some,
    ensures
        on_graph(ns, lane_child(ns, set, cur)->0),
        !set.contains(lane_child(ns, set, cur)->0),
{
    let lane = ns[overlay::last_row(ns, cur)->0].lane;
    let k = choose|k: int| goes_on_first(ns, set, cur, lane, k);
    assert(goes_on_first(ns, set, cur, lane, k));
    assert(ns[k].oid() == lane_child(ns, set, cur));
}

proof fn lemma_lane_child_found(
    ns: Seq<NodeView>,
    set: Set<Oid>,
    cur: Oid,
    row: int,
    i: int,
)
    requires
        overlay::last_row(ns, cur) == Some(row),
        goes_on_first(ns, set, cur, ns[row].lane, i),
    ensures
        lane_child(ns, set, cur) == Some(ns[i].commit->0.oid),
{
    let lane = ns[row].lane;
    let k = choose|k: int| goes_on_first(ns, set, cur, lane, k);
    assert(goes_on_first(ns, set, cur, lane, k));
    if k < i {
        assert(!goes_on(ns, set, cur, lane, k));
    } else if i < k {
        assert(!goes_on(ns, set, cur, lane, i));
    }
}

/// `set` with the descendants that continue the line upward from `cur`.
pub open spec fn trace_up(ns: Seq<NodeView>, set: Set<Oid>, cur: Oid) -> Set<Oid>
    decreases rows_outside(ns, set),
{
    match lane_child(ns, set, cur) {
        Some(ch) => {
            proof {
                lemma_lane_child(ns, set, cur);
                lemma_rows_outside_insert(ns, set, ch);
            }
            trace_up(ns, set.insert(ch), ch)
        },
        None => set,
    }
}

/// The line of the commit in row `row`: empty for a row without one.
pub open spec fn lineage(ns: Seq<NodeView>, row: int) -> Set<Oid> {
    if 0 <= row < ns.len() && ns[row].commit is Some {
        let sel = ns[row].commit->0.oid;
        trace_up(ns, trace_down(ns, set![sel], sel), sel)
    } else {
        Set::empty()
    }
}

/// The ids on the selected commit's branch line: the commit itself, its
/// first-parent ancestry down the graph, and its first-parent descendants up
/// along the same lane. Empty for a row without a commit.
pub fn lineage_oids(layout: &GraphLayout, selected_full_idx: usize) -> (set: OidSet)
    ensures
        set@ == lineage(graph::nodes_view(layout.nodes@), selected_full_idx as int),
{
    let ghost ns = graph::nodes_view(layout.nodes@);
    let nodes = layout.nodes.as_slice();
    let mut set = OidSet::new();
    if selected_full_idx >= nodes.len() {
        return set;
    }
    assert(ns[selected_full_idx as int] == nodes@[selected_full_idx as int]@);
    let sel = match &nodes[selected_full_idx].commit {
        Some(c) => c.oid,
        None => {
            return set;
        },
    };
    set.insert(sel);
    assert(set@ =~= set![sel]);
    let mut cur = sel;
    loop
        invariant
            ns == graph::nodes_view(nodes@),
            trace_down(ns, set@, cur) == trace_down(ns, set![sel], sel),
        ensures
            set@ == trace_down(ns, set![sel], sel),
        decreases rows_outside(ns, set@),
    {
        let row: usize = match overlay::find_last_row(nodes, cur) {
            Some(r) => r,
            None => {
                break;
            },
        };
        proof {
            let k = choose|k: int| overlay::carries_last(ns, cur, k);
            assert(overlay::carries_last(ns, cur, k));
            assert(ns[row as int] == nodes@[row as int]@);
        }
        let first: Option<Oid> = match &nodes[row].commit {
            Some(c) => if c.parent_oids.len() > 0 {
                Some(c.parent_oids[0])
            } else {
                None
            },
            None => None,
        };
        match first {
            Some(p) => {
                let drawn = overlay::find_last_row(nodes, p).is_some();
                proof {
                    lemma_on_graph(ns, p);
                    lemma_rows_outside_insert(ns, set@, p);
                }
                if !drawn {
                    break;
                }
                if !set.insert(p) {
                    assert(set@ =~= set@.insert(p));
                    break;
                }
                cur = p;
            },
            None => {
                break;
            },
        }
    }
    cur = sel;
    loop
        invariant
            ns == graph::nodes_view(nodes@),
            trace_up(ns, set@, cur) == trace_up(ns, trace_down(ns, set![sel], sel), sel),
        ensures
            set@ == trace_up(ns, trace_down(ns, set![sel], sel), sel),
        decreases rows_outside(ns, set@),
    {
        let row: usize = match overlay::find_last_row(nodes, cur) {
            Some(r) => r,
            None => {
                break;
            },
        };
        let lane: usize = nodes[row].lane;
        assert(ns[row as int] == nodes@[row as int]@);
        let mut child: Option<Oid> = None;
        let mut i: usize = 0;
        while i < nodes.len()
            invariant_except_break
                child is None,
            invariant
                0 <= i <= nodes.len(),
                ns == graph::nodes_view(nodes@),
                overlay::last_row(ns, cur) == Some(row as int),
                ns[row as int].lane == lane,
                forall|j: int| 0 <= j < i ==> !goes_on(ns, set@, cur, lane, j),
            ensures
                child == lane_child(ns, set@, cur),
            decreases nodes.len() - i,
        {
            assert(ns[i as int] == nodes@[i as int]@);
            if let Some(c) = &nodes[i].commit {
                if c.parent_oids.len() > 0 && c.parent_oids[0] == cur && nodes[i].lane == lane
                    && !set.contains(&c.oid) {
                    child = Some(c.oid);
                    proof {
                        lemma_lane_child_found(ns, set@, cur, row as int, i as int);
                    }
                    break;
                }
            }
            i = i + 1;
        }
        match child {
            Some(ch) => {
                proof {
                    lemma_lane_child(ns, set@, cur);
                    lemma_rows_outside_insert(ns, set@, ch);
                }
                set.insert(ch);
                cur = ch;
            },
            None => {
                break;
            },
        }
    }
    set
}

pub proof fn lemma_on_graph(ns: Seq<NodeView>, oid: Oid)
    ensures
        on_graph(ns, oid) <==> overlay::last_row(ns, oid) is Some,
        on_graph(ns, oid) <==> overlay::first_row(ns, oid) is Some,
    decreases ns.len(),
{
    if on_graph(ns, oid) {
        let i = choose|i: int| 0 <= i < ns.len() && (#[trigger] ns[i]).oid() == Some(oid);
        lemma_last_exists(ns, oid, i);
        lemma_first_exists(ns, oid, i);
    } else {
        assert(forall|i: int| !overlay::carries_last(ns, oid, i));
        assert(forall|i: int| !overlay::carries_first(ns, oid, i));
    }
}

proof fn lemma_last_exists(ns: Seq<NodeView>, oid: Oid, i: int)
    requires
        0 <= i < ns.len(),
        ns[i].oid() == Some(oid),
    ensures
        exists|k: int| overlay::carries_last(ns, oid, k),
    decreases ns.len() - i,
{
    if exists|j: int| i < j < ns.len() && (#[trigger] ns[j]).oid() == Some(oid) {
        let j = choose|j: int| i < j < ns.len() && (#[trigger] ns[j]).oid() == Some(oid);
        lemma_last_exists(ns, oid, j);
    } else {
        assert(overlay::carries_last(ns, oid, i));
    }
}

proof fn lemma_first_exists(ns: Seq<NodeView>, oid: Oid, i: int)
    requires
        0 <= i < ns.len(),
        ns[i].oid() == Some(oid),
    ensures
        exists|k: int| overlay::carries_first(ns, oid, k),
    decreases i,
{
    if exists|j: int| 0 <= j < i && (#[trigger] ns[j]).oid() == Some(oid) {
        let j = choose|j: int| 0 <= j < i && (#[trigger] ns[j]).oid() == Some(oid);
        lemma_first_exists(ns, oid, j);
    } else {
        assert(overlay::carries_first(ns, oid, i));
    }
}

/// A row number as the executable functions return it.
pub open spec fn as_row(row: Option<int>) -> Option<usize> {
    match row {
        Some(r) => Some(r as usize),
        None => None,
    }
}

/// The row one step down the selected lane: that of the selected commit's first
/// parent.
pub open spec fn ancestor_row(ns: Seq<NodeView>, row: int) -> Option<int> {
    if 0 <= row < ns.len() && ns[row].commit is Some && ns[row].commit->0.parents.len() > 0 {
        overlay::first_row(ns, ns[row].commit->0.parents[0])
    } else {
        None
    }
}

/// Row index of the next commit on the same graph lane, toward older history:
/// the selected commit's first parent, when it is drawn. `None` for a row
/// without a commit, a root commit, or a parent that is not loaded.
pub fn same_lane_ancestor_row(layout: &GraphLayout, selected_full_idx: usize) -> (row: Option<
    usize,
>)
    ensures
        row == as_row(
            ancestor_row(graph::nodes_view(layout.nodes@), selected_full_idx as int),
        ),
{
    let ghost ns = graph::nodes_view(layout.nodes@);
    let nodes = layout.nodes.as_slice();
    if selected_full_idx >= nodes.len() {
        return None;
    }
    assert(ns[selected_full_idx as int] == nodes@[selected_full_idx as int]@);
    match &nodes[selected_full_idx].commit {
        Some(c) => if c.parent_oids.len() > 0 {
            overlay::find_first_row(nodes, c.parent_oids[0])
        } else {
            None
        },
        None => None,
    }
}

/// Row `i` carries a commit that merged `oid` in: `oid` is one of its parents
/// after the first.
pub open spec fn merges_in(ns: Seq<NodeView>, oid: Oid, i: int) -> bool {
    ns[i].commit is Some && exists|k: int|
        1 <= k < ns[i].commit->0.parents.len() && #[trigger] ns[i].commit->0.parents[k] == oid
}

/// Row index of the commit that merged `oid` in, the topmost if there are
/// several.
fn merge_commit_row(layout: &GraphLayout, oid: Oid) -> (row: Option<usize>)
    ensures
        row == as_row(
            search::first_such(
                layout.nodes@.len() as int,
                |i: int| merges_in(graph::nodes_view(layout.nodes@), oid, i),
            ),
        ),
{
    let ghost ns = graph::nodes_view(layout.nodes@);
    let ghost p = |i: int| merges_in(ns, oid, i);
    let nodes = layout.nodes.as_slice();
    let mut i: usize = 0;
    while i < nodes.len()
        invariant
            0 <= i <= nodes.len(),
            ns == graph::nodes_view(nodes@),
            p == (|i: int| merges_in(ns, oid, i)),
            nodes@ == layout.nodes@,
            forall|j: int| 0 <= j < i ==> !#[trigger] p(j),
        decreases nodes.len() - i,
    {
        assert(ns[i as int] == nodes@[i as int]@);
        if let Some(c) = &nodes[i].commit {
            let mut k: usize = 1;
            while k < c.parent_oids.len()
                invariant
                    1 <= k,
                    i < nodes.len(),
                    ns == graph::nodes_view(nodes@),
                    p == (|i: int| merges_in(ns, oid, i)),
                    nodes@ == layout.nodes@,
                    ns[i as int].commit == Some(c@),
                    forall|j: int| 0 <= j < i ==> !#[trigger] p(j),
                    forall|j: int| 1 <= j < k && j < c@.parents.len() ==> c@.parents[j] != oid,
                decreases c.parent_oids.len() - k,
            {
                if c.parent_oids[k] == oid {
                    proof {
                        assert(ns[i as int].commit->0.parents[k as int] == oid);
                        assert(p(i as int));
                        search::lemma_first_such(ns.len() as int, p, i as int);
                    }
                    return Some(i);
                }
                k = k + 1;
            }
            assert(!p(i as int));
        }
        i = i + 1;
    }
    assert(forall|i: int| !search::is_first_such(ns.len() as int, p, i));
    None
}

/// Row `i` is on `lane` and its commit's first parent is `oid`.
pub open spec fn succeeds(ns: Seq<NodeView>, oid: Oid, lane: usize, i: int) -> bool {
    &&& ns[i].lane == lane
    &&& ns[i].commit is Some
    &&& ns[i].commit->0.parents.len() > 0
    &&& ns[i].commit->0.parents[0] == oid
}

/// The row one step up the selected lane: the child that goes on from it on the
/// same lane, else the commit that merged it in.
pub open spec fn descendant_row(ns: Seq<NodeView>, row: int) -> Option<int> {
    if 0 <= row < ns.len() && ns[row].commit is Some {
        let oid = ns[row].commit->0.oid;
        let lane = ns[row].lane;
        match search::first_such(ns.len() as int, |i: int| succeeds(ns, oid, lane, i)) {
            Some(r) => Some(r),
            None => search::first_such(ns.len() as int, |i: int| merges_in(ns, oid, i)),
        }
    } else {
        None
    }
}

/// Row index of the next commit on the same graph lane, toward newer history:
/// the child whose first parent is the selected commit and which sits on its
/// lane; at the tip of a lane, the commit that merged the lane in.
pub fn same_lane_descendant_row(layout: &GraphLayout, selected_full_idx: usize) -> (row: Option<
    usize,
>)
    ensures
        row == as_row(
            descendant_row(graph::nodes_view(layout.nodes@), selected_full_idx as int),
        ),
{
    let ghost ns = graph::nodes_view(layout.nodes@);
    let nodes = layout.nodes.as_slice();
    if selected_full_idx >= nodes.len() {
        return None;
    }
    assert(ns[selected_full_idx as int] == nodes@[selected_full_idx as int]@);
    let lane: usize = nodes[selected_full_idx].lane;
    let oid = match &nodes[selected_full_idx].commit {
        Some(c) => c.oid,
        None => {
            return None;
        },
    };
    let ghost p = |i: int| succeeds(ns, oid, lane, i);
    let mut i: usize = 0;
    while i < nodes.len()
        invariant
            0 <= i <= nodes.len(),
            selected_full_idx < nodes.len(),
            nodes@ == layout.nodes@,
            ns == graph::nodes_view(nodes@),
            p == (|i: int| succeeds(ns, oid, lane, i)),
            ns[selected_full_idx as int].lane == lane,
            ns[selected_full_idx as int].commit is Some,
            ns[selected_full_idx as int].commit->0.oid == oid,
            forall|j: int| 0 <= j < i ==> !#[trigger] p(j),
        decreases nodes.len() - i,
    {
        assert(ns[i as int] == nodes@[i as int]@);
        if let Some(c) = &nodes[i].commit {
            if nodes[i].lane == lane && c.parent_oids.len() > 0 && c.parent_oids[0] == oid {
                proof {
                    assert(p(i as int));
                    search::lemma_first_such(ns.len() as int, p, i as int);
                }
                return Some(i);
            }
        }
        i = i + 1;
    }
    assert(forall|i: int| !search::is_first_such(ns.len() as int, p, i));
    merge_commit_row(layout, oid)
}

/// `lit` with the first `k` parent edges of a commit considered.
pub open spec fn lit_parents(
    lit: Map<CellEdge, Oid>,
    c: commit::CommitView,
    on: Set<Oid>,
    k: nat,
) -> Map<CellEdge, Oid>
    decreases k,
{
    if k == 0 {
        lit
    } else {
        let rest = lit_parents(lit, c, on, (k - 1) as nat);
        let p = c.parents[k - 1];
        if on.contains(c.oid) && on.contains(p) {
            rest.insert((c.oid, p), c.oid)
        } else if on.contains(p) && k > 1 {
            rest.insert((c.oid, p), p)
        } else {
            rest
        }
    }
}

/// The lit edges of the first `n` rows, with the commit that colours each.
pub open spec fn lit_rows(ns: Seq<NodeView>, on: Set<Oid>, n: nat) -> Map<CellEdge, Oid>
    decreases n,
{
    if n == 0 {
        Map::empty()
    } else {
        let rest = lit_rows(ns, on, (n - 1) as nat);
        match ns[n - 1].commit {
            Some(c) => {
                let dot = if on.contains(c.oid) {
                    rest.insert((c.oid, c.oid), c.oid)
                } else {
                    rest
                };
                lit_parents(dot, c, on, c.parents.len())
            },
            None => rest,
        }
    }
}

/// The edges lit by tracing `lineage`, mapped to the commit whose lane colour
/// the stroke takes.
///
/// An edge lights when both ends are on the lineage, coloured by the child, or
/// when the parent is and it is not the child's first parent: a merge absorbing
/// the traced branch, coloured by the parent. A commit dot lights by its
/// self-edge.
pub fn trace_lit_edges(layout: &GraphLayout, lineage: &OidSet) -> (lit: EdgeMap)
    ensures
        lit@ == lit_rows(graph::nodes_view(layout.nodes@), lineage@, layout.nodes@.len()),
{
    let ghost ns = graph::nodes_view(layout.nodes@);
    let nodes = layout.nodes.as_slice();
    let mut lit = EdgeMap::new();
    let mut n: usize = 0;
    while n < nodes.len()
        invariant
            0 <= n <= nodes.len(),
            ns == graph::nodes_view(nodes@),
            lit@ == lit_rows(ns, lineage@, n as nat),
        decreases nodes.len() - n,
    {
        assert(ns[n as int] == nodes@[n as int]@);
        if let Some(c) = &nodes[n].commit {
            let on = lineage.contains(&c.oid);
            if on {
                lit.insert((c.oid, c.oid), c.oid);
            }
            let ghost dot = lit@;
            let mut k: usize = 0;
            while k < c.parent_oids.len()
                invariant
                    0 <= k <= c.parent_oids.len(),
                    on == lineage@.contains(c.oid),
                    lit@ == lit_parents(dot, c@, lineage@, k as nat),
                decreases c.parent_oids.len() - k,
            {
                let p = c.parent_oids[k];
                if on && lineage.contains(&p) {
                    lit.insert((c.oid, p), c.oid);
                } else if lineage.contains(&p) && k > 0 {
                    lit.insert((c.oid, p), p);
                }
                k = k + 1;
            }
        }
        n = n + 1;
    }
    lit
}

/// Whether an edge is one of `lit`; no edge never is.
pub open spec fn edge_lit(edge: Option<CellEdge>, lit: Map<CellEdge, Oid>) -> bool {
    edge is Some && lit.dom().contains(edge->0)
}

/// Whether a single edge is lit by the trace.
pub fn edge_is_traced(edge: Option<CellEdge>, lit: &EdgeMap) -> (traced: bool)
    ensures
        traced == edge_lit(edge, lit@),
{
    match edge {
        Some(e) => lit.contains_key(&e),
        None => false,
    }
}

/// Whether a cell is lit by the trace: either of its edges lights it.
pub fn cell_is_traced(oids: CellOids, lit: &EdgeMap) -> (traced: bool)
    ensures
        traced == (edge_lit(oids.0, lit@) || edge_lit(oids.1, lit@)),
{
    edge_is_traced(oids.0, lit) || edge_is_traced(oids.1, lit)
}

/// The first-parent chains of the first `n` tips.
pub open spec fn live_chains(
    cs: Seq<commit::CommitView>,
    tips: Seq<Oid>,
    n: nat,
) -> Set<Oid>
    decreases n,
{
    if n == 0 {
        Set::empty()
    } else {
        line::line_down(cs, live_chains(cs, tips, (n - 1) as nat), tips[n - 1])
    }
}

/// The loaded commits that "hide merged branches" would remove: those on no
/// first-parent chain of a live tip.
///
/// `live_tips` are the tips of every visible ref that is not merged, with HEAD
/// and the stash entries.
pub fn merged_lane_oids(commits: &[CommitInfo], live_tips: &[Oid]) -> (merged: OidSet)
    ensures
        forall|o: Oid| #[trigger]
            merged@.contains(o) <==> line::loaded(commit::commits_view(commits@), o)
                && !live_chains(commit::commits_view(commits@), live_tips@, live_tips@.len()).contains(
            o),
{
    let ghost cs = commit::commits_view(commits@);
    let rows = line::row_map(commits);
    let mut live = OidSet::new();
    let mut n: usize = 0;
    while n < live_tips.len()
        invariant
            0 <= n <= live_tips.len(),
            cs == commit::commits_view(commits@),
            rows@ == line::rows(cs),
            live@ == live_chains(cs, live_tips@, n as nat),
        decreases live_tips.len() - n,
    {
        line::extend_down(commits, &rows, &mut live, live_tips[n]);
        n = n + 1;
    }
    let mut merged = OidSet::new();
    let mut i: usize = 0;
    while i < commits.len()
        invariant
            0 <= i <= commits.len(),
            cs == commit::commits_view(commits@),
            forall|o: Oid| #[trigger]
                merged@.contains(o) <==> line::loaded(cs.take(i as int), o) && !live@.contains(o),
        decreases commits.len() - i,
    {
        let oid = commits[i].oid;
        proof {
            assert(cs[i as int].oid == oid);
            let done = cs.take(i as int);
            let next = cs.take(i + 1);
            assert forall|o: Oid| line::loaded(next, o) == (line::loaded(done, o) || o == oid) by {
                if line::loaded(done, o) {
                    let j = choose|j: int| 0 <= j < done.len() && (#[trigger] done[j]).oid == o;
                    assert(next[j].oid == o);
                }
                if o == oid {
                    assert(next[i as int].oid == o);
                }
                if line::loaded(next, o) && o != oid {
                    let j = choose|j: int| 0 <= j < next.len() && (#[trigger] next[j]).oid == o;
                    assert(done[j].oid == o);
                }
            }
        }
        if !live.contains(&oid) {
            merged.insert(oid);
        }
        i = i + 1;
    }
    assert(cs.take(i as int) =~= cs);
    merged
}

/// Whether an edge has an end in `merged`; no edge never has.
pub open spec fn edge_touches(edge: Option<CellEdge>, merged: Set<Oid>) -> bool {
    edge is Some && (merged.contains((edge->0).0) || merged.contains((edge->0).1))
}

/// Whether a single edge touches a dimmed commit.
pub fn edge_touches_merged(edge: Option<CellEdge>, merged: &OidSet) -> (touches: bool)
    ensures
        touches == edge_touches(edge, merged@),
{
    match edge {
        Some((child, parent)) => merged.contains(&child) || merged.contains(&parent),
        None => false,
    }
}

/// Whether a cell touches a dimmed commit: either of its edges counts.
pub fn cell_touches_merged(oids: CellOids, merged: &OidSet) -> (touches: bool)
    ensures
        touches == (edge_touches(oids.0, merged@) || edge_touches(oids.1, merged@)),
{
    edge_touches_merged(oids.0, merged) || edge_touches_merged(oids.1, merged)
}

} // verus!
