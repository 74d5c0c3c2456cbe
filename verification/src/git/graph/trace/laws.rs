//! What tracing shows: the line a commit is on, the edges that light up with it,
//! and the steps along a lane.
use crate::git::commit::CommitView;
use crate::git::graph::laws;
use crate::git::graph::line;
use crate::git::graph::overlay;
use crate::git::graph::trace;
use crate::git::graph::{CellEdge, NodeView};
use crate::oid::Oid;
use crate::search;
use vstd::prelude::*;

verus! {

/// No two rows carry the same commit.
pub open spec fn rows_once(ns: Seq<NodeView>) -> bool {
    forall|i: int, j: int|
        0 <= i < ns.len() && 0 <= j < ns.len() && (#[trigger] ns[i]).oid() is Some && ns[i].oid() == (
        #[trigger] ns[j]).oid() ==> i == j
}

/// The row of a commit's first parent is below the commit's.
pub open spec fn parents_below(ns: Seq<NodeView>) -> bool {
    forall|i: int, j: int|
        0 <= i < ns.len() && 0 <= j < ns.len() && #[trigger] leads_to(ns, i, j) ==> i < j
}

/// The commit in row `j` is the first parent of the one in row `i`.
pub open spec fn leads_to(ns: Seq<NodeView>, i: int, j: int) -> bool {
    &&& ns[i].commit is Some
    &&& ns[i].commit->0.parents.len() > 0
    &&& ns[j].oid() == Some(ns[i].commit->0.parents[0])
}

proof fn lemma_row(ns: Seq<NodeView>, i: int)
    requires
        rows_once(ns),
        0 <= i < ns.len(),
        ns[i].commit is Some,
    ensures
        overlay::last_row(ns, ns[i].commit->0.oid) == Some(i),
        overlay::first_row(ns, ns[i].commit->0.oid) == Some(i),
{
    let o = ns[i].commit->0.oid;
    assert(ns[i].oid() == Some(o));
    assert(overlay::carries_last(ns, o, i));
    assert(overlay::carries_first(ns, o, i));
    let k = choose|k: int| overlay::carries_last(ns, o, k);
    assert(overlay::carries_last(ns, o, k));
    let m = choose|m: int| overlay::carries_first(ns, o, m);
    assert(overlay::carries_first(ns, o, m));
}

/// The drawn first parent of everything on `set` but `cur` is on `set`.
spec fn closed_but(ns: Seq<NodeView>, set: Set<Oid>, cur: Oid) -> bool {
    forall|o: Oid| #[trigger]
        set.contains(o) && o != cur && trace::drawn_first_parent(ns, o) is Some ==> set.contains(
            trace::drawn_first_parent(ns, o)->0,
        )
}

spec fn closed(ns: Seq<NodeView>, set: Set<Oid>) -> bool {
    forall|o: Oid| #[trigger]
        set.contains(o) && trace::drawn_first_parent(ns, o) is Some ==> set.contains(
            trace::drawn_first_parent(ns, o)->0,
        )
}

proof fn lemma_down_closed(ns: Seq<NodeView>, set: Set<Oid>, cur: Oid)
    requires
        closed_but(ns, set, cur),
    ensures
        closed(ns, trace::trace_down(ns, set, cur)),
        set.subset_of(trace::trace_down(ns, set, cur)),
    decreases trace::rows_outside(ns, set),
{
    if let Some(p) = trace::drawn_first_parent(ns, cur) {
        if !set.contains(p) {
            trace::lemma_rows_outside_insert(ns, set, p);
            assert(closed_but(ns, set.insert(p), p));
            lemma_down_closed(ns, set.insert(p), p);
        }
    }
}

proof fn lemma_up_closed(ns: Seq<NodeView>, set: Set<Oid>, cur: Oid)
    requires
        rows_once(ns),
        closed(ns, set),
        set.contains(cur),
    ensures
        closed(ns, trace::trace_up(ns, set, cur)),
    decreases trace::rows_outside(ns, set),
{
    if let Some(ch) = trace::lane_child(ns, set, cur) {
        let lane = ns[overlay::last_row(ns, cur)->0].lane;
        let k = choose|k: int| trace::goes_on_first(ns, set, cur, lane, k);
        assert(trace::goes_on_first(ns, set, cur, lane, k));
        lemma_row(ns, k);
        trace::lemma_lane_child(ns, set, cur);
        trace::lemma_rows_outside_insert(ns, set, ch);
        assert(closed(ns, set.insert(ch)));
        lemma_up_closed(ns, set.insert(ch), ch);
    }
}

/// A traced line goes on down: the first parent of a commit on the line is on
/// the line too, if it is drawn, on whatever lane.
pub proof fn law_traced_lines_follow_first_parents(ns: Seq<NodeView>, row: int, i: int, j: int)
    requires
        rows_once(ns),
        0 <= i < ns.len(),
        0 <= j < ns.len(),
        leads_to(ns, i, j),
        trace::lineage(ns, row).contains(ns[i].commit->0.oid),
    ensures
        trace::lineage(ns, row).contains(ns[j].commit->0.oid),
{
    let sel = ns[row].commit->0.oid;
    assert(closed_but(ns, set![sel], sel));
    lemma_down_closed(ns, set![sel], sel);
    assert(set![sel].contains(sel));
    lemma_up_closed(ns, trace::trace_down(ns, set![sel], sel), sel);
    lemma_row(ns, i);
    assert(trace::on_graph(ns, ns[j].commit->0.oid));
    assert(trace::drawn_first_parent(ns, ns[i].commit->0.oid) == Some(ns[j].commit->0.oid));
}

/// Some commit of the set has `o` as its first parent.
pub open spec fn below_some(ns: Seq<NodeView>, set: Set<Oid>, o: Oid) -> bool {
    exists|i: int|
        0 <= i < ns.len() && (#[trigger] ns[i]).commit is Some && set.contains(ns[i].commit->0.oid)
            && ns[i].commit->0.parents.len() > 0 && ns[i].commit->0.parents[0] == o
}

/// `o` goes on upward from a commit of the set: that is its first parent, and the
/// two are on one lane.
pub open spec fn above_some(ns: Seq<NodeView>, set: Set<Oid>, o: Oid) -> bool {
    exists|i: int, j: int|
        0 <= i < ns.len() && 0 <= j < ns.len() && #[trigger] leads_to(ns, i, j) && ns[i].oid() == Some(
            o,
        ) && set.contains(ns[j].commit->0.oid) && ns[i].lane == ns[j].lane
}

spec fn grown(ns: Seq<NodeView>, set: Set<Oid>, sel: Oid) -> bool {
    forall|o: Oid| #[trigger]
        set.contains(o) ==> o == sel || below_some(ns, set, o) || above_some(ns, set, o)
}

proof fn lemma_grown_insert(ns: Seq<NodeView>, set: Set<Oid>, sel: Oid, x: Oid)
    requires
        grown(ns, set, sel),
        below_some(ns, set, x) || above_some(ns, set, x),
    ensures
        grown(ns, set.insert(x), sel),
{
    let more = set.insert(x);
    assert forall|o: Oid| #[trigger] more.contains(o) implies o == sel || below_some(ns, more, o)
        || above_some(ns, more, o) by {
        if below_some(ns, set, o) {
            let i = choose|i: int|
                0 <= i < ns.len() && (#[trigger] ns[i]).commit is Some && set.contains(
                    ns[i].commit->0.oid,
                ) && ns[i].commit->0.parents.len() > 0 && ns[i].commit->0.parents[0] == o;
            assert(more.contains(ns[i].commit->0.oid));
            assert(below_some(ns, more, o));
        } else if above_some(ns, set, o) {
            let (i, j) = choose|i: int, j: int|
                0 <= i < ns.len() && 0 <= j < ns.len() && #[trigger] leads_to(ns, i, j)
                    && ns[i].oid() == Some(o) && set.contains(ns[j].commit->0.oid) && ns[i].lane
                    == ns[j].lane;
            assert(leads_to(ns, i, j) && more.contains(ns[j].commit->0.oid));
            assert(above_some(ns, more, o));
        }
    }
}

proof fn lemma_down_grown(ns: Seq<NodeView>, set: Set<Oid>, cur: Oid, sel: Oid)
    requires
        grown(ns, set, sel),
        set.contains(cur),
    ensures
        grown(ns, trace::trace_down(ns, set, cur), sel),
    decreases trace::rows_outside(ns, set),
{
    if let Some(p) = trace::drawn_first_parent(ns, cur) {
        if !set.contains(p) {
            let r = overlay::last_row(ns, cur)->0;
            let k = choose|k: int| overlay::carries_last(ns, cur, k);
            assert(overlay::carries_last(ns, cur, k));
            assert(ns[r].commit is Some);
            assert(below_some(ns, set, p));
            lemma_grown_insert(ns, set, sel, p);
            trace::lemma_rows_outside_insert(ns, set, p);
            lemma_down_grown(ns, set.insert(p), p, sel);
        }
    }
}

proof fn lemma_up_grown(ns: Seq<NodeView>, set: Set<Oid>, cur: Oid, sel: Oid)
    requires
        grown(ns, set, sel),
        set.contains(cur),
    ensures
        grown(ns, trace::trace_up(ns, set, cur), sel),
    decreases trace::rows_outside(ns, set),
{
    if let Some(ch) = trace::lane_child(ns, set, cur) {
        let r = overlay::last_row(ns, cur)->0;
        let m = choose|m: int| overlay::carries_last(ns, cur, m);
        assert(overlay::carries_last(ns, cur, m));
        let lane = ns[r].lane;
        let k = choose|k: int| trace::goes_on_first(ns, set, cur, lane, k);
        assert(trace::goes_on_first(ns, set, cur, lane, k));
        assert(leads_to(ns, k, r));
        assert(ns[k].oid() == Some(ch));
        assert(above_some(ns, set, ch));
        lemma_grown_insert(ns, set, sel, ch);
        trace::lemma_lane_child(ns, set, cur);
        trace::lemma_rows_outside_insert(ns, set, ch);
        lemma_up_grown(ns, set.insert(ch), ch, sel);
    }
}

/// Nothing strays onto a traced line: besides the commit it was traced from, it
/// holds only first parents of commits on the line, and commits that go on from
/// their first parent on the line along that parent's lane.
pub proof fn law_traced_lines_do_not_stray(ns: Seq<NodeView>, row: int, o: Oid)
    requires
        trace::lineage(ns, row).contains(o),
    ensures
        ({
            let on = trace::lineage(ns, row);
            ns[row].oid() == Some(o) || below_some(ns, on, o) || above_some(ns, on, o)
        }),
{
    let sel = ns[row].commit->0.oid;
    assert(grown(ns, set![sel], sel));
    lemma_down_grown(ns, set![sel], sel, sel);
    laws::law_lineage_holds_its_commit(ns, row);
    assert(set![sel].contains(sel));
    assert(closed_but(ns, set![sel], sel));
    lemma_down_closed(ns, set![sel], sel);
    lemma_up_grown(ns, trace::trace_down(ns, set![sel], sel), sel, sel);
}

/// Every commit of the set stands in row `r` or below.
pub open spec fn from_row(ns: Seq<NodeView>, set: Set<Oid>, r: int) -> bool {
    forall|o: Oid, i: int|
        0 <= i < ns.len() && #[trigger] set.contains(o) && (#[trigger] ns[i]).oid() == Some(o) ==> r <= i
}

proof fn lemma_down_from(ns: Seq<NodeView>, set: Set<Oid>, cur: Oid, r: int)
    requires
        rows_once(ns),
        parents_below(ns),
        from_row(ns, set, r),
        set.contains(cur),
    ensures
        from_row(ns, trace::trace_down(ns, set, cur), r),
    decreases trace::rows_outside(ns, set),
{
    if let Some(p) = trace::drawn_first_parent(ns, cur) {
        if !set.contains(p) {
            let c = overlay::last_row(ns, cur)->0;
            let k = choose|k: int| overlay::carries_last(ns, cur, k);
            assert(overlay::carries_last(ns, cur, k));
            let more = set.insert(p);
            assert forall|o: Oid, i: int|
                0 <= i < ns.len() && #[trigger] more.contains(o) && (#[trigger] ns[i]).oid() == Some(
                    o,
                ) implies r <= i by {
                if o == p {
                    assert(leads_to(ns, c, i));
                    assert(set.contains(cur) && ns[c].oid() == Some(cur));
                }
            }
            trace::lemma_rows_outside_insert(ns, set, p);
            lemma_down_from(ns, more, p, r);
        }
    }
}

/// Going down from below row `r` never meets the commit in row `r`.
proof fn lemma_down_apart(ns: Seq<NodeView>, set: Set<Oid>, cur: Oid, r: int)
    requires
        rows_once(ns),
        parents_below(ns),
        0 <= r < ns.len(),
        ns[r].commit is Some,
        forall|i: int| 0 <= i < ns.len() && (#[trigger] ns[i]).oid() == Some(cur) ==> r < i,
    ensures
        trace::trace_down(ns, set.insert(ns[r].commit->0.oid), cur) == trace::trace_down(
            ns,
            set,
            cur,
        ).insert(ns[r].commit->0.oid),
    decreases trace::rows_outside(ns, set),
{
    let x = ns[r].commit->0.oid;
    assert(ns[r].oid() == Some(x));
    if let Some(p) = trace::drawn_first_parent(ns, cur) {
        let c = overlay::last_row(ns, cur)->0;
        let k = choose|k: int| overlay::carries_last(ns, cur, k);
        assert(overlay::carries_last(ns, cur, k));
        assert forall|i: int| 0 <= i < ns.len() && (#[trigger] ns[i]).oid() == Some(p) implies r < i by {
            assert(leads_to(ns, c, i));
            assert(ns[c].oid() == Some(cur));
        }
        assert(p != x);
        if !set.contains(p) {
            trace::lemma_rows_outside_insert(ns, set, p);
            trace::lemma_rows_outside_insert(ns, set.insert(x), p);
            lemma_down_apart(ns, set.insert(p), p, r);
            assert(set.insert(p).insert(x) =~= set.insert(x).insert(p));
        }
    }
}

/// A traced line goes on up: the commit next above on the same lane is on it, and
/// the line traced from there is the same one. Where no commit goes on above, the
/// line starts at the commit it is traced from.
pub proof fn law_traced_lines_go_on_up(ns: Seq<NodeView>, row: int, up: int)
    requires
        rows_once(ns),
        parents_below(ns),
        0 <= row < ns.len(),
        ns[row].commit is Some,
        0 <= up <= ns.len(),
        up < ns.len() ==> leads_to(ns, up, row) && ns[up].lane == ns[row].lane,
        forall|i: int| 0 <= i < up ==> !(#[trigger] leads_to(ns, i, row) && ns[i].lane == ns[row].lane),
    ensures
        up < ns.len() ==> trace::lineage(ns, row) == trace::lineage(ns, up),
        up == ns.len() ==> from_row(ns, trace::lineage(ns, row), row),
{
    let sel = ns[row].commit->0.oid;
    let lane = ns[row].lane;
    let down = trace::trace_down(ns, set![sel], sel);
    lemma_row(ns, row);
    assert(ns[row].oid() == Some(sel));
    assert(set![sel].contains(sel));
    assert(from_row(ns, set![sel], row));
    lemma_down_from(ns, set![sel], sel, row);
    assert forall|i: int| 0 <= i < up implies !#[trigger] trace::goes_on(ns, down, sel, lane, i) by {
        if trace::goes_on(ns, down, sel, lane, i) {
            assert(leads_to(ns, i, row));
        }
    }
    if up < ns.len() {
        let ch = ns[up].commit->0.oid;
        assert(ns[up].oid() == Some(ch));
        assert(leads_to(ns, up, row));
        assert(up < row);
        assert(!down.contains(ch));
        assert(trace::goes_on_first(ns, down, sel, lane, up));
        let k = choose|k: int| trace::goes_on_first(ns, down, sel, lane, k);
        assert(trace::goes_on_first(ns, down, sel, lane, k));
        assert(k == up) by {
            if up < k {
                assert(!trace::goes_on(ns, down, sel, lane, up));
            } else if k < up {
                assert(!trace::goes_on(ns, down, sel, lane, k));
            }
        }
        assert(trace::lane_child(ns, down, sel) == Some(ch));
        assert(trace::trace_up(ns, down, sel) == trace::trace_up(ns, down.insert(ch), ch));
        lemma_row(ns, up);
        assert(trace::on_graph(ns, sel));
        assert(trace::drawn_first_parent(ns, ch) == Some(sel));
        assert(sel != ch);
        assert(!set![ch].contains(sel));
        assert(trace::trace_down(ns, set![ch], ch) == trace::trace_down(ns, set![ch].insert(sel), sel));
        assert(set![ch].insert(sel) =~= set![sel].insert(ch));
        lemma_down_apart(ns, set![sel], sel, up);
    } else {
        assert(trace::lane_child(ns, down, sel) is None) by {
            if exists|i: int| trace::goes_on_first(ns, down, sel, lane, i) {
                let i = choose|i: int| trace::goes_on_first(ns, down, sel, lane, i);
                assert(trace::goes_on_first(ns, down, sel, lane, i));
                assert(trace::goes_on(ns, down, sel, lane, i));
            }
        }
        assert(trace::lineage(ns, row) == down);
    }
}

proof fn lemma_lit_kept(lit: Map<CellEdge, Oid>, c: CommitView, on: Set<Oid>, k: nat, edge: CellEdge)
    requires
        k <= c.parents.len(),
        edge.0 != c.oid,
    ensures
        trace::lit_parents(lit, c, on, k).dom().contains(edge) == lit.dom().contains(edge),
        lit.dom().contains(edge) ==> trace::lit_parents(lit, c, on, k)[edge] == lit[edge],
    decreases k,
{
    if k > 0 {
        lemma_lit_kept(lit, c, on, (k - 1) as nat, edge);
    }
}

/// How the edges that leave a commit's row are lit.
pub open spec fn lit_from(lit: Map<CellEdge, Oid>, c: CommitView, on: Set<Oid>, k: nat) -> bool {
    &&& on.contains(c.oid) ==> lit.dom().contains((c.oid, c.oid)) && lit[(c.oid, c.oid)] == c.oid
    &&& forall|j: int|
        0 <= j < k && on.contains(c.oid) && on.contains(#[trigger] c.parents[j]) ==> lit.dom().contains(
            (c.oid, c.parents[j]),
        ) && lit[(c.oid, c.parents[j])] == c.oid
    &&& forall|j: int|
        1 <= j < k && !on.contains(c.oid) && on.contains(#[trigger] c.parents[j]) ==> lit.dom().contains(
            (c.oid, c.parents[j]),
        ) && lit[(c.oid, c.parents[j])] == c.parents[j]
}

proof fn lemma_lit_from(lit: Map<CellEdge, Oid>, c: CommitView, on: Set<Oid>, k: nat)
    requires
        k <= c.parents.len(),
        on.contains(c.oid) ==> lit.dom().contains((c.oid, c.oid)) && lit[(c.oid, c.oid)] == c.oid,
    ensures
        lit_from(trace::lit_parents(lit, c, on, k), c, on, k),
    decreases k,
{
    if k > 0 {
        lemma_lit_from(lit, c, on, (k - 1) as nat);
    }
}

proof fn lemma_lit_rows(ns: Seq<NodeView>, on: Set<Oid>, n: nat, i: int)
    requires
        rows_once(ns),
        0 <= i < n <= ns.len(),
        ns[i].commit is Some,
    ensures
        lit_from(trace::lit_rows(ns, on, n), ns[i].commit->0, on, ns[i].commit->0.parents.len()),
    decreases n,
{
    let c = ns[i].commit->0;
    let rest = trace::lit_rows(ns, on, (n - 1) as nat);
    if i == n - 1 {
        let dot = if on.contains(c.oid) {
            rest.insert((c.oid, c.oid), c.oid)
        } else {
            rest
        };
        lemma_lit_from(dot, c, on, c.parents.len());
    } else {
        lemma_lit_rows(ns, on, (n - 1) as nat, i);
        if let Some(d) = ns[n - 1].commit {
            assert(ns[i].oid() == Some(c.oid) && ns[n - 1].oid() == Some(d.oid));
            assert(d.oid != c.oid);
            let dot = if on.contains(d.oid) {
                rest.insert((d.oid, d.oid), d.oid)
            } else {
                rest
            };
            let now = trace::lit_rows(ns, on, n);
            assert(now == trace::lit_parents(dot, d, on, d.parents.len()));
            assert forall|e: CellEdge| e.0 == c.oid && #[trigger] rest.dom().contains(e) implies now.dom().contains(e)
                && now[e] == rest[e] by {
                lemma_lit_kept(dot, d, on, d.parents.len(), e);
            }
            assert forall|j: int|
                0 <= j < c.parents.len() && on.contains(c.oid) && on.contains(
                    #[trigger] c.parents[j],
                ) implies now.dom().contains((c.oid, c.parents[j])) && now[(c.oid, c.parents[j])] == c.oid by {
                assert(rest.dom().contains((c.oid, c.parents[j])));
            }
            assert forall|j: int|
                1 <= j < c.parents.len() && !on.contains(c.oid) && on.contains(
                    #[trigger] c.parents[j],
                ) implies now.dom().contains((c.oid, c.parents[j])) && now[(c.oid, c.parents[j])]
                == c.parents[j] by {
                assert(rest.dom().contains((c.oid, c.parents[j])));
            }
            if on.contains(c.oid) {
                assert(rest.dom().contains((c.oid, c.oid)));
            }
        }
    }
}

/// A traced line lights up whole: the dots of its commits and the edges between
/// them in the commit's own name, and where a commit off the line merges one of
/// the line in, that edge in the name of the commit that is merged in. The edge
/// to a first parent from off the line stays dark.
pub proof fn law_traced_lines_light_up(ns: Seq<NodeView>, on: Set<Oid>, i: int)
    requires
        rows_once(ns),
        0 <= i < ns.len(),
        ns[i].commit is Some,
    ensures
        ({
            let lit = trace::lit_rows(ns, on, ns.len());
            let c = ns[i].commit->0;
            &&& on.contains(c.oid) ==> lit.dom().contains((c.oid, c.oid)) && lit[(c.oid, c.oid)] == c.oid
            &&& forall|j: int|
                0 <= j < c.parents.len() && on.contains(c.oid) && on.contains(
                    #[trigger] c.parents[j],
                ) ==> lit.dom().contains((c.oid, c.parents[j])) && lit[(c.oid, c.parents[j])] == c.oid
            &&& forall|j: int|
                1 <= j < c.parents.len() && !on.contains(c.oid) && on.contains(
                    #[trigger] c.parents[j],
                ) ==> lit.dom().contains((c.oid, c.parents[j])) && lit[(c.oid, c.parents[j])]
                    == c.parents[j]
        }),
{
    lemma_lit_rows(ns, on, ns.len(), i);
}

/// An edge is traced if it is lit, and touched by merged lanes if one of its ends
/// is merged; where there is no edge, neither.
pub proof fn law_edges_of_a_cell(edge: CellEdge, lit: Map<CellEdge, Oid>, merged: Set<Oid>)
    ensures
        trace::edge_lit(Some(edge), lit) == lit.dom().contains(edge),
        !trace::edge_lit(None, lit),
        trace::edge_touches(Some(edge), merged) == (merged.contains(edge.0) || merged.contains(edge.1)),
        !trace::edge_touches(None, merged),
        trace::MIN_TRACE_LANES == 3,
{
}

/// A step down a lane leads to the row of the commit's first parent, and nowhere
/// if that is not drawn.
pub proof fn law_a_step_down(ns: Seq<NodeView>, row: int)
    ensures
        match trace::ancestor_row(ns, row) {
            Some(j) => 0 <= row < ns.len() && 0 <= j < ns.len() && leads_to(ns, row, j) && forall|i: int|
                0 <= i < j ==> !#[trigger] leads_to(ns, row, i),
            None => 0 <= row < ns.len() ==> forall|j: int|
                0 <= j < ns.len() ==> !#[trigger] leads_to(ns, row, j),
        },
{
    if 0 <= row < ns.len() && ns[row].commit is Some && ns[row].commit->0.parents.len() > 0 {
        let p = ns[row].commit->0.parents[0];
        trace::lemma_on_graph(ns, p);
        if overlay::first_row(ns, p) is Some {
            let k = choose|k: int| overlay::carries_first(ns, p, k);
            assert(overlay::carries_first(ns, p, k));
        } else {
            assert forall|j: int| 0 <= j < ns.len() implies !#[trigger] leads_to(ns, row, j) by {
                if leads_to(ns, row, j) {
                    assert(ns[j].oid() == Some(p));
                    assert(trace::on_graph(ns, p));
                }
            }
        }
    }
}

/// The commit in row `i` merges the one in row `j` in: it is a parent of it, but
/// not the first.
pub open spec fn takes_in(ns: Seq<NodeView>, i: int, j: int) -> bool {
    ns[i].commit is Some && ns[j].commit is Some && exists|k: int|
        1 <= k < ns[i].commit->0.parents.len() && #[trigger] ns[i].commit->0.parents[k]
            == ns[j].commit->0.oid
}

/// A step up a lane leads to the first row on the same lane whose commit has this
/// one as its first parent. Where there is none, it leads to the first row that
/// merges this commit in, and where there is none either, nowhere.
pub proof fn law_a_step_up(ns: Seq<NodeView>, row: int)
    requires
        0 <= row < ns.len(),
    ensures
        match trace::descendant_row(ns, row) {
            Some(j) => 0 <= j < ns.len() && (if leads_to(ns, j, row) && ns[j].lane == ns[row].lane {
                forall|i: int|
                    0 <= i < j ==> !(#[trigger] leads_to(ns, i, row) && ns[i].lane == ns[row].lane)
            } else {
                &&& takes_in(ns, j, row)
                &&& forall|i: int| 0 <= i < j ==> !#[trigger] takes_in(ns, i, row)
                &&& forall|i: int|
                    0 <= i < ns.len() ==> !(#[trigger] leads_to(ns, i, row) && ns[i].lane
                        == ns[row].lane)
            }),
            None => {
                &&& forall|i: int|
                    0 <= i < ns.len() ==> !(#[trigger] leads_to(ns, i, row) && ns[i].lane
                        == ns[row].lane)
                &&& forall|i: int| 0 <= i < ns.len() ==> !#[trigger] takes_in(ns, i, row)
            },
        },
{
    if ns[row].commit is Some {
        let oid = ns[row].commit->0.oid;
        let lane = ns[row].lane;
        let p = |i: int| trace::succeeds(ns, oid, lane, i);
        let q = |i: int| trace::merges_in(ns, oid, i);
        search::lemma_first_such_holds(ns.len() as int, p);
        search::lemma_first_such_holds(ns.len() as int, q);
        assert forall|i: int| 0 <= i < ns.len() implies (#[trigger] leads_to(ns, i, row) && ns[i].lane
            == ns[row].lane) == p(i) by {}
        assert forall|i: int| 0 <= i < ns.len() implies #[trigger] takes_in(ns, i, row) == q(i) by {}
    }
}

/// Some commit of the set has `o` as its first parent.
pub open spec fn chained(cs: Seq<CommitView>, set: Set<Oid>, o: Oid) -> bool {
    exists|i: int|
        0 <= i < cs.len() && set.contains((#[trigger] cs[i]).oid) && cs[i].parents.len() > 0
            && cs[i].parents[0] == o
}

/// The loaded first parents of the set's commits are in it, or `cur`.
spec fn chain_but(cs: Seq<CommitView>, set: Set<Oid>, cur: Oid) -> bool {
    forall|i: int|
        0 <= i < cs.len() && set.contains((#[trigger] cs[i]).oid) && cs[i].parents.len() > 0
            && line::loaded(cs, cs[i].parents[0]) ==> set.contains(cs[i].parents[0])
            || cs[i].parents[0] == cur
}

/// The loaded first parents of the set's commits are in it.
pub open spec fn chain_whole(cs: Seq<CommitView>, set: Set<Oid>) -> bool {
    forall|i: int|
        0 <= i < cs.len() && set.contains((#[trigger] cs[i]).oid) && cs[i].parents.len() > 0
            && line::loaded(cs, cs[i].parents[0]) ==> set.contains(cs[i].parents[0])
}

/// Every commit of the set is a tip or the first parent of one of the set, and
/// loaded.
pub open spec fn chain_only(cs: Seq<CommitView>, set: Set<Oid>, tips: Seq<Oid>) -> bool {
    forall|o: Oid| #[trigger]
        set.contains(o) ==> line::loaded(cs, o) && (tips.contains(o) || chained(cs, set, o))
}

proof fn lemma_chain(cs: Seq<CommitView>, set: Set<Oid>, cur: Oid, tips: Seq<Oid>)
    requires
        laws::distinct(cs),
        cs.len() <= usize::MAX,
        chain_but(cs, set, cur),
        chain_only(cs, set, tips),
        tips.contains(cur) || chained(cs, set, cur),
    ensures
        chain_whole(cs, line::line_down(cs, set, cur)),
        chain_only(cs, line::line_down(cs, set, cur), tips),
        set.subset_of(line::line_down(cs, set, cur)),
        line::loaded(cs, cur) ==> line::line_down(cs, set, cur).contains(cur),
    decreases line::outside(cs, set),
{
    if !set.contains(cur) && line::loaded(cs, cur) {
        line::lemma_outside_insert(cs, set, cur);
        line::lemma_rows(cs, cur);
        let r = line::rows(cs)[cur] as int;
        let more = set.insert(cur);
        assert forall|o: Oid| #[trigger] more.contains(o) implies line::loaded(cs, o) && (tips.contains(o)
            || chained(cs, more, o)) by {
            if !tips.contains(o) {
                assert(chained(cs, set, o));
                let i = choose|i: int|
                    0 <= i < cs.len() && set.contains((#[trigger] cs[i]).oid) && cs[i].parents.len() > 0
                        && cs[i].parents[0] == o;
                assert(more.contains(cs[i].oid));
            }
        }
        match line::loaded_first_parent(cs, cur) {
            Some(p) => {
                assert(more.contains(cs[r].oid));
                assert(chained(cs, more, p));
                assert(chain_but(cs, more, p)) by {
                    assert forall|i: int|
                        0 <= i < cs.len() && more.contains((#[trigger] cs[i]).oid)
                            && cs[i].parents.len() > 0 && line::loaded(cs, cs[i].parents[0]) implies more.contains(
                    cs[i].parents[0]) || cs[i].parents[0] == p by {
                        if cs[i].oid == cur {
                            assert(i == r);
                        }
                    }
                }
                lemma_chain(cs, more, p, tips);
            },
            None => {
                assert forall|i: int|
                    0 <= i < cs.len() && more.contains((#[trigger] cs[i]).oid) && cs[i].parents.len() > 0
                        && line::loaded(cs, cs[i].parents[0]) implies more.contains(cs[i].parents[0]) by {
                    if cs[i].oid == cur {
                        assert(i == r);
                    }
                }
            },
        }
    }
}

/// What is alive are the loaded tips and what lies below them along first
/// parents, and nothing else; every other loaded commit is on a merged lane.
pub proof fn law_live_chains(cs: Seq<CommitView>, tips: Seq<Oid>, n: nat)
    requires
        laws::distinct(cs),
        cs.len() <= usize::MAX,
        n <= tips.len(),
    ensures
        ({
            let live = trace::live_chains(cs, tips, n);
            &&& forall|t: int|
                0 <= t < n && line::loaded(cs, #[trigger] tips[t]) ==> live.contains(tips[t])
            &&& chain_whole(cs, live)
            &&& chain_only(cs, live, tips.take(n as int))
        }),
    decreases n,
{
    if n > 0 {
        let m = (n - 1) as nat;
        law_live_chains(cs, tips, m);
        let live = trace::live_chains(cs, tips, m);
        let tip = tips[n - 1];
        let first = tips.take(n as int);
        assert(first[n - 1] == tip);
        assert forall|o: Oid| tips.take(m as int).contains(o) implies #[trigger] first.contains(o) by {
            let k = choose|k: int| 0 <= k < m && tips.take(m as int)[k] == o;
            assert(first[k] == o);
        }
        assert(chain_only(cs, live, first));
        lemma_chain(cs, live, tip, first);
    }
}

} // verus!
