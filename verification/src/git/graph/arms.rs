//! The strokes of the graph join: a line that leaves one row comes in on the
//! next, and every commit is joined to its parents.
use crate::git::commit::CommitView;
use crate::git::graph::cells;
use crate::git::graph::cells::{LaneView, ParentLink};
use crate::git::graph::laws;
use crate::git::graph::layout;
use crate::git::graph::line;
use crate::git::graph::walk;
use crate::git::graph::walk::{Placing, Scene, Walk};
use crate::git::graph::{CellType, NodeView};
use crate::oid::Oid;
use vstd::prelude::*;

verus! {

/// The sides of a cell that its strokes lead to.
pub struct Arms {
    pub up: bool,
    pub down: bool,
    pub left: bool,
    pub right: bool,
}

/// The sides that the glyph of a cell leads to. A dot is joined on whatever side
/// a stroke comes in.
pub open spec fn arms(c: CellType) -> Arms {
    match c {
        CellType::Empty => Arms { up: false, down: false, left: false, right: false },
        CellType::Pipe(_) => Arms { up: true, down: true, left: false, right: false },
        CellType::Commit(_) => Arms { up: false, down: false, left: false, right: false },
        CellType::BranchRight(_) => Arms { up: false, down: true, left: false, right: true },
        CellType::BranchLeft(_) => Arms { up: false, down: true, left: true, right: false },
        CellType::MergeRight(_) => Arms { up: true, down: false, left: false, right: true },
        CellType::MergeLeft(_) => Arms { up: true, down: false, left: true, right: false },
        CellType::Horizontal(_) => Arms { up: false, down: false, left: true, right: true },
        CellType::HorizontalPipe(_, _) => Arms { up: true, down: true, left: true, right: true },
        CellType::TeeRight(_) => Arms { up: true, down: true, left: false, right: true },
        CellType::TeeLeft(_) => Arms { up: true, down: true, left: true, right: false },
        CellType::TeeUp(_) => Arms { up: true, down: false, left: true, right: true },
    }
}

/// The cell in a column; nothing beyond the row's width.
pub open spec fn cell_at(n: NodeView, col: int) -> CellType {
    if 0 <= col < n.cells.len() {
        n.cells[col]
    } else {
        CellType::Empty
    }
}

/// Lane `l` awaits a commit.
pub open spec fn busy(lanes: Seq<Option<Oid>>, l: int) -> bool {
    0 <= l < lanes.len() && lanes[l] is Some
}

/// No commit names a parent twice.
pub open spec fn parents_once(cs: Seq<CommitView>) -> bool {
    forall|r: int| 0 <= r < cs.len() ==> (#[trigger] cs[r]).parents.no_duplicates()
}

/// History as git lists it: every commit once, parents below their children and
/// named once, and few enough lanes to count.
pub open spec fn tidy(sc: Scene) -> bool {
    &&& sc.cs.len() <= usize::MAX
    &&& walk::lane_budget(sc.cs, sc.cs.len()) < usize::MAX
    &&& laws::distinct(sc.cs)
    &&& laws::ordered(sc.cs)
    &&& parents_once(sc.cs)
}

/// Link `i` is the last of the first `n` that leads to lane `l`.
spec fn last_to(links: Seq<ParentLink>, n: nat, l: int, i: int) -> bool {
    &&& 0 <= i < n
    &&& links[i].lane == l
    &&& forall|j: int| i < j < n ==> (#[trigger] links[j]).lane != l
}

/// What a commit's row shows on a lane besides the commit's.
proof fn lemma_row_cell(
    view: LaneView,
    lane: usize,
    shade: usize,
    oid: Oid,
    links: Seq<ParentLink>,
    n: nat,
    l: int,
)
    requires
        n <= links.len(),
        l >= 0,
        l != lane,
    ensures
        ({
            let c = cells::row_cell(view, lane, shade, oid, links, n, 2 * l).0;
            &&& forall|i: int| #[trigger] last_to(links, n, l, i) ==> c == cells::parent_marker(lane, links[i])
            &&& (forall|i: int| 0 <= i < n ==> (#[trigger] links[i]).lane != l) ==> (if busy(view.lanes, l) {
                c is Pipe || c is HorizontalPipe
            } else {
                c is Empty || c is Horizontal
            })
        }),
    decreases n,
{
    if n > 0 {
        let m = (n - 1) as nat;
        lemma_row_cell(view, lane, shade, oid, links, m, l);
        let was = cells::row_cell(view, lane, shade, oid, links, m, 2 * l).0;
        let c = cells::row_cell(view, lane, shade, oid, links, n, 2 * l).0;
        assert forall|i: int| #[trigger] last_to(links, n, l, i) implies c == cells::parent_marker(
            lane,
            links[i],
        ) by {
            if i < m {
                assert(last_to(links, m, l, i));
                assert(links[m as int].lane != l);
                assert(was == cells::parent_marker(lane, links[i]));
            }
        }
    }
}

/// A column between two lanes shows no vertical stroke.
proof fn lemma_row_gap(
    view: LaneView,
    lane: usize,
    shade: usize,
    oid: Oid,
    links: Seq<ParentLink>,
    n: nat,
    col: int,
)
    requires
        n <= links.len(),
        col % 2 == 1,
    ensures
        ({
            let c = cells::row_cell(view, lane, shade, oid, links, n, col).0;
            c is Empty || c is Horizontal
        }),
    decreases n,
{
    if n > 0 {
        lemma_row_gap(view, lane, shade, oid, links, (n - 1) as nat, col);
    }
}

/// What connecting the parents of a commit does to the lanes.
spec fn linked(w: Walk, lane: usize, parents: Seq<Oid>, p: Placing, n: nat) -> bool {
    &&& p.links.len() == n
    &&& p.walk.lanes.len() >= w.lanes.len()
    &&& forall|l: int| #[trigger] busy(w.lanes, l) ==> p.walk.lanes[l] == w.lanes[l]
    &&& forall|i: int|
        0 <= i < n ==> {
            let k = #[trigger] p.links[i];
            &&& k.oid == parents[i]
            &&& !k.shown
            &&& k.lane < p.walk.lanes.len()
            &&& k.lane != lane ==> p.walk.lanes[k.lane as int] == Some(parents[i])
            &&& k.lane != lane ==> (k.existing <==> busy(w.lanes, k.lane as int))
        }
    &&& forall|l: int|
        l != lane && #[trigger] busy(p.walk.lanes, l) && !busy(w.lanes, l) ==> exists|i: int|
            0 <= i < n && (#[trigger] p.links[i]).lane == l
    &&& p.walk.lanes[lane as int] is Some ==> exists|i: int|
        0 <= i < n && #[trigger] parents[i] == p.walk.lanes[lane as int]->0
    &&& forall|i: int|
        0 <= i < n ==> exists|l: int|
            0 <= l < p.walk.lanes.len() && p.walk.lanes[l] == Some(#[trigger] parents[i]) && p.links[i].lane == l
}

proof fn lemma_linked(sc: Scene, row: int, lane: usize, color: usize, w: Walk, n: nat)
    requires
        tidy(sc),
        0 <= row < sc.cs.len(),
        w.lanes.len() == w.children.len(),
        lane < w.lanes.len(),
        w.lanes[lane as int] is None,
        n <= sc.parents(row).len(),
        w.lanes.len() + n < usize::MAX,
    ensures
        linked(
            w,
            lane,
            sc.parents(row),
            walk::placed(sc, row, sc.cs[row].oid, lane, color, w, sc.parents(row), n),
            n,
        ),
    decreases n,
{
    if n > 0 {
        let oid = sc.cs[row].oid;
        let parents = sc.parents(row);
        let m = (n - 1) as nat;
        lemma_linked(sc, row, lane, color, w, m);
        laws::lemma_placed_lanes(sc, row, oid, lane, color, w, parents, m);
        let q = walk::placed(sc, row, oid, lane, color, w, parents, m);
        let p = walk::placed(sc, row, oid, lane, color, w, parents, n);
        let parent = parents[m as int];
        lemma_parents_once(sc, row);
        laws::lemma_parent_below(sc, row, m as int);
        laws::lemma_awaiting(q.walk.lanes, parent);
        laws::lemma_opened(q.walk.lanes, sc.zero_ok(parent));
        let k = p.links[m as int];
        assert(p.links =~= q.links.push(k));
        if let Some(pl) = walk::awaiting(q.walk.lanes, parent) {
            if pl == lane {
                let i = choose|i: int| 0 <= i < m && #[trigger] parents[i] == q.walk.lanes[lane as int]->0;
                assert(parents[i] == parents[m as int]);
                assert(false);
            }
            if !busy(w.lanes, pl as int) {
                assert(busy(q.walk.lanes, pl as int));
                let i = choose|i: int| 0 <= i < m && (#[trigger] q.links[i]).lane == pl;
                assert(parents[i] == parents[m as int]);
                assert(false);
            }
        } else {
            let nl = if m == 0 { lane } else { walk::opened(q.walk.lanes, sc.zero_ok(parent)) };
            assert(!busy(w.lanes, nl as int)) by {
                if busy(w.lanes, nl as int) {
                    assert(q.walk.lanes[nl as int] == w.lanes[nl as int]);
                }
            }
        }
        assert forall|l: int| #[trigger] busy(w.lanes, l) implies p.walk.lanes[l] == w.lanes[l] by {
            assert(q.walk.lanes[l] == w.lanes[l]);
        }
        assert(k.lane < p.walk.lanes.len());
        assert forall|i: int| 0 <= i < n implies ({
            let k = #[trigger] p.links[i];
            &&& k.oid == parents[i]
            &&& !k.shown
            &&& k.lane < p.walk.lanes.len()
            &&& k.lane != lane ==> p.walk.lanes[k.lane as int] == Some(parents[i])
            &&& k.lane != lane ==> (k.existing <==> busy(w.lanes, k.lane as int))
        }) by {
            if i < m {
                assert(p.links[i] == q.links[i]);
            }
        }
        assert forall|l: int|
            l != lane && #[trigger] busy(p.walk.lanes, l) && !busy(w.lanes, l) implies exists|i: int|
            0 <= i < n && (#[trigger] p.links[i]).lane == l by {
            if busy(q.walk.lanes, l) {
                let i = choose|i: int| 0 <= i < m && (#[trigger] q.links[i]).lane == l;
                assert(p.links[i].lane == l);
            } else {
                assert(p.links[m as int].lane == l);
            }
        }
        if p.walk.lanes[lane as int] is Some {
            if q.walk.lanes[lane as int] is Some {
                let i = choose|i: int| 0 <= i < m && #[trigger] parents[i] == q.walk.lanes[lane as int]->0;
                if p.walk.lanes[lane as int] == q.walk.lanes[lane as int] {
                    assert(parents[i] == p.walk.lanes[lane as int]->0);
                } else {
                    assert(parents[m as int] == p.walk.lanes[lane as int]->0);
                }
            } else {
                assert(parents[m as int] == p.walk.lanes[lane as int]->0);
            }
        }
        assert forall|i: int| 0 <= i < n implies exists|l: int|
            0 <= l < p.walk.lanes.len() && p.walk.lanes[l] == Some(#[trigger] parents[i]) && p.links[i].lane == l by {
            if i < m {
                let l = choose|l: int|
                    0 <= l < q.walk.lanes.len() && q.walk.lanes[l] == Some(#[trigger] parents[i]) && q.links[i].lane == l;
                assert(p.links[i] == q.links[i]);
                assert(p.walk.lanes[l] == Some(parents[i]));
            } else {
                let l = k.lane as int;
                assert(p.walk.lanes[l] == Some(parents[i]));
            }
        }
    }
}

proof fn lemma_parents_once(sc: Scene, row: int)
    requires
        parents_once(sc.cs),
        0 <= row < sc.cs.len(),
    ensures
        sc.parents(row).no_duplicates(),
{
    assert(sc.cs[row].parents.no_duplicates());
    lemma_filter_once(sc.cs[row].parents, |p: Oid| line::loaded(sc.cs, p));
}

proof fn lemma_filter_once(s: Seq<Oid>, keep: spec_fn(Oid) -> bool)
    requires
        s.no_duplicates(),
    ensures
        s.filter(keep).no_duplicates(),
    decreases s.len(),
{
    reveal(Seq::filter);
    if s.len() > 0 {
        let rest = s.drop_last();
        assert(rest.no_duplicates());
        lemma_filter_once(rest, keep);
        if keep(s.last()) {
            let f = rest.filter(keep);
            assert forall|i: int| 0 <= i < f.len() implies f[i] != s.last() by {
                rest.lemma_filter_contains_rev(keep, f[i]);
                let k = choose|k: int| 0 <= k < rest.len() && rest[k] == f[i];
                assert(s[k] == f[i]);
            }
        }
    }
}

/// Merging lane `i` is the last of the first `n` that is lane `l`.
spec fn last_merging(m: Seq<(usize, usize)>, n: nat, l: int, i: int) -> bool {
    &&& 0 <= i < n
    &&& m[i].0 == l
    &&& forall|j: int| i < j < n ==> (#[trigger] m[j]).0 != l
}

/// What a connector row shows on a lane.
proof fn lemma_fork_cell(
    view: LaneView,
    main: usize,
    color: usize,
    oid: Oid,
    m: Seq<(usize, usize)>,
    n: nat,
    l: int,
)
    requires
        n <= m.len(),
        l >= 0,
        forall|i: int| 0 <= i < m.len() ==> (#[trigger] m[i]).0 > main,
    ensures
        ({
            let c = cells::fork_cell(view, main, color, oid, m, n, 2 * l).0;
            &&& l == main ==> c is TeeRight
            &&& forall|i: int| #[trigger] last_merging(m, n, l, i) ==> (if cells::rightmost(m, m[i].0) {
                c is MergeLeft
            } else {
                c is TeeUp
            })
            &&& l != main && !cells::merges(m, l) ==> (if busy(view.lanes, l) {
                c is Pipe || c is HorizontalPipe
            } else {
                c is Empty || c is Horizontal
            })
            &&& l != main && cells::merges(m, l) && (forall|i: int| 0 <= i < n ==> (#[trigger] m[i]).0 != l) ==> c is Empty
                || c is Horizontal
        }),
    decreases n,
{
    if n > 0 {
        let k = (n - 1) as nat;
        lemma_fork_cell(view, main, color, oid, m, k, l);
        let was = cells::fork_cell(view, main, color, oid, m, k, 2 * l).0;
        let c = cells::fork_cell(view, main, color, oid, m, n, 2 * l).0;
        assert forall|i: int| #[trigger] last_merging(m, n, l, i) implies (if cells::rightmost(m, m[i].0) {
            c is MergeLeft
        } else {
            c is TeeUp
        }) by {
            if i < k {
                assert(last_merging(m, k, l, i));
                assert(m[k as int].0 != l);
            }
        }
        if l != main && !cells::merges(m, l) {
            assert(m[k as int].0 != l);
        }
    }
}

proof fn lemma_fork_gap(
    view: LaneView,
    main: usize,
    color: usize,
    oid: Oid,
    m: Seq<(usize, usize)>,
    n: nat,
    col: int,
)
    requires
        n <= m.len(),
        col % 2 == 1,
    ensures
        ({
            let c = cells::fork_cell(view, main, color, oid, m, n, col).0;
            c is Empty || c is Horizontal
        }),
    decreases n,
{
    if n > 0 {
        lemma_fork_gap(view, main, color, oid, m, (n - 1) as nat, col);
    }
}

/// Every column from the main lane to a merging lane is reached by the stroke.
proof fn lemma_fork_run(
    view: LaneView,
    main: usize,
    color: usize,
    oid: Oid,
    m: Seq<(usize, usize)>,
    n: nat,
    i: int,
    col: int,
)
    requires
        n <= m.len(),
        0 <= i < n,
        forall|k: int| 0 <= k < m.len() ==> (#[trigger] m[k]).0 > main,
        2 * main < col < 2 * m[i].0,
    ensures
        ({
            let c = cells::fork_cell(view, main, color, oid, m, n, col).0;
            arms(c).left && arms(c).right
        }),
    decreases n,
{
    let k = (n - 1) as nat;
    let was = cells::fork_cell(view, main, color, oid, m, k, col).0;
    let c = cells::fork_cell(view, main, color, oid, m, n, col).0;
    if i < k {
        lemma_fork_run(view, main, color, oid, m, k, i, col);
        if col == 2 * m[k as int].0 {
            assert(!cells::rightmost(m, m[k as int].0)) by {
                assert(m[i].0 > m[k as int].0);
            }
        }
    } else {
        lemma_fork_before(view, main, color, oid, m, k, col);
        if was is MergeLeft {
            let l = col / 2;
            assert(m[i].0 > l);
        }
    }
}

/// Whatever a connector row shows right of the main lane, before a stroke is
/// drawn over it: no corner but at the rightmost merging lane.
proof fn lemma_fork_before(
    view: LaneView,
    main: usize,
    color: usize,
    oid: Oid,
    m: Seq<(usize, usize)>,
    n: nat,
    col: int,
)
    requires
        n <= m.len(),
        2 * main < col,
    ensures
        ({
            let c = cells::fork_cell(view, main, color, oid, m, n, col).0;
            ||| c is Empty
            ||| c is Pipe
            ||| c is Horizontal
            ||| c is HorizontalPipe
            ||| c is TeeUp
            ||| (c is MergeLeft && cells::rightmost(m, (col / 2) as usize))
        }),
    decreases n,
{
    if n > 0 {
        lemma_fork_before(view, main, color, oid, m, (n - 1) as nat, col);
    }
}

/// The lanes in which the merging ones lie.
proof fn lemma_merging_lanes(w: Walk, oid: Oid, main: usize, n: nat)
    requires
        n <= w.lanes.len() <= usize::MAX,
    ensures
        forall|i: int|
            0 <= i < w.merging(oid, main, n).len() ==> {
                let l = (#[trigger] w.merging(oid, main, n)[i]).0;
                l < n && l != main && w.lanes[l as int] == Some(oid)
            },
        forall|l: int|
            0 <= l < n && l != main && #[trigger] w.lanes[l] == Some(oid) ==> cells::merges(
                w.merging(oid, main, n),
                l,
            ),
    decreases n,
{
    if n > 0 {
        let k = (n - 1) as nat;
        lemma_merging_lanes(w, oid, main, k);
        let rest = w.merging(oid, main, k);
        let m = w.merging(oid, main, n);
        assert forall|i: int| 0 <= i < m.len() implies ({
            let l = (#[trigger] m[i]).0;
            l < n && l != main && w.lanes[l as int] == Some(oid)
        }) by {
            if i < rest.len() {
                assert(m[i] == rest[i]);
            }
        }
        assert forall|l: int| 0 <= l < n && l != main && #[trigger] w.lanes[l] == Some(oid) implies cells::merges(
            m,
            l,
        ) by {
            if l < k {
                assert(cells::merges(rest, l));
                let i = choose|i: int| 0 <= i < rest.len() && (#[trigger] rest[i]).0 == l;
                assert(m[i].0 == l);
            } else {
                assert(m[rest.len() as int].0 == l);
            }
        }
    }
}

/// Link `i` that leads to lane `l` has a last one like it.
proof fn lemma_last_to(links: Seq<ParentLink>, n: nat, l: int, i: int) -> (k: int)
    requires
        0 <= i < n <= links.len(),
        links[i].lane == l,
    ensures
        last_to(links, n, l, k),
    decreases n,
{
    if links[n - 1].lane == l {
        n - 1
    } else {
        let k = lemma_last_to(links, (n - 1) as nat, l, i);
        assert(last_to(links, n, l, k));
        k
    }
}

proof fn lemma_last_merging(m: Seq<(usize, usize)>, n: nat, l: int, i: int) -> (k: int)
    requires
        0 <= i < n <= m.len(),
        m[i].0 == l,
    ensures
        last_merging(m, n, l, k),
    decreases n,
{
    if m[n - 1].0 == l {
        n - 1
    } else {
        let k = lemma_last_merging(m, (n - 1) as nat, l, i);
        assert(last_merging(m, n, l, k));
        k
    }
}

/// Some commit above `row` has `o` among its parents.
pub open spec fn named_above(cs: Seq<CommitView>, row: int, o: Oid) -> bool {
    exists|r: int| 0 <= r < row && (#[trigger] cs[r]).parents.contains(o)
}

/// The lanes before `row` are those of the commits that are still to come and
/// that a commit above has as its parent.
spec fn sound(sc: Scene, w: Walk, row: int) -> bool {
    &&& laws::within(sc, w, row as nat)
    &&& forall|l: int| #[trigger] busy(w.lanes, l) ==> {
        &&& l <= w.max_lane
        &&& line::loaded(sc.cs, w.lanes[l]->0)
        &&& line::rows(sc.cs)[w.lanes[l]->0] >= row
        &&& named_above(sc.cs, row, w.lanes[l]->0)
    }
}

/// Lane `l` between the connector row and the row of the commit `oid` on
/// `lane`.
spec fn mid(w: Walk, oid: Oid, lane: usize, l: int) -> bool {
    busy(w.lanes, l) && (l == lane || w.lanes[l] != Some(oid))
}

proof fn lemma_two_edges(cs: Seq<CommitView>, o: Oid, a: int, b: int)
    requires
        0 <= a < b < cs.len(),
        cs[a].parents.contains(o),
        cs[b].parents.contains(o),
    ensures
        walk::edges_to(cs, o) >= 2,
{
    lemma_one_edge(cs[a].parents, o);
    lemma_one_edge(cs[b].parents, o);
    walk::lemma_edges_split(cs, o, a);
    assert(cs.take(b).take(a + 1) =~= cs.take(a + 1));
    walk::lemma_edges_monotone(cs.take(b), o, a + 1);
    walk::lemma_edges_split(cs, o, b);
    walk::lemma_edges_monotone(cs, o, b + 1);
}

proof fn lemma_one_edge(parents: Seq<Oid>, o: Oid)
    requires
        parents.contains(o),
    ensures
        walk::occurrences(parents, o) >= 1,
{
    let k = choose|k: int| 0 <= k < parents.len() && parents[k] == o;
    walk::lemma_occurrences_split(parents, o, k);
    walk::lemma_occurrences_monotone(parents, o, k + 1);
}

proof fn lemma_loaded_parent(sc: Scene, row: int, o: Oid)
    requires
        0 <= row < sc.cs.len(),
    ensures
        sc.parents(row).contains(o) <==> sc.cs[row].parents.contains(o) && line::loaded(sc.cs, o),
{
    let keep = |p: Oid| line::loaded(sc.cs, p);
    if sc.parents(row).contains(o) {
        let i = choose|i: int| 0 <= i < sc.parents(row).len() && sc.parents(row)[i] == o;
        sc.cs[row].parents.lemma_filter_pred(keep, i);
        assert(keep(o));
        sc.cs[row].parents.lemma_filter_contains_rev(keep, o);
    }
    if sc.cs[row].parents.contains(o) && line::loaded(sc.cs, o) {
        let i = choose|i: int| 0 <= i < sc.cs[row].parents.len() && sc.cs[row].parents[i] == o;
        sc.cs[row].parents.lemma_filter_contains(keep, i);
    }
}

/// The line of a commit runs on to its first loaded parent.
proof fn lemma_runs_on(sc: Scene, row: int, lane: usize, color: usize, w: Walk, n: nat)
    requires
        tidy(sc),
        0 <= row < sc.cs.len(),
        w.lanes.len() == w.children.len(),
        lane < w.lanes.len(),
        w.lanes[lane as int] is None,
        0 < n <= sc.parents(row).len(),
        w.lanes.len() + n < usize::MAX,
        forall|l: int| #[trigger] busy(w.lanes, l) ==> named_above(sc.cs, row, w.lanes[l]->0),
    ensures
        ({
            let p = walk::placed(sc, row, sc.cs[row].oid, lane, color, w, sc.parents(row), n);
            &&& p.walk.lanes[lane as int] == Some(sc.parents(row)[0])
            &&& p.links[0].lane == lane
        }),
    decreases n,
{
    let oid = sc.cs[row].oid;
    let parents = sc.parents(row);
    let m = (n - 1) as nat;
    let parent = parents[m as int];
    laws::lemma_placed_lanes(sc, row, oid, lane, color, w, parents, m);
    let q = walk::placed(sc, row, oid, lane, color, w, parents, m);
    laws::lemma_awaiting(q.walk.lanes, parent);
    laws::lemma_opened(q.walk.lanes, sc.zero_ok(parent));
    if m > 0 {
        lemma_runs_on(sc, row, lane, color, w, m);
        let p = walk::placed(sc, row, oid, lane, color, w, parents, n);
        assert(p.links[0] == q.links[0]);
    } else if let Some(pl) = walk::awaiting(q.walk.lanes, parent) {
        assert(busy(w.lanes, pl as int));
        let a = choose|a: int| 0 <= a < row && (#[trigger] sc.cs[a]).parents.contains(parent);
        assert(parents.contains(parent));
        lemma_loaded_parent(sc, row, parent);
        lemma_two_edges(sc.cs, parent, a, row);
    }
}

/// How a step draws its rows and what lanes it leaves.
#[verifier::rlimit(60)]
#[verifier::spinoff_prover]
proof fn lemma_step_arms(sc: Scene, w: Walk, row: int)
    requires
        tidy(sc),
        0 <= row < sc.cs.len(),
        sound(sc, w, row),
    ensures
        ({
            let oid = sc.cs[row].oid;
            let (pre, lane, color) = w.prepared(sc, row);
            let s = w.step(sc, row);
            let node = s.nodes.last();
            let parents = sc.parents(row);
            &&& sound(sc, s, row + 1)
            &&& s.nodes == pre.nodes.push(node)
            &&& node.commit == Some(sc.cs[row]) && node.lane == lane
            &&& node.cells.len() == 2 * (s.max_lane + 1)
            &&& lane <= s.max_lane
            &&& cell_at(node, 2 * lane) is Commit
            &&& forall|l: int| l >= 0 && l != lane ==> {
                let c = #[trigger] cell_at(node, 2 * l);
                &&& !(c is Commit)
                &&& arms(c).up <==> mid(w, oid, lane, l)
                &&& arms(c).down <==> busy(s.lanes, l)
            }
            &&& forall|col: int| col % 2 == 1 ==> {
                let c = #[trigger] cell_at(node, col);
                !(c is Commit) && !arms(c).up && !arms(c).down
            }
            &&& busy(s.lanes, lane as int) <==> parents.len() > 0
            &&& s.lanes.len() >= w.lanes.len()
            &&& forall|l: int| l != lane && #[trigger] mid(w, oid, lane, l) ==> s.lanes[l] == w.lanes[l]
            &&& forall|o: Oid| #[trigger] parents.contains(o) ==> exists|l: int|
                0 <= l < s.lanes.len() && #[trigger] s.lanes[l] == Some(o) && (l == lane || arms(
                    cell_at(node, 2 * l),
                ).down) && (parents.len() <= 2 ==> stretches(node, l))
        }),
{
    let oid = sc.cs[row].oid;
    laws::lemma_budget_monotone(sc.cs, (row + 1) as nat, sc.cs.len());
    laws::lemma_step_lanes(sc, w, row);
    laws::lemma_step_nodes(sc, w, row);
    let (pre, lane, color) = w.prepared(sc, row);
    let next = Walk { colors: w.colors.next_row(), ..w };
    laws::lemma_awaiting(next.lanes, oid);
    laws::lemma_opened(next.lanes, sc.zero_ok(oid));
    let seated = next.seated(lane);
    let j = seated.joined(oid, lane);
    let m = seated.merging(oid, lane, seated.lanes.len());
    lemma_merging_lanes(seated, oid, lane, seated.lanes.len());
    walk::lemma_merging(seated, oid, lane, seated.lanes.len());
    line::lemma_rows(sc.cs, oid);
    assert(line::rows(sc.cs)[oid] == row);
    let parents = sc.parents(row);
    sc.cs[row].parents.lemma_filter_len(|p: Oid| line::loaded(sc.cs, p));
    let start = if parents.len() >= 2 {
        Walk { colors: pre.colors.forking(), ..pre }
    } else {
        pre
    };
    assert forall|l: int| busy(start.lanes, l) == (l != lane && mid(w, oid, lane, l)) by {
        if 0 <= l < seated.lanes.len() && l != lane {
            assert(start.lanes[l] == j.lanes[l]);
            if m.len() > 0 {
                let gone = seated.ending(oid, lane);
                assert(gone.contains(l as usize) <==> seated.lanes[l] == Some(oid));
            } else {
                assert(j.lanes[l] == seated.lanes[l]);
            }
        }
    }
    assert forall|l: int| #[trigger] busy(start.lanes, l) implies start.lanes[l] == w.lanes[l] && busy(
        w.lanes,
        l,
    ) by {
        assert(mid(w, oid, lane, l));
        assert(start.lanes[l] == j.lanes[l]);
    }
    lemma_linked(sc, row, lane, color, start, parents.len());
    if parents.len() > 0 {
        lemma_runs_on(sc, row, lane, color, start, parents.len());
    }
    let q = walk::placed(sc, row, oid, lane, color, start, parents, parents.len());
    let p = w.connected(sc, row);
    assert(p.links == q.links && p.walk.lanes == q.walk.lanes);
    walk::lemma_placed_frame(sc, row, oid, lane, color, start, parents, parents.len());
    let s = w.step(sc, row);
    let node = s.nodes.last();
    let shade = node.color_index;
    // The lanes are settled as they are.
    assert(s.lanes =~= p.walk.lanes) by {
        if walk::crossed_lane(p.links, lane) is Some {
            let k = choose|k: int| walk::crosses_first(p.links, lane, k);
            assert(walk::crosses_first(p.links, lane, k));
            let other = p.links[k].lane;
            assert(p.links[k].oid == parents[k]);
            assert(p.walk.lanes[other as int] == Some(parents[k]));
            laws::lemma_parent_below(sc, row, k);
            line::lemma_rows(sc.cs, parents[k]);
        }
    }
    // The row is wide enough.
    let base = if lane > pre.max_lane {
        lane
    } else {
        pre.max_lane
    };
    let of_links = p.links.map_values(|l: ParentLink| l.lane);
    walk::lemma_widest(base, of_links);
    let of_merging = m.map_values(|p: (usize, usize)| p.0).push(lane);
    walk::lemma_widest(seated.max_lane, of_merging);
    assert(pre.max_lane >= w.max_lane);
    assert(node.cells.len() == 2 * (s.max_lane + 1));
    assert forall|l: int| #[trigger] busy(s.lanes, l) implies ({
        &&& l <= s.max_lane
        &&& line::loaded(sc.cs, s.lanes[l]->0)
        &&& line::rows(sc.cs)[s.lanes[l]->0] >= row + 1
        &&& named_above(sc.cs, row + 1, s.lanes[l]->0)
    }) by {
        if busy(start.lanes, l) {
            assert(busy(w.lanes, l));
            let a = choose|a: int| 0 <= a < row && (#[trigger] sc.cs[a]).parents.contains(w.lanes[l]->0);
            assert(sc.cs[a].parents.contains(s.lanes[l]->0));
            assert(mid(w, oid, lane, l));
            line::lemma_rows(sc.cs, w.lanes[l]->0);
        } else {
            let i = if l == lane {
                choose|i: int| 0 <= i < parents.len() && #[trigger] parents[i] == p.walk.lanes[lane as int]->0
            } else {
                let i = choose|i: int| 0 <= i < parents.len() && (#[trigger] p.links[i]).lane == l;
                assert(of_links[i] == l);
                i
            };
            assert(p.links[i].oid == parents[i]);
            laws::lemma_parent_below(sc, row, i);
            assert(parents.contains(parents[i]));
            lemma_loaded_parent(sc, row, parents[i]);
            assert(sc.cs[row].parents.contains(s.lanes[l]->0));
        }
    }
    let f = |k: int| cells::row_cell(p.walk.view(), lane, shade, oid, p.links, p.links.len(), k);
    assert forall|l: int| l >= 0 && l != lane implies ({
        let c = #[trigger] cell_at(node, 2 * l);
        &&& !(c is Commit)
        &&& arms(c).up <==> mid(w, oid, lane, l)
        &&& arms(c).down <==> busy(s.lanes, l)
    }) by {
        lemma_row_cell(p.walk.view(), lane, shade, oid, p.links, p.links.len(), l);
        if 2 * l < node.cells.len() {
            assert(node.cells[2 * l] == f(2 * l).0);
        } else {
            assert(!busy(s.lanes, l));
            if mid(w, oid, lane, l) {
                assert(busy(w.lanes, l));
            }
        }
        assert(busy(start.lanes, l) == mid(w, oid, lane, l));
        if exists|i: int| 0 <= i < p.links.len() && (#[trigger] p.links[i]).lane == l {
            let i = choose|i: int| 0 <= i < p.links.len() && (#[trigger] p.links[i]).lane == l;
            assert(of_links[i] == l);
            let k = lemma_last_to(p.links, p.links.len(), l, i);
            assert(p.links[k].lane == l);
        } else {
            assert(busy(p.walk.lanes, l) ==> busy(start.lanes, l));
        }
    }
    assert forall|col: int| col % 2 == 1 implies ({
        let c = #[trigger] cell_at(node, col);
        !(c is Commit) && !arms(c).up && !arms(c).down
    }) by {
        lemma_row_gap(p.walk.view(), lane, shade, oid, p.links, p.links.len(), col);
        if 0 <= col < node.cells.len() {
            assert(node.cells[col] == f(col).0);
        }
    }
    assert(cell_at(node, 2 * lane) is Commit) by {
        lemma_dot(p.walk.view(), lane, shade, oid, p.links, p.links.len());
        assert(node.cells[2 * lane] == f(2 * lane).0);
    }
    assert forall|l: int| l != lane && #[trigger] mid(w, oid, lane, l) implies s.lanes[l] == w.lanes[l] by {
        assert(busy(start.lanes, l));
    }
    assert forall|o: Oid| #[trigger] parents.contains(o) implies exists|l: int|
        0 <= l < s.lanes.len() && #[trigger] s.lanes[l] == Some(o) && (l == lane || arms(
            cell_at(node, 2 * l),
        ).down) && (parents.len() <= 2 ==> stretches(node, l)) by {
        let i = choose|i: int| 0 <= i < parents.len() && parents[i] == o;
        let l = choose|l: int|
            0 <= l < p.walk.lanes.len() && p.walk.lanes[l] == Some(#[trigger] parents[i]) && p.links[i].lane == l;
        assert(s.lanes[l] == Some(o));
        if l != lane {
            let c = cell_at(node, 2 * l);
            assert(busy(s.lanes, l));
            assert(arms(c).down);
            if parents.len() <= 2 {
                assert(i == 1);
                assert(of_links[i] == l);
                assert forall|col: int| cells::between(col, lane, l as usize) implies arms(
                    #[trigger] cell_at(node, col),
                ).left && arms(cell_at(node, col)).right by {
                    reveal_with_fuel(cells::row_cell, 3);
                    assert(node.cells[col] == f(col).0);
                }
                assert(node.cells[2 * l] == f(2 * l).0);
                reveal_with_fuel(cells::row_cell, 3);
                assert(stretches(node, l));
            }
        }
    }
}

/// A horizontal run joins the dot of a row to lane `l`.
pub open spec fn stretches(n: NodeView, l: int) -> bool {
    &&& forall|col: int|
        2 * n.lane < col < 2 * l || 2 * l < col < 2 * n.lane ==> arms(#[trigger] cell_at(n, col)).left && arms(
            cell_at(n, col),
        ).right
    &&& l > n.lane ==> arms(cell_at(n, 2 * l)).left && !arms(cell_at(n, 2 * l)).right
    &&& l < n.lane ==> arms(cell_at(n, 2 * l)).right && !arms(cell_at(n, 2 * l)).left
}

proof fn lemma_dot(
    view: LaneView,
    lane: usize,
    shade: usize,
    oid: Oid,
    links: Seq<ParentLink>,
    n: nat,
)
    requires
        n <= links.len(),
    ensures
        cells::row_cell(view, lane, shade, oid, links, n, 2 * lane).0 == CellType::Commit(shade),
    decreases n,
{
    if n > 0 {
        lemma_dot(view, lane, shade, oid, links, (n - 1) as nat);
    }
}

/// A connector row carries no commit and swings a lane over to a lower one.
pub open spec fn swings(n: NodeView, to: int, from: int) -> bool {
    &&& n.commit is None
    &&& arms(cell_at(n, 2 * to)).right
    &&& arms(cell_at(n, 2 * from)).up
    &&& arms(cell_at(n, 2 * from)).left
    &&& forall|col: int|
        2 * to < col < 2 * from ==> arms(#[trigger] cell_at(n, col)).left && arms(cell_at(n, col)).right
}

/// How the connector row of a step, where it has one, is drawn.
#[verifier::rlimit(40)]
#[verifier::spinoff_prover]
proof fn lemma_step_connector(sc: Scene, w: Walk, row: int)
    requires
        tidy(sc),
        0 <= row < sc.cs.len(),
        sound(sc, w, row),
    ensures
        ({
            let oid = sc.cs[row].oid;
            let (pre, lane, color) = w.prepared(sc, row);
            let conn = pre.nodes.last();
            &&& pre.nodes == w.nodes || (pre.nodes.len() == w.nodes.len() + 1 && pre.nodes.drop_last() == w.nodes)
            &&& pre.nodes == w.nodes ==> forall|l: int| l != lane && #[trigger] busy(w.lanes, l) ==> w.lanes[l] != Some(oid)
            &&& (exists|l: int| #[trigger] busy(w.lanes, l) && w.lanes[l] == Some(oid)) ==> busy(w.lanes, lane as int)
                && w.lanes[lane as int] == Some(oid)
            &&& busy(w.lanes, lane as int) ==> w.lanes[lane as int] == Some(oid)
            &&& pre.nodes != w.nodes ==> {
                &&& conn.commit is None
                &&& forall|l: int| l >= 0 ==> {
                    let c = #[trigger] cell_at(conn, 2 * l);
                    &&& !(c is Commit)
                    &&& arms(c).up <==> busy(w.lanes, l)
                    &&& arms(c).down <==> mid(w, oid, lane, l)
                }
                &&& forall|col: int| col % 2 == 1 ==> {
                    let c = #[trigger] cell_at(conn, col);
                    !(c is Commit) && !arms(c).up && !arms(c).down
                }
                &&& forall|l: int|
                    l != lane && #[trigger] busy(w.lanes, l) && w.lanes[l] == Some(oid) ==> l > lane && swings(
                        conn,
                        lane as int,
                        l,
                    )
            }
        }),
{
    let oid = sc.cs[row].oid;
    laws::lemma_budget_monotone(sc.cs, (row + 1) as nat, sc.cs.len());
    laws::lemma_step_lanes(sc, w, row);
    let (pre, lane, color) = w.prepared(sc, row);
    let next = Walk { colors: w.colors.next_row(), ..w };
    laws::lemma_awaiting(next.lanes, oid);
    laws::lemma_opened(next.lanes, sc.zero_ok(oid));
    let seated = next.seated(lane);
    let j = seated.joined(oid, lane);
    let m = seated.merging(oid, lane, seated.lanes.len());
    lemma_merging_lanes(seated, oid, lane, seated.lanes.len());
    walk::lemma_merging(seated, oid, lane, seated.lanes.len());
    assert(pre.nodes == j.nodes);
    assert forall|l: int| busy(seated.lanes, l) == #[trigger] busy(w.lanes, l) by {}
    assert forall|l: int| busy(w.lanes, l) implies seated.lanes[l] == #[trigger] w.lanes[l] by {}
    assert forall|l: int| #[trigger] busy(w.lanes, l) && w.lanes[l] == Some(oid) implies l >= lane && busy(
        w.lanes,
        lane as int,
    ) && w.lanes[lane as int] == Some(oid) by {
        assert(walk::awaiting(next.lanes, oid) is Some);
    }
    if m.len() > 0 {
        assert(m[0].0 != lane);
        assert(seated.lanes[m[0].0 as int] == Some(oid));
        assert(busy(w.lanes, m[0].0 as int));
        let conn = pre.nodes.last();
        assert(pre.nodes.drop_last() =~= w.nodes);
        let c0 = cells::lane_color(seated.lane_colors, seated.oid_colors, lane, oid);
        let of_merging = m.map_values(|p: (usize, usize)| p.0).push(lane);
        walk::lemma_widest(seated.max_lane, of_merging);
        assert(of_merging[m.len() as int] == lane);
        let f = |k: int| cells::fork_cell(seated.view(), lane, c0, oid, m, m.len(), k);
        assert forall|i: int| 0 <= i < m.len() implies (#[trigger] m[i]).0 > lane by {
            assert(busy(w.lanes, m[i].0 as int));
        }
        assert forall|l: int| l >= 0 implies ({
            let c = #[trigger] cell_at(conn, 2 * l);
            &&& !(c is Commit)
            &&& arms(c).up <==> busy(w.lanes, l)
            &&& arms(c).down <==> mid(w, oid, lane, l)
        }) by {
            lemma_fork_cell(seated.view(), lane, c0, oid, m, m.len(), l);
            if 2 * l < conn.cells.len() {
                assert(conn.cells[2 * l] == f(2 * l).0);
            } else {
                assert(!busy(w.lanes, l));
            }
            if cells::merges(m, l) {
                let i = choose|i: int| 0 <= i < m.len() && (#[trigger] m[i]).0 == l;
                assert(of_merging[i] == l);
                let k = lemma_last_merging(m, m.len(), l, i);
                assert(m[k].0 == l);
            } else {
                assert(l != lane && busy(w.lanes, l) ==> w.lanes[l] != Some(oid));
            }
        }
        assert forall|col: int| col % 2 == 1 implies ({
            let c = #[trigger] cell_at(conn, col);
            !(c is Commit) && !arms(c).up && !arms(c).down
        }) by {
            lemma_fork_gap(seated.view(), lane, c0, oid, m, m.len(), col);
            if 0 <= col < conn.cells.len() {
                assert(conn.cells[col] == f(col).0);
            }
        }
        assert forall|l: int| l != lane && #[trigger] busy(w.lanes, l) && w.lanes[l] == Some(oid) implies l > lane && swings(
            conn,
            lane as int,
            l,
        ) by {
            assert(seated.lanes[l] == Some(oid));
            assert(cells::merges(m, l));
            let i = choose|i: int| 0 <= i < m.len() && (#[trigger] m[i]).0 == l;
            assert(of_merging[i] == l);
            let k = lemma_last_merging(m, m.len(), l, i);
            lemma_fork_cell(seated.view(), lane, c0, oid, m, m.len(), l);
            lemma_fork_cell(seated.view(), lane, c0, oid, m, m.len(), lane as int);
            assert(conn.cells[2 * l] == f(2 * l).0);
            assert(conn.cells[2 * lane] == f(2 * lane).0);
            assert forall|col: int| 2 * lane < col < 2 * l implies arms(#[trigger] cell_at(conn, col)).left && arms(
                cell_at(conn, col),
            ).right by {
                lemma_fork_run(seated.view(), lane, c0, oid, m, m.len(), i, col);
                assert(conn.cells[col] == f(col).0);
            }
        }
    } else {
        assert(pre.nodes == w.nodes);
        assert forall|l: int| l != lane && #[trigger] busy(w.lanes, l) implies w.lanes[l] != Some(oid) by {
            assert(seated.lanes[l] != Some(oid));
        }
    }
}

/// A commit has a parent among the loaded commits.
pub open spec fn has_parent(cs: Seq<CommitView>, c: CommitView) -> bool {
    exists|p: Oid| #[trigger] c.parents.contains(p) && line::loaded(cs, p)
}

/// A commit is a parent of a loaded one.
pub open spec fn has_child(cs: Seq<CommitView>, c: CommitView) -> bool {
    exists|r: int| 0 <= r < cs.len() && (#[trigger] cs[r]).parents.contains(c.oid)
}

/// Something leads down from a cell: a stroke, or a dot whose commit has a
/// parent.
pub open spec fn leaves_below(cs: Seq<CommitView>, n: NodeView, col: int) -> bool {
    if cell_at(n, col) is Commit {
        n.commit is Some && has_parent(cs, n.commit->0)
    } else {
        arms(cell_at(n, col)).down
    }
}

/// Something comes in from above: a stroke, or a dot whose commit has a child.
pub open spec fn comes_from_above(cs: Seq<CommitView>, n: NodeView, col: int) -> bool {
    if cell_at(n, col) is Commit {
        n.commit is Some && has_child(cs, n.commit->0)
    } else {
        arms(cell_at(n, col)).up
    }
}

/// What leaves one row comes in on the next, column by column.
pub open spec fn meets(cs: Seq<CommitView>, a: NodeView, b: NodeView) -> bool {
    forall|col: int| #[trigger] leaves_below(cs, a, col) <==> comes_from_above(cs, b, col)
}

/// A row passes lane `l` straight down.
pub open spec fn passes(n: NodeView, l: int) -> bool {
    arms(cell_at(n, 2 * l)).up && arms(cell_at(n, 2 * l)).down
}

/// Lane `l` sets out from row `i` and is passed on by every row from there to
/// `end`.
pub open spec fn runs(ns: Seq<NodeView>, i: int, l: int, end: int) -> bool {
    &&& ns[i].lane == l || arms(cell_at(ns[i], 2 * l)).down
    &&& ns[i].commit is Some && ns[i].commit->0.parents.len() <= 2 ==> stretches(ns[i], l)
    &&& forall|j: int| i < j < end ==> passes(#[trigger] ns[j], l)
}

/// A line leads from the dot of row `i` down to the dot of row `k`: along one
/// lane, and at last perhaps over to a lower one on a connector row.
pub open spec fn joined(ns: Seq<NodeView>, i: int, k: int) -> bool {
    exists|l: int| #[trigger] joined_by(ns, i, k, l)
}

pub open spec fn joined_by(ns: Seq<NodeView>, i: int, k: int, l: int) -> bool {
    &&& 0 <= i < k < ns.len()
    &&& l >= 0
    &&& ({
        ||| ns[k].lane == l && runs(ns, i, l, k)
        ||| i < k - 1 && runs(ns, i, l, k - 1) && swings(ns[k - 1], ns[k].lane as int, l)
    })
}

/// Row `k` carries the commit `o`.
pub open spec fn carries(ns: Seq<NodeView>, k: int, o: Oid) -> bool {
    0 <= k < ns.len() && ns[k].commit is Some && ns[k].commit->0.oid == o && cell_at(
        ns[k],
        2 * ns[k].lane,
    ) is Commit
}

/// A lane runs from row `i` towards `o`, which is still to come.
spec fn under_way(w: Walk, i: int, o: Oid) -> bool {
    exists|l: int|
        0 <= l < w.lanes.len() && #[trigger] w.lanes[l] == Some(o) && runs(w.nodes, i, l, w.nodes.len() as int)
}

/// The parent `o` of the commit in row `i` is reached, or a lane runs towards it.
spec fn pursued(sc: Scene, w: Walk, row: int, i: int, o: Oid) -> bool {
    if line::rows(sc.cs)[o] < row {
        exists|k: int| #[trigger] carries(w.nodes, k, o) && joined(w.nodes, i, k)
    } else {
        under_way(w, i, o)
    }
}

/// The rows drawn so far join.
spec fn woven(sc: Scene, w: Walk, row: int) -> bool {
    &&& sound(sc, w, row)
    &&& w.nodes.len() == 0 <==> row == 0
    &&& row == 0 ==> forall|l: int| !#[trigger] busy(w.lanes, l)
    &&& forall|i: int| 0 <= i < w.nodes.len() - 1 ==> meets(sc.cs, #[trigger] w.nodes[i], w.nodes[i + 1])
    &&& w.nodes.len() > 0 ==> forall|col: int| !#[trigger] comes_from_above(sc.cs, w.nodes[0], col)
    &&& w.nodes.len() > 0 ==> forall|l: int|
        l >= 0 ==> (#[trigger] leaves_below(sc.cs, w.nodes.last(), 2 * l) <==> busy(w.lanes, l))
    &&& w.nodes.len() > 0 ==> forall|col: int|
        col < 0 || col % 2 == 1 ==> !#[trigger] leaves_below(sc.cs, w.nodes.last(), col)
    &&& forall|i: int, o: Oid|
        0 <= i < w.nodes.len() && (#[trigger] w.nodes[i]).commit is Some
            && #[trigger] w.nodes[i].commit->0.parents.contains(o) && line::loaded(sc.cs, o) ==> pursued(
            sc,
            w,
            row,
            i,
            o,
        )
    &&& forall|o: Oid| #[trigger]
        named_above(sc.cs, row, o) && line::loaded(sc.cs, o) && line::rows(sc.cs)[o] >= row ==> exists|l: int|
            0 <= l < w.lanes.len() && #[trigger] w.lanes[l] == Some(o)
    &&& forall|i: int| 0 <= i < w.nodes.len() && (#[trigger] w.nodes[i]).commit is Some ==> exists|r: int|
        0 <= r < row && w.nodes[i].commit->0 == #[trigger] sc.cs[r]
}

proof fn lemma_has_child(sc: Scene, row: int)
    requires
        tidy(sc),
        0 <= row < sc.cs.len(),
    ensures
        has_child(sc.cs, sc.cs[row]) <==> named_above(sc.cs, row, sc.cs[row].oid),
{
    let o = sc.cs[row].oid;
    if has_child(sc.cs, sc.cs[row]) {
        let r = choose|r: int| 0 <= r < sc.cs.len() && (#[trigger] sc.cs[r]).parents.contains(o);
        let k = choose|k: int| 0 <= k < sc.cs[r].parents.len() && sc.cs[r].parents[k] == o;
        assert(sc.cs[r].parents[k] == sc.cs[row].oid);
        assert(r < row);
    }
    if named_above(sc.cs, row, o) {
        let r = choose|r: int| 0 <= r < row && (#[trigger] sc.cs[r]).parents.contains(o);
        assert(sc.cs[r].parents.contains(o));
    }
}

proof fn lemma_has_parent(sc: Scene, row: int)
    requires
        0 <= row < sc.cs.len(),
    ensures
        has_parent(sc.cs, sc.cs[row]) <==> sc.parents(row).len() > 0,
{
    if has_parent(sc.cs, sc.cs[row]) {
        let p = choose|p: Oid| #[trigger] sc.cs[row].parents.contains(p) && line::loaded(sc.cs, p);
        lemma_loaded_parent(sc, row, p);
        assert(sc.parents(row).contains(p));
    }
    if sc.parents(row).len() > 0 {
        let p = sc.parents(row)[0];
        assert(sc.parents(row).contains(p));
        lemma_loaded_parent(sc, row, p);
    }
}

proof fn lemma_joined_keeps(a: Seq<NodeView>, b: Seq<NodeView>, i: int, k: int)
    requires
        joined(a, i, k),
        a.len() <= b.len(),
        forall|j: int| 0 <= j < a.len() ==> #[trigger] b[j] == a[j],
    ensures
        joined(b, i, k),
{
    let l = choose|l: int| #[trigger] joined_by(a, i, k, l);
    assert(b[i] == a[i] && b[k] == a[k]);
    assert(joined_by(b, i, k, l)) by {
        if a[k].lane == l && runs(a, i, l, k) {
            assert forall|j: int| i < j < k implies passes(#[trigger] b[j], l) by {
                assert(passes(a[j], l));
            }
        } else {
            assert(b[k - 1] == a[k - 1]);
            assert forall|j: int| i < j < k - 1 implies passes(#[trigger] b[j], l) by {
                assert(passes(a[j], l));
            }
        }
    }
}

/// A step continues every lane and ends those of its commit.
#[verifier::rlimit(40)]
#[verifier::spinoff_prover]
proof fn lemma_step_pursued(sc: Scene, w: Walk, row: int, i: int, o: Oid)
    requires
        tidy(sc),
        0 <= row < sc.cs.len(),
        woven(sc, w, row),
        0 <= i < w.nodes.len(),
        w.nodes[i].commit is Some,
        w.nodes[i].commit->0.parents.contains(o),
        line::loaded(sc.cs, o),
    ensures
        pursued(sc, w.step(sc, row), row + 1, i, o),
{
    let oid = sc.cs[row].oid;
    lemma_step_arms(sc, w, row);
    lemma_step_connector(sc, w, row);
    let (pre, lane, color) = w.prepared(sc, row);
    let s = w.step(sc, row);
    let n = w.nodes.len() as int;
    let last = s.nodes.len() - 1;
    assert forall|j: int| 0 <= j < n implies #[trigger] s.nodes[j] == w.nodes[j] by {
        assert(s.nodes[j] == pre.nodes[j]);
        if pre.nodes != w.nodes {
            assert(pre.nodes.drop_last()[j] == w.nodes[j]);
        }
    }
    line::lemma_rows(sc.cs, oid);
    line::lemma_rows(sc.cs, o);
    assert(line::rows(sc.cs)[oid] == row);
    assert(pursued(sc, w, row, i, o));
    if line::rows(sc.cs)[o] < row {
        let k = choose|k: int| #[trigger] carries(w.nodes, k, o) && joined(w.nodes, i, k);
        lemma_joined_keeps(w.nodes, s.nodes, i, k);
        assert(carries(s.nodes, k, o));
    } else {
        let l = choose|l: int|
            0 <= l < w.lanes.len() && #[trigger] w.lanes[l] == Some(o) && runs(w.nodes, i, l, w.nodes.len() as int);
        assert(busy(w.lanes, l));
        if o == oid {
            assert(carries(s.nodes, last, o));
            if l == lane {
                assert(mid(w, oid, lane, l));
                assert forall|j: int| i < j < last implies passes(#[trigger] s.nodes[j], l) by {
                    if j < n {
                        assert(passes(w.nodes[j], l));
                    } else {
                        assert(s.nodes[j] == pre.nodes.last());
                        assert(arms(cell_at(pre.nodes.last(), 2 * l)).up);
                    }
                }
                assert(joined_by(s.nodes, i, last, l));
            } else {
                assert(pre.nodes != w.nodes);
                assert(s.nodes[last - 1] == pre.nodes.last());
                assert forall|j: int| i < j < last - 1 implies passes(#[trigger] s.nodes[j], l) by {
                    assert(passes(w.nodes[j], l));
                }
                assert(swings(pre.nodes.last(), lane as int, l));
                assert(joined_by(s.nodes, i, last, l));
            }
            assert(joined(s.nodes, i, last));
        } else {
            assert(mid(w, oid, lane, l));
            assert(l != lane);
            assert(s.lanes[l] == Some(o));
            assert(busy(s.lanes, l));
            assert forall|j: int| i < j < s.nodes.len() implies passes(#[trigger] s.nodes[j], l) by {
                if j < n {
                    assert(passes(w.nodes[j], l));
                } else if j < last {
                    assert(s.nodes[j] == pre.nodes.last());
                    assert(arms(cell_at(pre.nodes.last(), 2 * l)).up);
                } else {
                    assert(arms(cell_at(s.nodes.last(), 2 * l)).up);
                }
            }
            assert(runs(s.nodes, i, l, s.nodes.len() as int));
            assert(under_way(s, i, o));
        }
    }
}

#[verifier::rlimit(40)]
#[verifier::spinoff_prover]
proof fn lemma_step_meets(sc: Scene, w: Walk, row: int)
    requires
        tidy(sc),
        0 <= row < sc.cs.len(),
        woven(sc, w, row),
    ensures
        ({
            let s = w.step(sc, row);
            &&& forall|i: int| 0 <= i < s.nodes.len() - 1 ==> meets(sc.cs, #[trigger] s.nodes[i], s.nodes[i + 1])
            &&& forall|col: int| !#[trigger] comes_from_above(sc.cs, s.nodes[0], col)
            &&& forall|l: int|
                l >= 0 ==> (#[trigger] leaves_below(sc.cs, s.nodes.last(), 2 * l) <==> busy(s.lanes, l))
            &&& forall|col: int|
                col < 0 || col % 2 == 1 ==> !#[trigger] leaves_below(sc.cs, s.nodes.last(), col)
        }),
{
    let oid = sc.cs[row].oid;
    lemma_step_arms(sc, w, row);
    lemma_step_connector(sc, w, row);
    let (pre, lane, color) = w.prepared(sc, row);
    let s = w.step(sc, row);
    let node = s.nodes.last();
    let conn = pre.nodes.last();
    let n = w.nodes.len() as int;
    lemma_has_child(sc, row);
    lemma_has_parent(sc, row);
    line::lemma_rows(sc.cs, oid);
    assert(line::loaded(sc.cs, oid));
    assert(line::rows(sc.cs)[oid] == row);
    // A lane comes down to the commit exactly if it has a child.
    assert(busy(w.lanes, lane as int) <==> has_child(sc.cs, sc.cs[row])) by {
        if has_child(sc.cs, sc.cs[row]) {
            assert(named_above(sc.cs, row, oid));
            let l = choose|l: int| 0 <= l < w.lanes.len() && #[trigger] w.lanes[l] == Some(oid);
            assert(busy(w.lanes, l));
        }
    }
    assert forall|col: int| #[trigger] comes_from_above(sc.cs, node, col) <==> (col >= 0 && col % 2 == 0 && mid(
        w,
        oid,
        lane,
        col / 2,
    )) by {
        if col >= 0 && col % 2 == 0 {
            let l = col / 2;
            assert(col == 2 * l);
            if l != lane {
                assert(!(cell_at(node, 2 * l) is Commit));
            }
        } else if col >= 0 {
            assert(!(cell_at(node, col) is Commit));
        }
    }
    assert forall|l: int| l >= 0 implies (#[trigger] leaves_below(sc.cs, node, 2 * l) <==> busy(s.lanes, l)) by {
        if l != lane {
            assert(!(cell_at(node, 2 * l) is Commit));
        }
    }
    assert forall|col: int| col < 0 || col % 2 == 1 implies !#[trigger] leaves_below(sc.cs, node, col) by {
        if col >= 0 {
            assert(!(cell_at(node, col) is Commit));
        }
    }
    assert forall|j: int| 0 <= j < n implies #[trigger] s.nodes[j] == w.nodes[j] by {
        assert(s.nodes[j] == pre.nodes[j]);
        if pre.nodes != w.nodes {
            assert(pre.nodes.drop_last()[j] == w.nodes[j]);
        }
    }
    if pre.nodes != w.nodes {
        assert forall|col: int| #[trigger] comes_from_above(sc.cs, conn, col) <==> (col >= 0 && col % 2 == 0 && busy(
            w.lanes,
            col / 2,
        )) by {
            if col >= 0 && col % 2 == 0 {
                assert(col == 2 * (col / 2));
                assert(!(cell_at(conn, 2 * (col / 2)) is Commit));
            } else if col >= 0 {
                assert(!(cell_at(conn, col) is Commit));
            }
        }
        assert forall|col: int| #[trigger] leaves_below(sc.cs, conn, col) <==> (col >= 0 && col % 2 == 0 && mid(
            w,
            oid,
            lane,
            col / 2,
        )) by {
            if col >= 0 && col % 2 == 0 {
                assert(col == 2 * (col / 2));
                assert(!(cell_at(conn, 2 * (col / 2)) is Commit));
            } else if col >= 0 {
                assert(!(cell_at(conn, col) is Commit));
            }
        }
        assert(meets(sc.cs, conn, node));
        if n > 0 {
            assert(meets(sc.cs, w.nodes.last(), conn)) by {
                assert forall|col: int| #[trigger] leaves_below(sc.cs, w.nodes.last(), col) <==> comes_from_above(
                    sc.cs,
                    conn,
                    col,
                ) by {
                    if col >= 0 && col % 2 == 0 {
                        assert(col == 2 * (col / 2));
                        assert(leaves_below(sc.cs, w.nodes.last(), 2 * (col / 2)) <==> busy(w.lanes, col / 2));
                    }
                }
            }
        }
    } else if n > 0 {
        assert(meets(sc.cs, w.nodes.last(), node)) by {
            assert forall|col: int| #[trigger] leaves_below(sc.cs, w.nodes.last(), col) <==> comes_from_above(
                sc.cs,
                node,
                col,
            ) by {
                if col >= 0 && col % 2 == 0 {
                    assert(col == 2 * (col / 2));
                    assert(leaves_below(sc.cs, w.nodes.last(), 2 * (col / 2)) <==> busy(w.lanes, col / 2));
                }
            }
        }
    }
    assert forall|i: int| 0 <= i < s.nodes.len() - 1 implies meets(sc.cs, #[trigger] s.nodes[i], s.nodes[i + 1]) by {
        if i + 1 < n {
            assert(s.nodes[i + 1] == w.nodes[i + 1]);
            assert(meets(sc.cs, w.nodes[i], w.nodes[i + 1]));
        } else if i < n {
            assert(s.nodes[i] == w.nodes.last());
        }
    }
    if n == 0 {
        assert forall|col: int| !#[trigger] comes_from_above(sc.cs, s.nodes[0], col) by {
            if pre.nodes != w.nodes {
                assert(s.nodes[0] == conn);
            } else {
                assert(s.nodes[0] == node);
            }
            assert(!busy(w.lanes, col / 2));
        }
    } else {
        assert(s.nodes[0] == w.nodes[0]);
    }
}

#[verifier::rlimit(40)]
#[verifier::spinoff_prover]
proof fn lemma_step_woven(sc: Scene, w: Walk, row: int)
    requires
        tidy(sc),
        0 <= row < sc.cs.len(),
        woven(sc, w, row),
    ensures
        woven(sc, w.step(sc, row), row + 1),
{
    let oid = sc.cs[row].oid;
    lemma_step_arms(sc, w, row);
    lemma_step_connector(sc, w, row);
    lemma_step_meets(sc, w, row);
    let (pre, lane, color) = w.prepared(sc, row);
    let s = w.step(sc, row);
    let node = s.nodes.last();
    let n = w.nodes.len() as int;
    let last = s.nodes.len() - 1;
    line::lemma_rows(sc.cs, oid);
    assert(line::rows(sc.cs)[oid] == row);
    assert forall|j: int| 0 <= j < n implies #[trigger] s.nodes[j] == w.nodes[j] by {
        assert(s.nodes[j] == pre.nodes[j]);
        if pre.nodes != w.nodes {
            assert(pre.nodes.drop_last()[j] == w.nodes[j]);
        }
    }
    assert forall|i: int, o: Oid|
        0 <= i < s.nodes.len() && (#[trigger] s.nodes[i]).commit is Some
            && #[trigger] s.nodes[i].commit->0.parents.contains(o) && line::loaded(sc.cs, o) implies pursued(
        sc,
        s,
        row + 1,
        i,
        o,
    ) by {
        if i < n {
            assert(w.nodes[i].commit->0.parents.contains(o));
            lemma_step_pursued(sc, w, row, i, o);
        } else {
            if i < last {
                assert(s.nodes[i] == pre.nodes.last());
                assert(false);
            }
            lemma_loaded_parent(sc, row, o);
            assert(sc.parents(row).contains(o));
            let k = choose|k: int| 0 <= k < sc.parents(row).len() && sc.parents(row)[k] == o;
            laws::lemma_parent_below(sc, row, k);
            let l = choose|l: int|
                0 <= l < s.lanes.len() && #[trigger] s.lanes[l] == Some(o) && (l == lane || arms(
                    cell_at(node, 2 * l),
                ).down) && (sc.parents(row).len() <= 2 ==> stretches(node, l));
            sc.cs[row].parents.lemma_filter_len(|p: Oid| line::loaded(sc.cs, p));
            assert(runs(s.nodes, i, l, s.nodes.len() as int));
            assert(under_way(s, i, o));
        }
    }
    assert forall|o: Oid| #[trigger]
        named_above(sc.cs, row + 1, o) && line::loaded(sc.cs, o) && line::rows(sc.cs)[o] >= row + 1 implies exists|l: int|
        0 <= l < s.lanes.len() && #[trigger] s.lanes[l] == Some(o) by {
        let r = choose|r: int| 0 <= r < row + 1 && (#[trigger] sc.cs[r]).parents.contains(o);
        if r < row {
            assert(named_above(sc.cs, row, o));
            let l = choose|l: int| 0 <= l < w.lanes.len() && #[trigger] w.lanes[l] == Some(o);
            assert(busy(w.lanes, l));
            assert(mid(w, oid, lane, l));
            assert(l != lane);
            assert(s.lanes[l] == Some(o));
        } else {
            lemma_loaded_parent(sc, row, o);
            assert(sc.parents(row).contains(o));
        }
    }
    assert forall|i: int| 0 <= i < s.nodes.len() && (#[trigger] s.nodes[i]).commit is Some implies exists|r: int|
        0 <= r < row + 1 && s.nodes[i].commit->0 == #[trigger] sc.cs[r] by {
        if i < n {
            let r = choose|r: int| 0 <= r < row && w.nodes[i].commit->0 == #[trigger] sc.cs[r];
            assert(s.nodes[i].commit->0 == sc.cs[r]);
        } else {
            if i < last {
                assert(s.nodes[i] == pre.nodes.last());
            }
            assert(s.nodes[i].commit->0 == sc.cs[row]);
        }
    }
}

proof fn lemma_woven(sc: Scene, n: nat)
    requires
        tidy(sc),
        n <= sc.cs.len(),
    ensures
        woven(sc, Walk::after(sc, n), n as int),
    decreases n,
{
    if n > 0 {
        lemma_woven(sc, (n - 1) as nat);
        lemma_step_woven(sc, Walk::after(sc, (n - 1) as nat), n - 1);
    }
}

/// The lines of the graph run on from row to row: in every column, what leads
/// down from a row is what comes in from above on the next. Nothing comes in
/// above the first row and nothing leads on below the last. A dot is joined
/// upwards exactly if its commit has a loaded child, and downwards exactly if it
/// has a loaded parent.
pub proof fn law_lines_run_on_from_row_to_row(sc: Scene, i: int)
    requires
        tidy(sc),
        sc.cs.len() > 0,
    ensures
        ({
            let ns = layout::graph_of(sc, None, Seq::empty()).0;
            &&& ns.len() > 0
            &&& 0 <= i < ns.len() - 1 ==> meets(sc.cs, ns[i], ns[i + 1])
            &&& forall|col: int| !#[trigger] comes_from_above(sc.cs, ns[0], col)
            &&& forall|col: int| !#[trigger] leaves_below(sc.cs, ns.last(), col)
        }),
{
    let w = Walk::after(sc, sc.cs.len());
    laws::law_no_links_no_change(sc, None);
    lemma_woven(sc, sc.cs.len());
    assert forall|col: int| !#[trigger] leaves_below(sc.cs, w.nodes.last(), col) by {
        if col >= 0 && col % 2 == 0 {
            let l = col / 2;
            assert(col == 2 * l);
            if busy(w.lanes, l) {
                line::lemma_rows(sc.cs, w.lanes[l]->0);
                assert(false);
            }
        }
    }
}

/// Every commit is joined to each of its loaded parents: a line leads from its
/// dot down a lane to the dot of the parent, unbroken through every row on the
/// way.
pub proof fn law_commits_are_joined_to_their_parents(sc: Scene, i: int, parent: Oid)
    requires
        tidy(sc),
        sc.cs.len() > 0,
        0 <= i < layout::graph_of(sc, None, Seq::empty()).0.len(),
        layout::graph_of(sc, None, Seq::empty()).0[i].commit is Some,
        layout::graph_of(sc, None, Seq::empty()).0[i].commit->0.parents.contains(parent),
        line::loaded(sc.cs, parent),
    ensures
        exists|k: int| #[trigger]
            carries(layout::graph_of(sc, None, Seq::empty()).0, k, parent) && joined(
                layout::graph_of(sc, None, Seq::empty()).0,
                i,
                k,
            ),
{
    let w = Walk::after(sc, sc.cs.len());
    laws::law_no_links_no_change(sc, None);
    lemma_woven(sc, sc.cs.len());
    line::lemma_rows(sc.cs, parent);
    assert(w.nodes[i].commit->0.parents.contains(parent));
    assert(pursued(sc, w, sc.cs.len() as int, i, parent));
}

} // verus!
