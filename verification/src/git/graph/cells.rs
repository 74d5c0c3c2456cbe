//! The cells of commit rows and fork connector rows.
use std::collections::HashMap;

use crate::git::graph::{CellEdge, CellOids, CellType};
use crate::oid::{Oid, OidMap};
use vstd::prelude::*;

verus! {

/// A parent as one row draws it.
#[derive(Debug, Clone, Copy, PartialEq, Eq, Structural)]
pub struct ParentLink {
    pub oid: Oid,
    pub lane: usize,
    /// The parent was already awaited on that lane.
    pub existing: bool,
    pub color: usize,
    /// The parent's row is above this one.
    pub shown: bool,
}

/// The colour of a lane: its own, else that of the commit it awaits, else the
/// lane's number.
pub open spec fn lane_color(
    lane_colors: Map<usize, usize>,
    oid_colors: Map<Oid, usize>,
    lane: usize,
    oid: Oid,
) -> usize {
    if lane_colors.dom().contains(lane) {
        lane_colors[lane]
    } else if oid_colors.dom().contains(oid) {
        oid_colors[oid]
    } else {
        lane
    }
}

pub fn lane_color_of(
    lane_colors: &HashMap<usize, usize>,
    oid_colors: &OidMap<usize>,
    lane: usize,
    oid: Oid,
) -> (color: usize)
    ensures
        color == lane_color(lane_colors@, oid_colors@, lane, oid),
{
    broadcast use vstd::std_specs::hash::group_hash_axioms;

    match lane_colors.get(&lane) {
        Some(c) => *c,
        None => match oid_colors.get(&oid) {
            Some(c) => c,
            None => lane,
        },
    }
}

/// The edge of the pipe on `lane` that awaits `awaited`: none when no child is
/// recorded for the lane.
pub open spec fn edge_on_lane(
    children: Seq<Option<Oid>>,
    lane: int,
    awaited: Oid,
) -> Option<CellEdge> {
    if 0 <= lane < children.len() && children[lane] is Some {
        Some((children[lane]->0, awaited))
    } else {
        None
    }
}

/// The `(child, parent)` edge of the pass-through pipe on `lane`, whose awaited
/// parent is `awaited`.
fn lane_edge(active_lane_children: &[Option<Oid>], lane: usize, awaited: Oid) -> (edge: Option<
    CellEdge,
>)
    ensures
        edge == edge_on_lane(active_lane_children@, lane as int, awaited),
{
    if lane < active_lane_children.len() {
        match active_lane_children[lane] {
            Some(child) => Some((child, awaited)),
            None => None,
        }
    } else {
        None
    }
}

/// The lanes that a row is drawn over.
pub struct LaneView {
    /// The commit each lane awaits.
    pub lanes: Seq<Option<Oid>>,
    /// The commit that put each lane's edge there.
    pub children: Seq<Option<Oid>>,
    pub oid_colors: Map<Oid, usize>,
    pub lane_colors: Map<usize, usize>,
}

impl LaneView {
    /// Column `col` as the pass-through lanes alone draw it.
    pub open spec fn pipe(self, col: int) -> (CellType, CellOids) {
        let lane = col / 2;
        if col % 2 == 0 && 0 <= lane < self.lanes.len() && self.lanes[lane] is Some {
            let oid = self.lanes[lane]->0;
            (
                CellType::Pipe(lane_color(self.lane_colors, self.oid_colors, lane as usize, oid)),
                (edge_on_lane(self.children, lane, oid), None),
            )
        } else {
            (CellType::Empty, (None, None))
        }
    }
}

/// A column strictly between two lanes.
pub open spec fn between(col: int, a: usize, b: usize) -> bool {
    2 * a < col < 2 * b || 2 * b < col < 2 * a
}

/// A horizontal stroke in `color` for `edge` drawn over a cell: a pipe is
/// crossed, an empty cell is filled, and a cell another stroke owns takes the
/// edge along.
pub open spec fn cross_parent(
    was: (CellType, CellOids),
    color: usize,
    edge: CellEdge,
) -> (CellType, CellOids) {
    match was.0 {
        CellType::Pipe(p) => (CellType::HorizontalPipe(color, p), (Some(edge), was.1.0)),
        CellType::Empty => (CellType::Horizontal(color), (Some(edge), None)),
        _ => (
            was.0,
            (
                was.1.0,
                if was.1.1 is None {
                    Some(edge)
                } else {
                    was.1.1
                },
            ),
        ),
    }
}

/// The marker where a commit's connection meets the parent's lane.
pub open spec fn parent_marker(commit_lane: usize, link: ParentLink) -> CellType {
    if link.lane > commit_lane {
        if link.existing && link.shown {
            CellType::MergeLeft(link.color)
        } else if link.existing {
            CellType::TeeLeft(link.color)
        } else {
            CellType::BranchLeft(link.color)
        }
    } else {
        if link.existing && link.shown {
            CellType::MergeRight(link.color)
        } else if link.existing {
            CellType::TeeRight(link.color)
        } else {
            CellType::BranchRight(link.color)
        }
    }
}

/// Column `col` after the connection to one parent is drawn over it.
pub open spec fn draw_parent(
    was: (CellType, CellOids),
    commit_lane: usize,
    oid: Oid,
    link: ParentLink,
    col: int,
) -> (CellType, CellOids) {
    if link.lane == commit_lane {
        was
    } else if between(col, commit_lane, link.lane) {
        cross_parent(was, link.color, (oid, link.oid))
    } else if col == 2 * link.lane {
        (parent_marker(commit_lane, link), (Some((oid, link.oid)), None))
    } else {
        was
    }
}

/// Column `col` of a commit's row with its first `n` parents connected.
pub open spec fn row_cell(
    view: LaneView,
    commit_lane: usize,
    commit_color: usize,
    oid: Oid,
    links: Seq<ParentLink>,
    n: nat,
    col: int,
) -> (CellType, CellOids)
    decreases n,
{
    if n == 0 {
        if col == 2 * commit_lane {
            (CellType::Commit(commit_color), (Some((oid, oid)), None))
        } else {
            view.pipe(col)
        }
    } else {
        draw_parent(
            row_cell(view, commit_lane, commit_color, oid, links, (n - 1) as nat, col),
            commit_lane,
            oid,
            links[n - 1],
            col,
        )
    }
}

/// `cells` and `oids` are, column by column, what `f` gives.
pub open spec fn row_is(
    cells: Seq<CellType>,
    oids: Seq<CellOids>,
    width: int,
    f: spec_fn(int) -> (CellType, CellOids),
) -> bool {
    &&& cells.len() == width
    &&& oids.len() == width
    &&& forall|k: int| 0 <= k < width ==> (#[trigger] cells[k], oids[k]) == f(k)
}

/// The pass-through pipes of a row.
fn pipe_row(
    active_lanes: &[Option<Oid>],
    active_lane_children: &[Option<Oid>],
    oid_color_index: &OidMap<usize>,
    lane_color_index: &HashMap<usize, usize>,
    max_lane: usize,
) -> (row: (Vec<CellType>, Vec<CellOids>))
    requires
        2 * (max_lane + 1) <= usize::MAX,
    ensures
        row_is(
            row.0@,
            row.1@,
            2 * (max_lane + 1),
            |k: int|
                (LaneView {
                    lanes: active_lanes@,
                    children: active_lane_children@,
                    oid_colors: oid_color_index@,
                    lane_colors: lane_color_index@,
                }).pipe(k),
        ),
{
    let ghost view = LaneView {
        lanes: active_lanes@,
        children: active_lane_children@,
        oid_colors: oid_color_index@,
        lane_colors: lane_color_index@,
    };
    let width: usize = (max_lane + 1) * 2;
    let mut cells: Vec<CellType> = Vec::new();
    let mut oids: Vec<CellOids> = Vec::new();
    let mut lane: usize = 0;
    while lane <= max_lane
        invariant
            0 <= lane <= max_lane + 1,
            2 * (max_lane + 1) <= usize::MAX,
            view == (LaneView {
                lanes: active_lanes@,
                children: active_lane_children@,
                oid_colors: oid_color_index@,
                lane_colors: lane_color_index@,
            }),
            row_is(cells@, oids@, 2 * lane, |k: int| view.pipe(k)),
        decreases max_lane + 1 - lane,
    {
        let mut cell = CellType::Empty;
        let mut edge: Option<CellEdge> = None;
        if lane < active_lanes.len() {
            if let Some(oid) = active_lanes[lane] {
                cell =
                CellType::Pipe(lane_color_of(lane_color_index, oid_color_index, lane, oid));
                edge = lane_edge(active_lane_children, lane, oid);
            }
        }
        assert((cell, (edge, None::<CellEdge>)) == view.pipe(2 * lane));
        assert((CellType::Empty, (None::<CellEdge>, None::<CellEdge>)) == view.pipe(2 * lane + 1));
        cells.push(cell);
        cells.push(CellType::Empty);
        oids.push((edge, None));
        oids.push((None, None));
        lane = lane + 1;
    }
    (cells, oids)
}

/// Build the cells of one commit row: the pass-through lanes, the commit dot
/// and the connection to every parent.
pub fn build_row_cells_with_colors(
    commit_lane: usize,
    commit_color: usize,
    commit_oid: Oid,
    parent_lanes: &[ParentLink],
    active_lanes: &[Option<Oid>],
    active_lane_children: &[Option<Oid>],
    oid_color_index: &OidMap<usize>,
    lane_color_index: &HashMap<usize, usize>,
    max_lane: usize,
) -> (row: (Vec<CellType>, Vec<CellOids>))
    requires
        2 * (max_lane + 1) <= usize::MAX,
        commit_lane <= max_lane,
        forall|i: int| 0 <= i < parent_lanes@.len() ==> (#[trigger] parent_lanes@[i]).lane <= max_lane,
    ensures
        row_is(
            row.0@,
            row.1@,
            2 * (max_lane + 1),
            |k: int|
                row_cell(
                    LaneView {
                        lanes: active_lanes@,
                        children: active_lane_children@,
                        oid_colors: oid_color_index@,
                        lane_colors: lane_color_index@,
                    },
                    commit_lane,
                    commit_color,
                    commit_oid,
                    parent_lanes@,
                    parent_lanes@.len(),
                    k,
                ),
        ),
{
    let ghost view = LaneView {
        lanes: active_lanes@,
        children: active_lane_children@,
        oid_colors: oid_color_index@,
        lane_colors: lane_color_index@,
    };
    let (mut cells, mut oids) = pipe_row(
        active_lanes,
        active_lane_children,
        oid_color_index,
        lane_color_index,
        max_lane,
    );
    // The commit dot is a self-edge.
    cells.set(commit_lane * 2, CellType::Commit(commit_color));
    oids.set(commit_lane * 2, (Some((commit_oid, commit_oid)), None));

    let mut n: usize = 0;
    while n < parent_lanes.len()
        invariant
            0 <= n <= parent_lanes.len(),
            2 * (max_lane + 1) <= usize::MAX,
            commit_lane <= max_lane,
            forall|i: int|
                0 <= i < parent_lanes@.len() ==> (#[trigger] parent_lanes@[i]).lane <= max_lane,
            row_is(
                cells@,
                oids@,
                2 * (max_lane + 1),
                |k: int|
                    row_cell(view, commit_lane, commit_color, commit_oid, parent_lanes@, n as nat, k),
            ),
        decreases parent_lanes.len() - n,
    {
        let link = parent_lanes[n];
        draw_parent_link(&mut cells, &mut oids, commit_lane, commit_oid, link);
        n = n + 1;
    }
    (cells, oids)
}

/// Draw the connection from a commit to one parent over its row.
fn draw_parent_link(
    cells: &mut Vec<CellType>,
    oids: &mut Vec<CellOids>,
    commit_lane: usize,
    commit_oid: Oid,
    link: ParentLink,
)
    requires
        old(cells)@.len() == old(oids)@.len(),
        2 * commit_lane < old(cells)@.len(),
        2 * link.lane < old(cells)@.len(),
    ensures
        row_is(
            final(cells)@,
            final(oids)@,
            old(cells)@.len() as int,
            |k: int|
                draw_parent(
                    (old(cells)@[k], old(oids)@[k]),
                    commit_lane,
                    commit_oid,
                    link,
                    k,
                ),
        ),
{
    if link.lane == commit_lane {
        return;
    }
    let width: usize = cells.len();
    assert(2 * commit_lane < width && 2 * link.lane < width);
    let edge: CellEdge = (commit_oid, link.oid);
    let (lo, hi): (usize, usize) = if link.lane > commit_lane {
        (commit_lane * 2 + 1, link.lane * 2)
    } else {
        (link.lane * 2 + 1, commit_lane * 2)
    };
    let mut col: usize = lo;
    while col < hi
        invariant
            lo <= col <= hi,
            hi < old(cells)@.len(),
            cells@.len() == old(cells)@.len(),
            oids@.len() == old(cells)@.len(),
            old(oids)@.len() == old(cells)@.len(),
            edge == (commit_oid, link.oid),
            forall|k: int|
                0 <= k < cells@.len() ==> (#[trigger] cells@[k], oids@[k]) == (if lo <= k < col {
                    cross_parent((old(cells)@[k], old(oids)@[k]), link.color, edge)
                } else {
                    (old(cells)@[k], old(oids)@[k])
                }),
        decreases hi - col,
    {
        let was = oids[col];
        assert((cells@[col as int], oids@[col as int]) == (
            old(cells)@[col as int],
            old(oids)@[col as int],
        ));
        match cells[col] {
            CellType::Pipe(p) => {
                cells.set(col, CellType::HorizontalPipe(link.color, p));
                oids.set(col, (Some(edge), was.0));
            },
            CellType::Empty => {
                cells.set(col, CellType::Horizontal(link.color));
                oids.set(col, (Some(edge), None));
            },
            _ => {
                // Another connection already drew this column: co-route the edge.
                if was.1.is_none() {
                    oids.set(col, (was.0, Some(edge)));
                }
            },
        }
        col = col + 1;
    }
    let marker = if link.lane > commit_lane {
        if link.existing && link.shown {
            CellType::MergeLeft(link.color)
        } else if link.existing {
            CellType::TeeLeft(link.color)
        } else {
            CellType::BranchLeft(link.color)
        }
    } else {
        if link.existing && link.shown {
            CellType::MergeRight(link.color)
        } else if link.existing {
            CellType::TeeRight(link.color)
        } else {
            CellType::BranchRight(link.color)
        }
    };
    cells.set(link.lane * 2, marker);
    oids.set(link.lane * 2, (Some(edge), None));
}

/// A fork stroke in `color` for `edge` drawn over a cell: like
/// [`cross_parent`], but a run that a nearer lane drew is redrawn in this
/// lane's colour and keeps the earlier edge as its secondary one.
pub open spec fn cross_fork(
    was: (CellType, CellOids),
    color: usize,
    edge: Option<CellEdge>,
) -> (CellType, CellOids) {
    match was.0 {
        CellType::Pipe(p) => (CellType::HorizontalPipe(color, p), (edge, was.1.0)),
        CellType::Empty => (CellType::Horizontal(color), (edge, None)),
        CellType::Horizontal(_) => (
            CellType::Horizontal(color),
            (
                edge,
                if was.1.0 is Some {
                    was.1.0
                } else {
                    was.1.1
                },
            ),
        ),
        _ => (
            was.0,
            (
                was.1.0,
                if was.1.1 is None {
                    edge
                } else {
                    was.1.1
                },
            ),
        ),
    }
}

/// No merging lane lies to the right of `lane`.
pub open spec fn rightmost(merging: Seq<(usize, usize)>, lane: usize) -> bool {
    forall|i: int| 0 <= i < merging.len() ==> (#[trigger] merging[i]).0 <= lane
}

/// `lane` is one of the merging lanes.
pub open spec fn merges(merging: Seq<(usize, usize)>, lane: int) -> bool {
    exists|i: int| 0 <= i < merging.len() && (#[trigger] merging[i]).0 == lane
}

/// Column `col` after one merging lane `(lane, color)` is connected to the
/// main lane.
pub open spec fn draw_merging(
    was: (CellType, CellOids),
    view: LaneView,
    main_lane: usize,
    fork_oid: Oid,
    merging: Seq<(usize, usize)>,
    m: (usize, usize),
    col: int,
) -> (CellType, CellOids) {
    let edge = edge_on_lane(view.children, m.0 as int, fork_oid);
    if 2 * main_lane < col < 2 * m.0 {
        cross_fork(was, m.1, edge)
    } else if col == 2 * m.0 {
        (
            if rightmost(merging, m.0) {
                CellType::MergeLeft(m.1)
            } else {
                CellType::TeeUp(m.1)
            },
            (edge, None),
        )
    } else {
        was
    }
}

/// Column `col` of a fork connector row with its first `n` merging lanes
/// connected.
pub open spec fn fork_cell(
    view: LaneView,
    main_lane: usize,
    main_color: usize,
    fork_oid: Oid,
    merging: Seq<(usize, usize)>,
    n: nat,
    col: int,
) -> (CellType, CellOids)
    decreases n,
{
    if n == 0 {
        if col == 2 * main_lane {
            (
                CellType::TeeRight(main_color),
                (edge_on_lane(view.children, main_lane as int, fork_oid), None),
            )
        } else if merges(merging, col / 2) {
            (CellType::Empty, (None, None))
        } else {
            view.pipe(col)
        }
    } else {
        draw_merging(
            fork_cell(view, main_lane, main_color, fork_oid, merging, (n - 1) as nat, col),
            view,
            main_lane,
            fork_oid,
            merging,
            merging[n - 1],
            col,
        )
    }
}

/// Build the connector row above a fork commit: the main lane's junction, a
/// stroke to every lane that ends in it, and the pass-through lanes.
pub fn build_fork_connector_cells(
    main_lane: usize,
    main_color: usize,
    fork_oid: Oid,
    merging_lanes: &[(usize, usize)],
    active_lanes: &[Option<Oid>],
    active_lane_children: &[Option<Oid>],
    oid_color_index: &OidMap<usize>,
    lane_color_index: &HashMap<usize, usize>,
    max_lane: usize,
) -> (row: (Vec<CellType>, Vec<CellOids>))
    requires
        2 * (max_lane + 1) <= usize::MAX,
        main_lane <= max_lane,
        forall|i: int| 0 <= i < merging_lanes@.len() ==> (#[trigger] merging_lanes@[i]).0 <= max_lane,
    ensures
        row_is(
            row.0@,
            row.1@,
            2 * (max_lane + 1),
            |k: int|
                fork_cell(
                    LaneView {
                        lanes: active_lanes@,
                        children: active_lane_children@,
                        oid_colors: oid_color_index@,
                        lane_colors: lane_color_index@,
                    },
                    main_lane,
                    main_color,
                    fork_oid,
                    merging_lanes@,
                    merging_lanes@.len(),
                    k,
                ),
        ),
{
    let ghost view = LaneView {
        lanes: active_lanes@,
        children: active_lane_children@,
        oid_colors: oid_color_index@,
        lane_colors: lane_color_index@,
    };
    let (mut cells, mut oids) = pipe_row(
        active_lanes,
        active_lane_children,
        oid_color_index,
        lane_color_index,
        max_lane,
    );
    let mut rightmost_lane: usize = main_lane;
    let mut i: usize = 0;
    while i < merging_lanes.len()
        invariant
            0 <= i <= merging_lanes.len(),
            2 * (max_lane + 1) <= usize::MAX,
            forall|j: int|
                0 <= j < merging_lanes@.len() ==> (#[trigger] merging_lanes@[j]).0 <= max_lane,
            row_is(
                cells@,
                oids@,
                2 * (max_lane + 1),
                |k: int|
                    if merges(merging_lanes@.take(i as int), k / 2) {
                        (CellType::Empty, (None, None))
                    } else {
                        view.pipe(k)
                    },
            ),
            i == 0 ==> rightmost_lane == main_lane,
            i > 0 ==> rightmost(merging_lanes@.take(i as int), rightmost_lane),
            i > 0 ==> merges(merging_lanes@.take(i as int), rightmost_lane as int),
        decreases merging_lanes.len() - i,
    {
        let lane: usize = merging_lanes[i].0;
        let ghost done = merging_lanes@.take(i as int);
        let ghost next = merging_lanes@.take(i + 1);
        assert(next =~= done.push(merging_lanes@[i as int]));
        cells.set(lane * 2, CellType::Empty);
        oids.set(lane * 2, (None, None));
        proof {
            assert forall|l: int| merges(next, l) == (merges(done, l) || l == lane) by {
                if merges(done, l) {
                    let j = choose|j: int| 0 <= j < done.len() && (#[trigger] done[j]).0 == l;
                    assert(next[j].0 == l);
                }
                if l == lane {
                    assert(next[i as int].0 == l);
                }
            }
            assert forall|k: int| 0 <= k < 2 * (max_lane + 1) implies (
            #[trigger] cells@[k], oids@[k]) == (if merges(next, k / 2) {
                (CellType::Empty, (None::<CellEdge>, None::<CellEdge>))
            } else {
                view.pipe(k)
            }) by {
                if k / 2 == lane && k != 2 * lane {
                    assert(k % 2 == 1);
                }
            }
        }
        if i == 0 || lane > rightmost_lane {
            rightmost_lane = lane;
        }
        i = i + 1;
    }
    assert(merging_lanes@.take(i as int) =~= merging_lanes@);
    cells.set(main_lane * 2, CellType::TeeRight(main_color));
    oids.set(main_lane * 2, (lane_edge(active_lane_children, main_lane, fork_oid), None));

    let mut n: usize = 0;
    while n < merging_lanes.len()
        invariant
            0 <= n <= merging_lanes.len(),
            2 * (max_lane + 1) <= usize::MAX,
            main_lane <= max_lane,
            forall|j: int|
                0 <= j < merging_lanes@.len() ==> (#[trigger] merging_lanes@[j]).0 <= max_lane,
            merging_lanes@.len() > 0 ==> rightmost(merging_lanes@, rightmost_lane),
            merging_lanes@.len() > 0 ==> merges(merging_lanes@, rightmost_lane as int),
            view == (LaneView {
                lanes: active_lanes@,
                children: active_lane_children@,
                oid_colors: oid_color_index@,
                lane_colors: lane_color_index@,
            }),
            row_is(
                cells@,
                oids@,
                2 * (max_lane + 1),
                |k: int|
                    fork_cell(view, main_lane, main_color, fork_oid, merging_lanes@, n as nat, k),
            ),
        decreases merging_lanes.len() - n,
    {
        let (merge_lane, merge_color) = merging_lanes[n];
        let ghost cells0 = cells@;
        let ghost oids0 = oids@;
        let merge_edge = lane_edge(active_lane_children, merge_lane, fork_oid);
        let lo: usize = main_lane * 2 + 1;
        let hi: usize = merge_lane * 2;
        let mut col: usize = lo;
        while col < hi
            invariant
                lo <= col,
                lo <= hi ==> col <= hi,
                lo > hi ==> col == lo,
                hi < cells@.len(),
                cells@.len() == cells0.len(),
                oids@.len() == cells0.len(),
                oids0.len() == cells0.len(),
                forall|k: int|
                    0 <= k < cells@.len() ==> (#[trigger] cells@[k], oids@[k]) == (if lo <= k
                        < col {
                        cross_fork((cells0[k], oids0[k]), merge_color, merge_edge)
                    } else {
                        (cells0[k], oids0[k])
                    }),
            decreases hi - col,
        {
            let was = oids[col];
            assert((cells@[col as int], oids@[col as int]) == (
                cells0[col as int],
                oids0[col as int],
            ));
            match cells[col] {
                CellType::Pipe(p) => {
                    cells.set(col, CellType::HorizontalPipe(merge_color, p));
                    oids.set(col, (merge_edge, was.0));
                },
                CellType::Empty => {
                    cells.set(col, CellType::Horizontal(merge_color));
                    oids.set(col, (merge_edge, None));
                },
                CellType::Horizontal(_) => {
                    cells.set(col, CellType::Horizontal(merge_color));
                    let kept = if was.0.is_some() {
                        was.0
                    } else {
                        was.1
                    };
                    oids.set(col, (merge_edge, kept));
                },
                _ => {
                    // A nearer lane's junction: co-route this lane's edge.
                    if was.1.is_none() {
                        oids.set(col, (was.0, merge_edge));
                    }
                },
            }
            col = col + 1;
        }
        assert(merge_lane == rightmost_lane <==> rightmost(merging_lanes@, merge_lane)) by {
            assert(merging_lanes@[n as int].0 <= rightmost_lane);
        }
        if merge_lane == rightmost_lane {
            cells.set(hi, CellType::MergeLeft(merge_color));
        } else {
            cells.set(hi, CellType::TeeUp(merge_color));
        }
        oids.set(hi, (merge_edge, None));
        n = n + 1;
    }
    (cells, oids)
}

/// The colour of a marker.
pub open spec fn colour(c: CellType) -> Option<usize> {
    match c {
        CellType::Empty => None,
        CellType::Pipe(c) => Some(c),
        CellType::Commit(c) => Some(c),
        CellType::BranchRight(c) => Some(c),
        CellType::BranchLeft(c) => Some(c),
        CellType::MergeRight(c) => Some(c),
        CellType::MergeLeft(c) => Some(c),
        CellType::Horizontal(c) => Some(c),
        CellType::HorizontalPipe(c, _) => Some(c),
        CellType::TeeRight(c) => Some(c),
        CellType::TeeLeft(c) => Some(c),
        CellType::TeeUp(c) => Some(c),
    }
}

/// A lane has the colour it was given; else that of the commit it awaits; else
/// its own number stands for one.
pub proof fn law_colour_of_a_lane(
    lane_colors: Map<usize, usize>,
    oid_colors: Map<Oid, usize>,
    lane: usize,
    oid: Oid,
)
    ensures
        ({
            let c = lane_color(lane_colors, oid_colors, lane, oid);
            &&& lane_colors.dom().contains(lane) ==> c == lane_colors[lane]
            &&& !lane_colors.dom().contains(lane) && oid_colors.dom().contains(oid) ==> c == oid_colors[oid]
            &&& !lane_colors.dom().contains(lane) && !oid_colors.dom().contains(oid) ==> c == lane
        }),
{
}

/// The marker on a parent's lane and the stroke that leads to it have the colour
/// of the link and stand for the edge from the commit to that parent. The stroke
/// crosses pipes, which keep their colour and their edge beside it, and leaves
/// other markers as they are.
pub proof fn law_strokes_to_a_parent(
    was: (CellType, CellOids),
    lane: usize,
    oid: Oid,
    link: ParentLink,
    col: int,
)
    requires
        link.lane != lane,
    ensures
        ({
            let now = draw_parent(was, lane, oid, link, col);
            let edge = Some((oid, link.oid));
            if col == 2 * link.lane {
                colour(now.0) == Some(link.color) && now.1.0 == edge && now.1.1 is None
            } else if 2 * lane < col < 2 * link.lane || 2 * link.lane < col < 2 * lane {
                match was.0 {
                    CellType::Empty => now.0 == CellType::Horizontal(link.color) && now.1.0 == edge
                        && now.1.1 is None,
                    CellType::Pipe(p) => now.0 == CellType::HorizontalPipe(link.color, p) && now.1.0 == edge
                        && now.1.1 == was.1.0,
                    _ => now.0 == was.0 && now.1.0 == was.1.0 && (was.1.1 is Some ==> now.1.1 == was.1.1)
                        && (was.1.1 is None ==> now.1.1 == edge),
                }
            } else {
                now == was
            }
        }),
{
}

/// A lane that awaits a commit is drawn as a pipe in the lane's colour, for the
/// edge from the commit that opened the lane; other columns are empty.
pub proof fn law_pipes_of_lanes(view: LaneView, lane: int)
    requires
        0 <= lane < view.lanes.len() <= usize::MAX,
        lane < view.children.len(),
    ensures
        view.lanes[lane] is None ==> view.pipe(2 * lane) == (
            CellType::Empty,
            (None::<CellEdge>, None::<CellEdge>),
        ),
        view.lanes[lane] is Some ==> {
            let awaited = view.lanes[lane]->0;
            let (cell, oids) = view.pipe(2 * lane);
            &&& cell == CellType::Pipe(
                lane_color(view.lane_colors, view.oid_colors, lane as usize, awaited),
            )
            &&& oids.0 == (match view.children[lane] {
                Some(child) => Some((child, awaited)),
                None => None,
            })
            &&& oids.1 is None
        },
        view.pipe(2 * lane + 1) == (CellType::Empty, (None::<CellEdge>, None::<CellEdge>)),
{
    assert((2 * lane) / 2 == lane && (2 * lane) % 2 == 0);
    assert((2 * lane + 1) % 2 == 1);
}

/// Where lanes that await the same commit are joined, the stroke from each has
/// that lane's colour and stands for its edge to the commit. It crosses pipes,
/// takes over a stroke that runs there already, and leaves other markers.
pub proof fn law_strokes_of_a_fork(
    was: (CellType, CellOids),
    view: LaneView,
    main: usize,
    fork: Oid,
    merging: Seq<(usize, usize)>,
    m: (usize, usize),
    col: int,
    child: Oid,
)
    requires
        m.0 < view.children.len(),
        view.children[m.0 as int] == Some(child),
    ensures
        ({
            let now = draw_merging(was, view, main, fork, merging, m, col);
            let edge = Some((child, fork));
            if 2 * main < col < 2 * m.0 {
                match was.0 {
                    CellType::Empty => now.0 == CellType::Horizontal(m.1) && now.1.0 == edge
                        && now.1.1 is None,
                    CellType::Horizontal(_) => now.0 == CellType::Horizontal(m.1) && now.1.0 == edge && (
                    was.1.0 is Some ==> now.1.1 == was.1.0),
                    CellType::Pipe(p) => now.0 == CellType::HorizontalPipe(m.1, p) && now.1.0 == edge
                        && now.1.1 == was.1.0,
                    _ => now.0 == was.0 && now.1.0 == was.1.0 && (was.1.1 is None ==> now.1.1 == edge),
                }
            } else if col == 2 * m.0 {
                colour(now.0) == Some(m.1) && now.1.0 == edge && now.1.1 is None
            } else {
                now == was
            }
        }),
{
}

} // verus!
