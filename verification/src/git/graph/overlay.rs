//! Overlays drawn onto a finished layout: the uncommitted-changes row and the
//! squash-merge links.
pub mod laws;

use crate::git::graph;
use crate::git::graph::cells;
use crate::git::graph::{CellEdge, CellOids, CellType, GraphNode, NodeView};
use crate::graph::colors::{SQUASH_LINK_COLOR_INDEX, UNCOMMITTED_COLOR_INDEX};
use crate::oid::Oid;
use crate::text;
use vstd::prelude::*;

verus! {

/// The cell in column `col`; nothing is drawn past the end of a row.
pub open spec fn cell_at(n: NodeView, col: int) -> CellType {
    if 0 <= col < n.cells.len() {
        n.cells[col]
    } else {
        CellType::Empty
    }
}

/// Row `i` is the first that carries the commit `oid`.
pub open spec fn carries_first(nodes: Seq<NodeView>, oid: Oid, i: int) -> bool {
    &&& 0 <= i < nodes.len()
    &&& nodes[i].oid() == Some(oid)
    &&& forall|j: int| 0 <= j < i ==> (#[trigger] nodes[j]).oid() != Some(oid)
}

/// Row `i` is the last that carries the commit `oid`.
pub open spec fn carries_last(nodes: Seq<NodeView>, oid: Oid, i: int) -> bool {
    &&& 0 <= i < nodes.len()
    &&& nodes[i].oid() == Some(oid)
    &&& forall|j: int| i < j < nodes.len() ==> (#[trigger] nodes[j]).oid() != Some(oid)
}

/// The first row that carries `oid`.
pub open spec fn first_row(nodes: Seq<NodeView>, oid: Oid) -> Option<int> {
    if exists|i: int| carries_first(nodes, oid, i) {
        Some(choose|i: int| carries_first(nodes, oid, i))
    } else {
        None
    }
}

/// The last row that carries `oid`.
pub open spec fn last_row(nodes: Seq<NodeView>, oid: Oid) -> Option<int> {
    if exists|i: int| carries_last(nodes, oid, i) {
        Some(choose|i: int| carries_last(nodes, oid, i))
    } else {
        None
    }
}

/// Whether the column of `lane` is empty in the first `end` rows.
pub open spec fn column_free(nodes: Seq<NodeView>, lane: int, end: int) -> bool {
    forall|i: int| 0 <= i < end ==> cell_at(#[trigger] nodes[i], 2 * lane) == CellType::Empty
}

pub open spec fn distance(a: int, b: int) -> int {
    if a < b {
        b - a
    } else {
        a - b
    }
}

/// `c` is a usable candidate no farther than any other, the lowest on a tie.
pub open spec fn nearest(
    ok: spec_fn(int) -> bool,
    dist: spec_fn(int) -> int,
    max: int,
    c: int,
) -> bool {
    &&& 0 <= c <= max
    &&& ok(c)
    &&& forall|d: int|
        0 <= d <= max && #[trigger] ok(d) ==> dist(c) < dist(d) || (dist(c) == dist(d) && c <= d)
}

/// The nearest usable candidate up to `max`, which is also the fallback.
pub open spec fn nearest_lane(
    ok: spec_fn(int) -> bool,
    dist: spec_fn(int) -> int,
    max: int,
) -> usize {
    if exists|c: int| nearest(ok, dist, max, c) {
        (choose|c: int| nearest(ok, dist, max, c)) as usize
    } else {
        max as usize
    }
}

/// Where the uncommitted-changes node sits: HEAD's lane when that is free above
/// HEAD, else the nearest lane that is free above HEAD and on HEAD's row.
pub open spec fn uncommitted_lane(nodes: Seq<NodeView>, max_lane: usize, head: int) -> usize {
    let home = nodes[head].lane as int;
    if column_free(nodes, home, head) {
        nodes[head].lane
    } else {
        nearest_lane(
            |c: int| column_free(nodes, c, head + 1),
            |c: int| distance(c, home),
            max_lane + 1,
        )
    }
}

/// A row padded with empty cells up to `width`.
pub open spec fn padded(n: NodeView, width: int) -> NodeView {
    NodeView {
        cells: if n.cells.len() < width {
            n.cells + Seq::new((width - n.cells.len()) as nat, |k: int| CellType::Empty)
        } else {
            n.cells
        },
        cell_oids: if n.cell_oids.len() < width {
            n.cell_oids + Seq::new((width - n.cell_oids.len()) as nat, |k: int| (None, None))
        } else {
            n.cell_oids
        },
        ..n
    }
}

/// Which edges a cell that a grey stroke fills carries: none when `clear`,
/// else those it had.
pub open spec fn grey_oids(was: CellOids, clear: bool) -> CellOids {
    if clear {
        (None, None)
    } else {
        was
    }
}

/// A grey stroke over a cell: a pipe is crossed and keeps its edge as the
/// secondary one, an empty cell is filled, anything else stays.
pub open spec fn cross_grey(was: (CellType, CellOids), color: usize, clear: bool) -> (
    CellType,
    CellOids,
) {
    match was.0 {
        CellType::Empty => (CellType::Horizontal(color), grey_oids(was.1, clear)),
        CellType::Pipe(p) => (CellType::HorizontalPipe(color, p), (None, was.1.0)),
        _ => was,
    }
}

/// A row with a grey run between two lanes and a curve at the second.
pub open spec fn curved(
    n: NodeView,
    from: usize,
    to: usize,
    color: usize,
    curve: CellType,
    clear: bool,
) -> NodeView {
    let f = |k: int|
        if cells::between(k, from, to) {
            cross_grey((n.cells[k], n.cell_oids[k]), color, clear)
        } else if k == 2 * to {
            (curve, grey_oids(n.cell_oids[k], clear))
        } else {
            (n.cells[k], n.cell_oids[k])
        };
    NodeView {
        cells: Seq::new(n.cells.len(), |k: int| f(k).0),
        cell_oids: Seq::new(
            n.cell_oids.len(),
            |k: int|
                if k < n.cells.len() {
                    f(k).1
                } else {
                    n.cell_oids[k]
                },
        ),
        ..n
    }
}

/// A row with a grey pipe in column `col`, where that is empty.
pub open spec fn piped(n: NodeView, col: int, color: usize, clear: bool) -> NodeView {
    if n.cells[col] == CellType::Empty {
        NodeView {
            cells: n.cells.update(col, CellType::Pipe(color)),
            cell_oids: n.cell_oids.update(col, grey_oids(n.cell_oids[col], clear)),
            ..n
        }
    } else {
        n
    }
}

/// The layout with an uncommitted-changes row on top, joined to HEAD's row.
pub open spec fn with_uncommitted(
    nodes: Seq<NodeView>,
    max_lane: usize,
    head: Option<Oid>,
    count: Option<usize>,
) -> (Seq<NodeView>, usize) {
    if head is Some && first_row(nodes, head->0) is Some {
        let h = first_row(nodes, head->0)->0;
        let home = nodes[h].lane;
        let lane = uncommitted_lane(nodes, max_lane, h);
        let max = if lane > max_lane {
            lane
        } else {
            max_lane
        };
        let width = 2 * (max + 1);
        let curve = if lane > home {
            CellType::MergeLeft(UNCOMMITTED_COLOR_INDEX)
        } else {
            CellType::MergeRight(UNCOMMITTED_COLOR_INDEX)
        };
        let rows = Seq::new(
            nodes.len(),
            |i: int|
                if i < h {
                    piped(padded(nodes[i], width), 2 * lane, UNCOMMITTED_COLOR_INDEX, false)
                } else if i == h && lane != home {
                    curved(padded(nodes[i], width), home, lane, UNCOMMITTED_COLOR_INDEX, curve, false)
                } else {
                    padded(nodes[i], width)
                },
        );
        let top = NodeView {
            commit: None,
            lane,
            color_index: UNCOMMITTED_COLOR_INDEX,
            branch_names: Seq::empty(),
            tag_names: Seq::empty(),
            is_head: false,
            is_uncommitted: true,
            is_stash: false,
            stash_label: None,
            uncommitted_count: count,
            cells: Seq::new(
                width as nat,
                |k: int|
                    if k == 2 * lane {
                        CellType::Commit(UNCOMMITTED_COLOR_INDEX)
                    } else {
                        CellType::Empty
                    },
            ),
            cell_oids: Seq::new(width as nat, |k: int| (None, None)),
        };
        (seq![top] + rows, max)
    } else {
        (nodes, max_lane)
    }
}

/// Whether the column of `lane` can carry a link between rows `u` and `l`:
/// empty all the way, but for the dot of an endpoint on that lane.
pub open spec fn link_column(nodes: Seq<NodeView>, u: int, l: int, lane: int) -> bool {
    forall|i: int|
        u <= i <= l ==> (i == u && lane == nodes[u].lane) || (i == l && lane == nodes[l].lane)
            || cell_at(#[trigger] nodes[i], 2 * lane) == CellType::Empty
}

/// The lane of the link between rows `u` and `l`.
pub open spec fn link_lane(nodes: Seq<NodeView>, max_lane: usize, u: int, l: int) -> usize {
    nearest_lane(
        |c: int| link_column(nodes, u, l, c),
        |c: int| distance(c, nodes[u].lane as int) + distance(c, nodes[l].lane as int),
        max_lane + 1,
    )
}

/// Row `i`, padded, of a layout with a grey link on `lane` from row `u` down to
/// row `l`.
pub open spec fn link_row(nodes: Seq<NodeView>, u: int, l: int, lane: usize, width: int, i: int) -> NodeView {
    let n = padded(nodes[i], width);
    if u < i < l {
        piped(n, 2 * lane, SQUASH_LINK_COLOR_INDEX, true)
    } else if i == u && lane != n.lane {
        let upper = if lane > n.lane {
            CellType::BranchLeft(SQUASH_LINK_COLOR_INDEX)
        } else {
            CellType::BranchRight(SQUASH_LINK_COLOR_INDEX)
        };
        curved(n, n.lane, lane, SQUASH_LINK_COLOR_INDEX, upper, true)
    } else if i == l && lane != n.lane {
        let lower = if lane > n.lane {
            CellType::MergeLeft(SQUASH_LINK_COLOR_INDEX)
        } else {
            CellType::MergeRight(SQUASH_LINK_COLOR_INDEX)
        };
        curved(n, n.lane, lane, SQUASH_LINK_COLOR_INDEX, lower, true)
    } else {
        n
    }
}

/// The layout with a grey link between two rows.
pub open spec fn linked(nodes: Seq<NodeView>, max_lane: usize, r1: int, r2: int) -> (
    Seq<NodeView>,
    usize,
) {
    let u = if r1 < r2 {
        r1
    } else {
        r2
    };
    let l = if r1 < r2 {
        r2
    } else {
        r1
    };
    let lane = link_lane(nodes, max_lane, u, l);
    let max = if lane > max_lane {
        lane
    } else {
        max_lane
    };
    (Seq::new(nodes.len(), |i: int| link_row(nodes, u, l, lane, 2 * (max + 1), i)), max)
}

/// The layout with the first `n` links drawn; a link needs both of its commits
/// loaded, on different rows.
pub open spec fn with_links(
    nodes: Seq<NodeView>,
    max_lane: usize,
    links: Seq<(Oid, Oid)>,
    n: nat,
) -> (Seq<NodeView>, usize)
    decreases n,
{
    if n == 0 {
        (nodes, max_lane)
    } else {
        let (ns, m) = with_links(nodes, max_lane, links, (n - 1) as nat);
        match (last_row(ns, links[n - 1].0), last_row(ns, links[n - 1].1)) {
            (Some(r1), Some(r2)) => if r1 != r2 {
                linked(ns, m, r1, r2)
            } else {
                (ns, m)
            },
            _ => (ns, m),
        }
    }
}

proof fn lemma_first_row(nodes: Seq<NodeView>, oid: Oid, i: int)
    requires
        carries_first(nodes, oid, i),
    ensures
        first_row(nodes, oid) == Some(i),
{
    let k = choose|k: int| carries_first(nodes, oid, k);
    assert(carries_first(nodes, oid, k));
    if k < i {
        assert(nodes[k].oid() != Some(oid));
    } else if i < k {
        assert(nodes[i].oid() != Some(oid));
    }
}

proof fn lemma_last_row(nodes: Seq<NodeView>, oid: Oid, i: int)
    requires
        carries_last(nodes, oid, i),
    ensures
        last_row(nodes, oid) == Some(i),
{
    let k = choose|k: int| carries_last(nodes, oid, k);
    assert(carries_last(nodes, oid, k));
    if k < i {
        assert(nodes[i].oid() != Some(oid));
    } else if i < k {
        assert(nodes[k].oid() != Some(oid));
    }
}

proof fn lemma_nearest(ok: spec_fn(int) -> bool, dist: spec_fn(int) -> int, max: int, c: int)
    requires
        nearest(ok, dist, max, c),
    ensures
        nearest_lane(ok, dist, max) == c as usize,
{
    let k = choose|k: int| nearest(ok, dist, max, k);
    assert(nearest(ok, dist, max, k));
    assert(ok(k) && ok(c));
}

/// Whether a row carries the commit `oid`.
fn carries(node: &GraphNode, oid: Oid) -> (yes: bool)
    ensures
        yes == (node@.oid() == Some(oid)),
{
    match &node.commit {
        Some(c) => c.oid == oid,
        None => false,
    }
}

/// The first row that carries `oid`.
pub fn find_first_row(nodes: &[GraphNode], oid: Oid) -> (row: Option<usize>)
    ensures
        row is Some <==> first_row(graph::nodes_view(nodes@), oid) is Some,
        row is Some ==> row->0 < nodes@.len() && first_row(graph::nodes_view(nodes@), oid) == Some(
            row->0 as int,
        ),
{
    let ghost ns = graph::nodes_view(nodes@);
    let mut i: usize = 0;
    while i < nodes.len()
        invariant
            0 <= i <= nodes.len(),
            ns == graph::nodes_view(nodes@),
            forall|j: int| 0 <= j < i ==> (#[trigger] ns[j]).oid() != Some(oid),
        decreases nodes.len() - i,
    {
        assert(ns[i as int] == nodes@[i as int]@);
        if carries(&nodes[i], oid) {
            proof {
                lemma_first_row(ns, oid, i as int);
            }
            return Some(i);
        }
        i = i + 1;
    }
    None
}

/// The last row that carries `oid`.
pub fn find_last_row(nodes: &[GraphNode], oid: Oid) -> (row: Option<usize>)
    ensures
        row is Some <==> last_row(graph::nodes_view(nodes@), oid) is Some,
        row is Some ==> row->0 < nodes@.len() && last_row(graph::nodes_view(nodes@), oid) == Some(
            row->0 as int,
        ),
{
    let ghost ns = graph::nodes_view(nodes@);
    let mut i: usize = nodes.len();
    while i > 0
        invariant
            0 <= i <= nodes.len(),
            ns == graph::nodes_view(nodes@),
            forall|j: int| i <= j < nodes.len() ==> (#[trigger] ns[j]).oid() != Some(oid),
        decreases i,
    {
        i = i - 1;
        assert(ns[i as int] == nodes@[i as int]@);
        if carries(&nodes[i], oid) {
            proof {
                lemma_last_row(ns, oid, i as int);
            }
            return Some(i);
        }
    }
    None
}

/// The cell in column `col`; nothing is drawn past the end of a row.
fn cell_of(node: &GraphNode, col: usize) -> (cell: CellType)
    ensures
        cell == cell_at(node@, col as int),
{
    if col < node.cells.len() {
        node.cells[col]
    } else {
        CellType::Empty
    }
}

/// Whether the column of `lane` is empty in the first `end` rows.
fn is_column_free(nodes: &[GraphNode], lane: usize, end: usize) -> (free: bool)
    requires
        end <= nodes@.len(),
        2 * lane <= usize::MAX,
    ensures
        free == column_free(graph::nodes_view(nodes@), lane as int, end as int),
{
    let ghost ns = graph::nodes_view(nodes@);
    let mut i: usize = 0;
    while i < end
        invariant
            0 <= i <= end <= nodes.len(),
            2 * lane <= usize::MAX,
            ns == graph::nodes_view(nodes@),
            forall|j: int|
                0 <= j < i ==> cell_at(#[trigger] ns[j], 2 * lane) == CellType::Empty,
        decreases end - i,
    {
        assert(ns[i as int] == nodes@[i as int]@);
        if cell_of(&nodes[i], 2 * lane) != CellType::Empty {
            assert(cell_at(ns[i as int], 2 * lane) != CellType::Empty);
            return false;
        }
        i = i + 1;
    }
    true
}

/// How far apart two lanes are.
fn lane_distance(a: usize, b: usize) -> (d: usize)
    ensures
        d == distance(a as int, b as int),
{
    if a < b {
        b - a
    } else {
        a - b
    }
}

/// Pad a row with empty cells up to `width`.
fn pad_node(node: &mut GraphNode, width: usize)
    ensures
        final(node)@ == padded(old(node)@, width as int),
{
    let ghost n = node@;
    while node.cells.len() < width
        invariant
            n.cells.len() <= node.cells@.len(),
            n.cells.len() >= width ==> node.cells@ == n.cells,
            n.cells.len() < width ==> node.cells@.len() <= width && node.cells@ == n.cells
                + Seq::new((node.cells@.len() - n.cells.len()) as nat, |k: int| CellType::Empty),
            node@ == (NodeView { cells: node.cells@, ..n }),
        decreases width - node.cells.len(),
    {
        node.cells.push(CellType::Empty);
        assert(node.cells@ =~= n.cells + Seq::new(
            (node.cells@.len() - n.cells.len()) as nat,
            |k: int| CellType::Empty,
        ));
    }
    let ghost wide = node.cells@;
    while node.cell_oids.len() < width
        invariant
            n.cell_oids.len() <= node.cell_oids@.len(),
            n.cell_oids.len() >= width ==> node.cell_oids@ == n.cell_oids,
            n.cell_oids.len() < width ==> node.cell_oids@.len() <= width && node.cell_oids@
                == n.cell_oids + Seq::new(
                (node.cell_oids@.len() - n.cell_oids.len()) as nat,
                |k: int| (None, None),
            ),
            node@ == (NodeView { cells: wide, cell_oids: node.cell_oids@, ..n }),
        decreases width - node.cell_oids.len(),
    {
        node.cell_oids.push((None, None));
        assert(node.cell_oids@ =~= n.cell_oids + Seq::new(
            (node.cell_oids@.len() - n.cell_oids.len()) as nat,
            |k: int| (None, None),
        ));
    }
}

/// Pad every row up to `width`.
fn pad_rows(nodes: &mut Vec<GraphNode>, width: usize)
    ensures
        final(nodes)@.len() == old(nodes)@.len(),
        graph::nodes_view(final(nodes)@) == graph::nodes_view(old(nodes)@).map_values(
            |n: NodeView| padded(n, width as int),
        ),
{
    let ghost ns = graph::nodes_view(nodes@);
    let mut i: usize = 0;
    while i < nodes.len()
        invariant
            0 <= i <= nodes.len(),
            nodes@.len() == ns.len(),
            forall|k: int|
                0 <= k < ns.len() ==> (#[trigger] nodes@[k])@ == (if k < i {
                    padded(ns[k], width as int)
                } else {
                    ns[k]
                }),
        decreases nodes.len() - i,
    {
        pad_node(&mut nodes[i], width);
        i = i + 1;
    }
    assert(graph::nodes_view(nodes@) =~= ns.map_values(|n: NodeView| padded(n, width as int)));
}

/// Draw a grey pipe in column `col`, where that is empty.
fn draw_pipe(node: &mut GraphNode, col: usize, color: usize, clear: bool)
    requires
        col < old(node)@.cells.len(),
        col < old(node)@.cell_oids.len(),
    ensures
        final(node)@ == piped(old(node)@, col as int, color, clear),
{
    if node.cells[col] == CellType::Empty {
        node.cells.set(col, CellType::Pipe(color));
        if clear {
            node.cell_oids.set(col, (None, None));
        }
        assert(node@.cell_oids =~= old(node)@.cell_oids.update(
            col as int,
            grey_oids(old(node)@.cell_oids[col as int], clear),
        ));
    }
    assert(node@ =~= piped(old(node)@, col as int, color, clear));
}

/// Draw a grey pipe down the rows from `from` up to `to`.
fn draw_pipes(
    nodes: &mut Vec<GraphNode>,
    from: usize,
    to: usize,
    col: usize,
    color: usize,
    clear: bool,
)
    requires
        from <= to <= old(nodes)@.len(),
        forall|k: int|
            from <= k < to ==> col < (#[trigger] old(nodes)@[k])@.cells.len() && col < old(
                nodes,
            )@[k]@.cell_oids.len(),
    ensures
        final(nodes)@.len() == old(nodes)@.len(),
        forall|k: int|
            0 <= k < old(nodes)@.len() ==> (#[trigger] final(nodes)@[k])@ == (if from <= k < to {
                piped(old(nodes)@[k]@, col as int, color, clear)
            } else {
                old(nodes)@[k]@
            }),
{
    let ghost ns = nodes@;
    let mut i: usize = from;
    while i < to
        invariant
            from <= i <= to <= nodes@.len(),
            nodes@.len() == ns.len(),
            forall|k: int|
                from <= k < to ==> col < (#[trigger] ns[k])@.cells.len() && col
                    < ns[k]@.cell_oids.len(),
            forall|k: int|
                0 <= k < ns.len() ==> (#[trigger] nodes@[k])@ == (if from <= k < i {
                    piped(ns[k]@, col as int, color, clear)
                } else {
                    ns[k]@
                }),
        decreases to - i,
    {
        assert(nodes@[i as int]@ == ns[i as int]@);
        draw_pipe(&mut nodes[i], col, color, clear);
        i = i + 1;
    }
}

/// Draw a grey run between two lanes of a row and a curve at the second.
fn draw_curve(
    node: &mut GraphNode,
    from: usize,
    to: usize,
    color: usize,
    curve: CellType,
    clear: bool,
)
    requires
        from != to,
        2 * from < old(node)@.cells.len(),
        2 * to < old(node)@.cells.len(),
        old(node)@.cells.len() <= old(node)@.cell_oids.len(),
    ensures
        final(node)@ == curved(old(node)@, from, to, color, curve, clear),
{
    let ghost n = node@;
    let width: usize = node.cells.len();
    let (lo, hi): (usize, usize) = if to > from {
        (2 * from + 1, 2 * to)
    } else {
        (2 * to + 1, 2 * from)
    };
    let mut col: usize = lo;
    while col < hi
        invariant
            lo <= col <= hi < n.cells.len() <= n.cell_oids.len(),
            node.cells@.len() == n.cells.len(),
            node.cell_oids@.len() == n.cell_oids.len(),
            node@ == (NodeView { cells: node.cells@, cell_oids: node.cell_oids@, ..n }),
            forall|k: int|
                0 <= k < n.cells.len() ==> (#[trigger] node.cells@[k], node.cell_oids@[k]) == (
                if lo <= k < col {
                    cross_grey((n.cells[k], n.cell_oids[k]), color, clear)
                } else {
                    (n.cells[k], n.cell_oids[k])
                }),
            forall|k: int|
                n.cells.len() <= k < n.cell_oids.len() ==> #[trigger] node.cell_oids@[k]
                    == n.cell_oids[k],
        decreases hi - col,
    {
        let was = node.cell_oids[col];
        assert((node.cells@[col as int], node.cell_oids@[col as int]) == (
            n.cells[col as int],
            n.cell_oids[col as int],
        ));
        match node.cells[col] {
            CellType::Empty => {
                node.cells.set(col, CellType::Horizontal(color));
                if clear {
                    node.cell_oids.set(col, (None, None));
                }
            },
            CellType::Pipe(p) => {
                node.cells.set(col, CellType::HorizontalPipe(color, p));
                node.cell_oids.set(col, (None, was.0));
            },
            _ => {},
        }
        col = col + 1;
    }
    assert((node.cells@[2 * to], node.cell_oids@[2 * to]) == (
        n.cells[2 * to],
        n.cell_oids[2 * to],
    ));
    node.cells.set(2 * to, curve);
    if clear {
        node.cell_oids.set(2 * to, (None, None));
    }
    proof {
        let c = curved(n, from, to, color, curve, clear);
        assert(node.cells@ =~= c.cells);
        assert forall|k: int| 0 <= k < n.cell_oids.len() implies node.cell_oids@[k]
            == c.cell_oids[k] by {
            if k < n.cells.len() {
                assert((node.cells@[k], node.cell_oids@[k]).1 == c.cell_oids[k]);
            }
        }
        assert(node.cell_oids@ =~= c.cell_oids);
    }
}

/// Rows at their lanes, and rows that the machine can address with room for
/// `room` more lanes.
pub open spec fn rows_fit(nodes: Seq<NodeView>, max_lane: usize, room: int) -> bool {
    &&& 2 * (max_lane + room + 1) <= usize::MAX
    &&& forall|i: int|
        0 <= i < nodes.len() && (#[trigger] nodes[i]).commit is Some ==> nodes[i].lane <= max_lane
    &&& forall|i: int|
        0 <= i < nodes.len() && (#[trigger] nodes[i]).commit is Some ==> nodes[i].cells.len()
            <= nodes[i].cell_oids.len() || nodes[i].cells.len() <= 2 * (max_lane + 1)
}

/// The nearest lane that is free above HEAD's row and on it.
fn nearest_free_lane(nodes: &[GraphNode], max_lane: usize, head: usize) -> (lane: usize)
    requires
        head < nodes@.len(),
        2 * (max_lane + 2) <= usize::MAX,
    ensures
        lane == nearest_lane(
            |c: int| column_free(graph::nodes_view(nodes@), c, head + 1),
            |c: int| distance(c, graph::nodes_view(nodes@)[head as int].lane as int),
            max_lane + 1,
        ),
        lane <= max_lane + 1,
{
    let ghost ns = graph::nodes_view(nodes@);
    let ghost ok = |c: int| column_free(ns, c, head + 1);
    let home: usize = nodes[head].lane;
    let count: usize = nodes.len();
    let ghost dist = |c: int| distance(c, home as int);
    assert(ns[head as int].lane == home);
    let mut best: Option<(usize, usize)> = None;
    let mut c: usize = 0;
    while c <= max_lane + 1
        invariant
            0 <= c <= max_lane + 2,
            head < nodes@.len() == count,
            2 * (max_lane + 2) <= usize::MAX,
            ns == graph::nodes_view(nodes@),
            ok == (|c: int| column_free(ns, c, head + 1)),
            dist == (|c: int| distance(c, home as int)),
            best is None ==> forall|d: int| 0 <= d < c ==> !#[trigger] ok(d),
            best is Some ==> nearest(ok, dist, c - 1, (best->0).0 as int) && (best->0).1 == dist(
                (best->0).0 as int,
            ),
        decreases max_lane + 2 - c,
    {
        let free = is_column_free(nodes, c, head + 1);
        assert(free == ok(c as int));
        if free {
            let d: usize = lane_distance(c, home);
            match best {
                Some(b) => {
                    if d < b.1 {
                        best = Some((c, d));
                    }
                },
                None => {
                    best = Some((c, d));
                },
            }
        }
        c = c + 1;
    }
    proof {
        assert(dist =~= |c: int| distance(c, ns[head as int].lane as int));
        if best is Some {
            lemma_nearest(ok, dist, max_lane + 1, (best->0).0 as int);
        } else {
            let top = max_lane + 1;
            assert(forall|c: int| !nearest(ok, dist, top, c));
        }
    }
    match best {
        Some(b) => b.0,
        None => max_lane + 1,
    }
}

/// Insert the synthetic "uncommitted changes" node at the top of the graph and
/// draw its lane down to the HEAD commit.
///
/// When HEAD's own lane is free above it, the node sits on that lane. Otherwise
/// it takes the nearest free lane and a connector curves across to HEAD on the
/// HEAD row, crossing lanes without severing them: the lane has to be free on
/// the HEAD row too, and a pipe in between becomes a crossing.
pub fn insert_uncommitted_node(
    nodes: &mut Vec<GraphNode>,
    max_lane: &mut usize,
    head_commit_oid: Option<Oid>,
    count: Option<usize>,
)
    requires
        rows_fit(graph::nodes_view(old(nodes)@), *old(max_lane), 1),
    ensures
        (graph::nodes_view(final(nodes)@), *final(max_lane)) == with_uncommitted(
            graph::nodes_view(old(nodes)@),
            *old(max_lane),
            head_commit_oid,
            count,
        ),
        *final(max_lane) <= *old(max_lane) + 1,
{
    let ghost ns = graph::nodes_view(nodes@);
    let oid = match head_commit_oid {
        Some(o) => o,
        None => {
            return;
        },
    };
    let head: usize = match find_first_row(nodes.as_slice(), oid) {
        Some(h) => h,
        None => {
            return;
        },
    };
    proof {
        let k = choose|k: int| carries_first(ns, oid, k);
        assert(carries_first(ns, oid, k));
        assert(ns[head as int].commit is Some);
    }
    let home: usize = nodes[head].lane;
    assert(ns[head as int].lane == home);
    let lane: usize = if is_column_free(nodes.as_slice(), home, head) {
        home
    } else {
        nearest_free_lane(nodes.as_slice(), *max_lane, head)
    };
    assert(lane == uncommitted_lane(ns, *max_lane, head as int));
    let ghost max0 = *max_lane;
    if lane > *max_lane {
        *max_lane = lane;
    }
    let width: usize = (*max_lane + 1) * 2;
    pad_rows(nodes, width);
    let ghost wide = graph::nodes_view(nodes@);
    assert(forall|k: int| 0 <= k < ns.len() ==> #[trigger] wide[k] == padded(ns[k], width as int));
    assert(forall|k: int| 0 <= k < ns.len() ==> (#[trigger] nodes@[k])@ == wide[k]);
    draw_pipes(nodes, 0, head, 2 * lane, UNCOMMITTED_COLOR_INDEX, false);
    if lane != home {
        let curve = if lane > home {
            CellType::MergeLeft(UNCOMMITTED_COLOR_INDEX)
        } else {
            CellType::MergeRight(UNCOMMITTED_COLOR_INDEX)
        };
        draw_curve(&mut nodes[head], home, lane, UNCOMMITTED_COLOR_INDEX, curve, false);
    }
    let ghost drawn = graph::nodes_view(nodes@);
    let mut cells: Vec<CellType> = Vec::new();
    let mut cell_oids: Vec<CellOids> = Vec::new();
    let mut k: usize = 0;
    while k < width
        invariant
            0 <= k <= width,
            cells@.len() == k,
            cell_oids@.len() == k,
            2 * lane < width,
            forall|j: int|
                0 <= j < k ==> #[trigger] cells@[j] == (if j == 2 * lane {
                    CellType::Commit(UNCOMMITTED_COLOR_INDEX)
                } else {
                    CellType::Empty
                }),
            forall|j: int| 0 <= j < k ==> #[trigger] cell_oids@[j] == (None::<CellEdge>, None::<CellEdge>),
        decreases width - k,
    {
        if k == 2 * lane {
            cells.push(CellType::Commit(UNCOMMITTED_COLOR_INDEX));
        } else {
            cells.push(CellType::Empty);
        }
        cell_oids.push((None, None));
        k = k + 1;
    }
    let top = GraphNode {
        commit: None,
        lane,
        color_index: UNCOMMITTED_COLOR_INDEX,
        branch_names: Vec::new(),
        tag_names: Vec::new(),
        is_head: false,
        is_uncommitted: true,
        is_stash: false,
        stash_label: None,
        uncommitted_count: count,
        cells,
        cell_oids,
    };
    nodes.insert(0, top);
    proof {
        let spec = with_uncommitted(ns, max0, head_commit_oid, count);
        assert(text::texts(Seq::<String>::empty()) =~= Seq::<Seq<char>>::empty());
        assert(top@ =~= spec.0[0]);
        assert forall|j: int| 0 <= j < spec.0.len() implies graph::nodes_view(nodes@)[j]
            == spec.0[j] by {
            if j > 0 {
                assert(graph::nodes_view(nodes@)[j] == drawn[j - 1]);
            }
        }
        assert(graph::nodes_view(nodes@) =~= spec.0);
    }
}

/// Whether the column of `lane` can carry a link between rows `u` and `l`.
fn is_link_column(nodes: &[GraphNode], u: usize, l: usize, lane: usize) -> (ok: bool)
    requires
        u < l < nodes@.len(),
        2 * lane <= usize::MAX,
    ensures
        ok == link_column(graph::nodes_view(nodes@), u as int, l as int, lane as int),
{
    let ghost ns = graph::nodes_view(nodes@);
    let ulane: usize = nodes[u].lane;
    let llane: usize = nodes[l].lane;
    assert(ns[u as int].lane == ulane && ns[l as int].lane == llane);
    let mut i: usize = u;
    let count: usize = nodes.len();
    while i <= l
        invariant
            count == nodes@.len(),
            u <= i <= l + 1,
            l < nodes@.len(),
            2 * lane <= usize::MAX,
            ns == graph::nodes_view(nodes@),
            ns[u as int].lane == ulane,
            ns[l as int].lane == llane,
            forall|j: int|
                u <= j < i ==> (j == u && lane == ulane) || (j == l && lane == llane) || cell_at(
                    #[trigger] ns[j],
                    2 * lane,
                ) == CellType::Empty,
        decreases l + 1 - i,
    {
        let dot = (i == u && lane == ulane) || (i == l && lane == llane);
        assert(ns[i as int] == nodes@[i as int]@);
        if !dot && cell_of(&nodes[i], 2 * lane) != CellType::Empty {
            assert(cell_at(ns[i as int], 2 * lane) != CellType::Empty);
            return false;
        }
        i = i + 1;
    }
    true
}

/// The usable lane nearest both ends of a link.
fn find_link_lane(nodes: &[GraphNode], max_lane: usize, u: usize, l: usize) -> (lane: usize)
    requires
        u < l < nodes@.len(),
        2 * (max_lane + 2) <= usize::MAX,
        nodes@[u as int].lane <= max_lane,
        nodes@[l as int].lane <= max_lane,
    ensures
        lane == link_lane(graph::nodes_view(nodes@), max_lane, u as int, l as int),
        lane <= max_lane + 1,
{
    let ghost ns = graph::nodes_view(nodes@);
    let ulane: usize = nodes[u].lane;
    let llane: usize = nodes[l].lane;
    assert(ns[u as int].lane == ulane && ns[l as int].lane == llane);
    let ghost ok = |c: int| link_column(ns, u as int, l as int, c);
    let ghost dist = |c: int| distance(c, ulane as int) + distance(c, llane as int);
    let mut best: Option<(usize, usize)> = None;
    let mut c: usize = 0;
    while c <= max_lane + 1
        invariant
            0 <= c <= max_lane + 2,
            u < l < nodes@.len(),
            2 * (max_lane + 2) <= usize::MAX,
            ulane <= max_lane,
            llane <= max_lane,
            ns == graph::nodes_view(nodes@),
            ok == (|c: int| link_column(ns, u as int, l as int, c)),
            dist == (|c: int| distance(c, ulane as int) + distance(c, llane as int)),
            best is None ==> forall|d: int| 0 <= d < c ==> !#[trigger] ok(d),
            best is Some ==> nearest(ok, dist, c - 1, (best->0).0 as int) && (best->0).1 == dist(
                (best->0).0 as int,
            ),
        decreases max_lane + 2 - c,
    {
        let free = is_link_column(nodes, u, l, c);
        assert(free == ok(c as int));
        if free {
            let d: usize = lane_distance(c, ulane) + lane_distance(c, llane);
            match best {
                Some(b) => {
                    if d < b.1 {
                        best = Some((c, d));
                    }
                },
                None => {
                    best = Some((c, d));
                },
            }
        }
        c = c + 1;
    }
    proof {
        assert(dist =~= |c: int|
            distance(c, ns[u as int].lane as int) + distance(c, ns[l as int].lane as int));
        if best is Some {
            lemma_nearest(ok, dist, max_lane + 1, (best->0).0 as int);
        } else {
            let top = max_lane + 1;
            assert(forall|c: int| !nearest(ok, dist, top, c));
        }
    }
    match best {
        Some(b) => b.0,
        None => max_lane + 1,
    }
}

/// Draw a link's elbow on one of its end rows, unless the link runs on that
/// row's own lane.
fn draw_elbow(nodes: &mut Vec<GraphNode>, row: usize, from: usize, to: usize, curve: CellType)
    requires
        row < old(nodes)@.len(),
        2 * from < old(nodes)@[row as int]@.cells.len(),
        2 * to < old(nodes)@[row as int]@.cells.len(),
        old(nodes)@[row as int]@.cells.len() <= old(nodes)@[row as int]@.cell_oids.len(),
    ensures
        final(nodes)@.len() == old(nodes)@.len(),
        forall|k: int|
            0 <= k < old(nodes)@.len() ==> (#[trigger] final(nodes)@[k])@ == (if k == row && to
                != from {
                curved(old(nodes)@[k]@, from, to, SQUASH_LINK_COLOR_INDEX, curve, true)
            } else {
                old(nodes)@[k]@
            }),
{
    if to != from {
        draw_curve(&mut nodes[row], from, to, SQUASH_LINK_COLOR_INDEX, curve, true);
    }
}

/// Draw a link on `lane` from row `u` down to row `l`, with every row padded up
/// to `width`.
fn draw_link_on(nodes: &mut Vec<GraphNode>, u: usize, l: usize, lane: usize, width: usize)
    requires
        u < l < old(nodes)@.len(),
        2 * lane < width,
        forall|k: int|
            (k == u || k == l) ==> 2 * (#[trigger] old(nodes)@[k])@.lane < width && (old(
                nodes,
            )@[k]@.cells.len() <= width || old(nodes)@[k]@.cells.len() <= old(
                nodes,
            )@[k]@.cell_oids.len()),
    ensures
        final(nodes)@.len() == old(nodes)@.len(),
        forall|k: int|
            0 <= k < old(nodes)@.len() ==> (#[trigger] final(nodes)@[k])@ == link_row(
                graph::nodes_view(old(nodes)@),
                u as int,
                l as int,
                lane,
                width as int,
                k,
            ),
{
    let ghost ns = graph::nodes_view(nodes@);
    let ulane: usize = nodes[u].lane;
    let llane: usize = nodes[l].lane;
    assert(ns[u as int] == nodes@[u as int]@ && ns[l as int] == nodes@[l as int]@);
    pad_rows(nodes, width);
    let ghost wide = graph::nodes_view(nodes@);
    assert(forall|k: int| 0 <= k < ns.len() ==> #[trigger] wide[k] == padded(ns[k], width as int));
    assert(forall|k: int| 0 <= k < ns.len() ==> (#[trigger] nodes@[k])@ == wide[k]);
    draw_pipes(nodes, u + 1, l, 2 * lane, SQUASH_LINK_COLOR_INDEX, true);
    assert(nodes@[u as int]@ == wide[u as int]);
    assert(nodes@[l as int]@ == wide[l as int]);
    let upper = if lane > ulane {
        CellType::BranchLeft(SQUASH_LINK_COLOR_INDEX)
    } else {
        CellType::BranchRight(SQUASH_LINK_COLOR_INDEX)
    };
    draw_elbow(nodes, u, ulane, lane, upper);
    let lower = if lane > llane {
        CellType::MergeLeft(SQUASH_LINK_COLOR_INDEX)
    } else {
        CellType::MergeRight(SQUASH_LINK_COLOR_INDEX)
    };
    draw_elbow(nodes, l, llane, lane, lower);
    assert forall|k: int| 0 <= k < ns.len() implies (#[trigger] nodes@[k])@ == link_row(
        ns,
        u as int,
        l as int,
        lane,
        width as int,
        k,
    ) by {
        assert(wide[k] == padded(ns[k], width as int));
    }
}

/// Draw one squash link between the commit rows `r1` and `r2`: a grey pipe down
/// the column nearest both ends, joined to each end by an elbow. The column may
/// be an end's own lane, in which case that end needs no elbow.
fn draw_squash_link(nodes: &mut Vec<GraphNode>, max_lane: &mut usize, r1: usize, r2: usize)
    requires
        r1 != r2,
        r1 < old(nodes)@.len(),
        r2 < old(nodes)@.len(),
        rows_fit(graph::nodes_view(old(nodes)@), *old(max_lane), 1),
        graph::nodes_view(old(nodes)@)[r1 as int].commit is Some,
        graph::nodes_view(old(nodes)@)[r2 as int].commit is Some,
    ensures
        (graph::nodes_view(final(nodes)@), *final(max_lane)) == linked(
            graph::nodes_view(old(nodes)@),
            *old(max_lane),
            r1 as int,
            r2 as int,
        ),
        *old(max_lane) <= *final(max_lane) <= *old(max_lane) + 1,
{
    let ghost ns = graph::nodes_view(nodes@);
    let (u, l): (usize, usize) = if r1 < r2 {
        (r1, r2)
    } else {
        (r2, r1)
    };
    let ulane: usize = nodes[u].lane;
    let llane: usize = nodes[l].lane;
    assert(ns[u as int].lane == ulane && ns[l as int].lane == llane);
    let lane: usize = find_link_lane(nodes.as_slice(), *max_lane, u, l);
    let ghost max0 = *max_lane;
    if lane > *max_lane {
        *max_lane = lane;
    }
    let width: usize = (*max_lane + 1) * 2;
    assert(nodes@[u as int]@ == ns[u as int] && nodes@[l as int]@ == ns[l as int]);
    draw_link_on(nodes, u, l, lane, width);
    assert(graph::nodes_view(nodes@) =~= linked(ns, max0, r1 as int, r2 as int).0);
}

proof fn lemma_linked_keeps(ns: Seq<NodeView>, max_lane: usize, r1: int, r2: int)
    requires
        0 <= r1 < ns.len(),
        0 <= r2 < ns.len(),
    ensures
        linked(ns, max_lane, r1, r2).0.len() == ns.len(),
        forall|i: int|
            0 <= i < ns.len() ==> (#[trigger] linked(ns, max_lane, r1, r2).0[i]).commit
                == ns[i].commit && linked(ns, max_lane, r1, r2).0[i].lane == ns[i].lane,
{
}

proof fn lemma_linked_fits(ns: Seq<NodeView>, max_lane: usize, r1: int, r2: int, room: int)
    requires
        room >= 1,
        0 <= r1 < ns.len(),
        0 <= r2 < ns.len(),
        rows_fit(ns, max_lane, room),
        linked(ns, max_lane, r1, r2).1 <= max_lane + 1,
    ensures
        rows_fit(linked(ns, max_lane, r1, r2).0, linked(ns, max_lane, r1, r2).1, room - 1),
{
    let (out, max) = linked(ns, max_lane, r1, r2);
    lemma_linked_keeps(ns, max_lane, r1, r2);
    assert forall|i: int| 0 <= i < out.len() && (#[trigger] out[i]).commit is Some implies
        out[i].lane <= max && (out[i].cells.len() <= out[i].cell_oids.len() || out[i].cells.len()
        <= 2 * (max + 1)) by {
        assert(ns[i].commit is Some);
        let p = padded(ns[i], 2 * (max + 1));
        assert(out[i].cells.len() == p.cells.len());
        assert(out[i].cell_oids.len() == p.cell_oids.len());
    }
}

/// Overlay muted-grey squash links: for each `(branch_tip, squash_commit)` pair
/// whose two commits are loaded, a faint line joins their rows. Nothing but
/// cells changes.
pub fn inject_squash_links(nodes: &mut Vec<GraphNode>, max_lane: &mut usize, links: &[(Oid, Oid)])
    requires
        rows_fit(graph::nodes_view(old(nodes)@), *old(max_lane), links@.len() as int),
    ensures
        (graph::nodes_view(final(nodes)@), *final(max_lane)) == with_links(
            graph::nodes_view(old(nodes)@),
            *old(max_lane),
            links@,
            links@.len(),
        ),
{
    let ghost ns = graph::nodes_view(nodes@);
    let ghost max0 = *max_lane;
    let mut n: usize = 0;
    while n < links.len()
        invariant
            0 <= n <= links.len(),
            rows_fit(graph::nodes_view(nodes@), *max_lane, links@.len() - n),
            (graph::nodes_view(nodes@), *max_lane) == with_links(ns, max0, links@, n as nat),
        decreases links.len() - n,
    {
        let (tip, target) = links[n];
        let ghost now = graph::nodes_view(nodes@);
        let r1 = find_last_row(nodes.as_slice(), tip);
        let r2 = find_last_row(nodes.as_slice(), target);
        if let (Some(r1), Some(r2)) = (r1, r2) {
            if r1 != r2 {
                proof {
                    let k1 = choose|k: int| carries_last(now, tip, k);
                    assert(carries_last(now, tip, k1));
                    let k2 = choose|k: int| carries_last(now, target, k);
                    assert(carries_last(now, target, k2));
                    assert(now[r1 as int].oid() == Some(tip));
                    assert(now[r2 as int].oid() == Some(target));
                }
                let ghost m = *max_lane;
                draw_squash_link(nodes, max_lane, r1, r2);
                proof {
                    lemma_linked_fits(now, m, r1 as int, r2 as int, links@.len() - n);
                }
            }
        }
        n = n + 1;
    }
}

/// The uncommitted-changes row keeps a layout's shape.
pub proof fn lemma_uncommitted_shapely(
    ns: Seq<NodeView>,
    max_lane: usize,
    head: Option<Oid>,
    count: Option<usize>,
)
    requires
        crate::git::graph::walk::shapely(ns, max_lane),
        max_lane + 1 <= usize::MAX,
    ensures
        crate::git::graph::walk::shapely(
            with_uncommitted(ns, max_lane, head, count).0,
            with_uncommitted(ns, max_lane, head, count).1,
        ),
{
    let (out, max) = with_uncommitted(ns, max_lane, head, count);
    if head is Some && first_row(ns, head->0) is Some {
        assert forall|i: int| 0 <= i < out.len() implies (#[trigger] out[i]).lane <= max
            && out[i].cells.len() == out[i].cell_oids.len() && out[i].cells.len() <= 2 * (max
            + 1) by {
            if i > 0 {
                let p = padded(ns[i - 1], 2 * (max + 1));
                assert(ns[i - 1].lane <= max_lane);
                assert(out[i].cells.len() == p.cells.len());
                assert(out[i].cell_oids.len() == p.cell_oids.len());
            }
        }
    }
}

} // verus!
