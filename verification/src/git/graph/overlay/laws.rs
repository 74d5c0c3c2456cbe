//! What the overlays join: the uncommitted-changes row to HEAD's, and a squash
//! link's two rows to each other.
use crate::git::graph::arms;
use crate::git::graph::cells;
use crate::git::graph::overlay;
use crate::git::graph::walk;
use crate::git::graph::{CellType, NodeView};
use crate::oid::Oid;
use vstd::prelude::*;

verus! {

/// Nothing is drawn on a lane in the rows from `from` up to `to`.
pub open spec fn blank(ns: Seq<NodeView>, lane: int, from: int, to: int) -> bool {
    forall|i: int| from <= i < to ==> arms::cell_at(#[trigger] ns[i], 2 * lane) == CellType::Empty
}

/// A lane of a row is led to its dot: the cells between the two lanes are filled
/// with a horizontal stroke, and pipes on the way are crossed.
pub open spec fn led_across(was: NodeView, now: NodeView, dot: int, lane: int) -> bool {
    forall|col: int|
        2 * dot < col < 2 * lane || 2 * lane < col < 2 * dot ==> {
            let c = #[trigger] arms::cell_at(now, col);
            let old = arms::cell_at(was, col);
            if old is Empty || old is Pipe {
                arms::arms(c).left && arms::arms(c).right && (old is Pipe ==> arms::arms(c).up
                    && arms::arms(c).down)
            } else {
                c == old
            }
        }
}

/// How far lane `c` is from lane `d`.
pub open spec fn apart(c: int, d: int) -> int {
    if c <= d {
        d - c
    } else {
        c - d
    }
}

proof fn lemma_nearest_exists(ok: spec_fn(int) -> bool, dist: spec_fn(int) -> int, max: int, c: int)
    requires
        0 <= c <= max,
        ok(c),
    ensures
        exists|b: int| overlay::nearest(ok, dist, max, b),
    decreases max,
{
    if exists|d: int| 0 <= d <= max - 1 && #[trigger] ok(d) {
        let d = choose|d: int| 0 <= d <= max - 1 && #[trigger] ok(d);
        let less = max - 1;
        lemma_nearest_exists(ok, dist, less, d);
        let b = choose|b: int| overlay::nearest(ok, dist, less, b);
        assert(overlay::nearest(ok, dist, less, b));
        if ok(max) && dist(max) < dist(b) {
            assert(overlay::nearest(ok, dist, max, max));
        } else {
            assert(overlay::nearest(ok, dist, max, b));
        }
    } else {
        assert(c == max);
        assert(overlay::nearest(ok, dist, max, max));
    }
}

proof fn lemma_nearest_lane(ok: spec_fn(int) -> bool, dist: spec_fn(int) -> int, max: int)
    requires
        0 <= max <= usize::MAX,
        ok(max),
    ensures
        overlay::nearest(ok, dist, max, overlay::nearest_lane(ok, dist, max) as int),
{
    lemma_nearest_exists(ok, dist, max, max);
    let c = choose|c: int| overlay::nearest(ok, dist, max, c);
    assert(overlay::nearest(ok, dist, max, c));
}

/// The uncommitted changes stand in a row of their own above all others, with
/// the count that was given and nothing else on it, and a line runs down from
/// its dot to HEAD's. It runs straight down HEAD's lane where nothing is drawn
/// there above HEAD, and otherwise down the nearest lane that is blank as far as
/// HEAD, the left one of two, and across in HEAD's row.
pub proof fn law_uncommitted_changes_are_joined_to_head(
    ns: Seq<NodeView>,
    max_lane: usize,
    head: Oid,
    count: Option<usize>,
    h: int,
)
    requires
        walk::shapely(ns, max_lane),
        max_lane < usize::MAX,
        0 <= h < ns.len(),
        ns[h].oid() == Some(head),
        forall|j: int| 0 <= j < h ==> (#[trigger] ns[j]).oid() != Some(head),
    ensures
        ({
            let (out, max) = overlay::with_uncommitted(ns, max_lane, Some(head), count);
            let top = out[0];
            let home = ns[h].lane as int;
            let lane = top.lane as int;
            &&& out.len() == ns.len() + 1
            &&& max == (if lane > max_lane { lane } else { max_lane as int })
            &&& top.commit is None
            &&& top.is_uncommitted
            &&& top.uncommitted_count == count
            &&& !top.is_head
            &&& !top.is_stash
            &&& top.branch_names.len() == 0
            &&& top.tag_names.len() == 0
            &&& arms::cell_at(top, 2 * lane) is Commit
            &&& forall|col: int| col != 2 * lane ==> #[trigger] arms::cell_at(top, col) == CellType::Empty
            &&& forall|i: int|
                0 <= i < h ==> arms::arms(arms::cell_at(#[trigger] out[i + 1], 2 * lane)).up
                    && arms::arms(arms::cell_at(out[i + 1], 2 * lane)).down
            &&& blank(ns, lane, 0, h)
            &&& lane == home <==> blank(ns, home, 0, h)
            &&& lane != home ==> {
                let turn = arms::arms(arms::cell_at(out[h + 1], 2 * lane));
                &&& blank(ns, lane, 0, h + 1)
                &&& turn.up
                &&& !turn.down
                &&& turn.left == (home < lane)
                &&& turn.right == (lane < home)
                &&& led_across(ns[h], out[h + 1], home, lane)
                &&& forall|d: int|
                    0 <= d <= max_lane + 1 && #[trigger] blank(ns, d, 0, h + 1) ==> apart(lane, home)
                        < apart(d, home) || (apart(lane, home) == apart(d, home) && lane <= d)
            }
        }),
{
    assert(overlay::carries_first(ns, head, h));
    let k = choose|k: int| overlay::carries_first(ns, head, k);
    assert(overlay::carries_first(ns, head, k));
    if k != h {
        if k < h {
            assert(ns[k].oid() != Some(head));
        } else {
            assert(ns[h].oid() != Some(head));
        }
    }
    let (out, max) = overlay::with_uncommitted(ns, max_lane, Some(head), count);
    let home = ns[h].lane as int;
    let lane = overlay::uncommitted_lane(ns, max_lane, h);
    let ok = |c: int| overlay::column_free(ns, c, h + 1);
    let dist = |c: int| overlay::distance(c, home);
    assert(ok(max_lane + 1)) by {
        assert forall|i: int| 0 <= i < h + 1 implies overlay::cell_at(
            #[trigger] ns[i],
            2 * (max_lane + 1),
        ) == CellType::Empty by {}
    }
    lemma_nearest_lane(ok, dist, max_lane + 1);
    assert(out[0].lane == lane);
    assert(forall|c: int, e: int| #[trigger] overlay::column_free(ns, c, e) <==> blank(ns, c, 0, e)) by {
        assert forall|c: int, e: int| #[trigger] overlay::column_free(ns, c, e) implies blank(ns, c, 0, e) by {
            assert forall|i: int| 0 <= i < e implies arms::cell_at(#[trigger] ns[i], 2 * c)
                == CellType::Empty by {
                assert(overlay::cell_at(ns[i], 2 * c) == CellType::Empty);
            }
        }
        assert forall|c: int, e: int| blank(ns, c, 0, e) implies #[trigger] overlay::column_free(ns, c, e) by {
            assert forall|i: int| 0 <= i < e implies overlay::cell_at(#[trigger] ns[i], 2 * c)
                == CellType::Empty by {
                assert(arms::cell_at(ns[i], 2 * c) == CellType::Empty);
            }
        }
    }
    if !blank(ns, home, 0, h) {
        assert(overlay::nearest(ok, dist, max_lane + 1, lane as int));
        assert(blank(ns, lane as int, 0, h + 1));
        assert(blank(ns, lane as int, 0, h));
        assert forall|d: int| 0 <= d <= max_lane + 1 && #[trigger] blank(ns, d, 0, h + 1) implies apart(
            lane as int,
            home,
        ) < apart(d, home) || (apart(lane as int, home) == apart(d, home) && lane <= d) by {
            assert(overlay::column_free(ns, d, h + 1));
            assert(ok(d));
        }
    }
    let width = 2 * (max + 1);
    assert forall|i: int| 0 <= i < h implies arms::arms(
        arms::cell_at(#[trigger] out[i + 1], 2 * lane),
    ).up && arms::arms(arms::cell_at(out[i + 1], 2 * lane)).down by {
        let p = overlay::padded(ns[i], width);
        assert(arms::cell_at(ns[i], 2 * lane) == CellType::Empty);
        assert(p.cells[2 * lane] == CellType::Empty);
    }
    if lane != home {
        let p = overlay::padded(ns[h], width);
        assert(p.cells.len() == width);
        assert(out[h + 1].cells.len() == width);
        assert forall|col: int| 2 * home < col < 2 * lane || 2 * lane < col < 2 * home implies ({
            let c = #[trigger] arms::cell_at(out[h + 1], col);
            let old = arms::cell_at(ns[h], col);
            if old is Empty || old is Pipe {
                arms::arms(c).left && arms::arms(c).right && (old is Pipe ==> arms::arms(c).up
                    && arms::arms(c).down)
            } else {
                c == old
            }
        }) by {
            assert(p.cells[col] == arms::cell_at(ns[h], col));
        }
    }
}

/// A squash link joins the rows of its two commits: down the lane that lies
/// nearest to both dots, the leftmost of several, among those that are blank
/// from the one row to the other, and across to each dot that is on another
/// lane.
pub proof fn law_squash_links_join_their_rows(
    ns: Seq<NodeView>,
    max_lane: usize,
    tip: Oid,
    target: Oid,
    a: int,
    b: int,
)
    requires
        walk::shapely(ns, max_lane),
        max_lane < usize::MAX,
        0 <= a < ns.len(),
        0 <= b < ns.len(),
        a != b,
        forall|i: int| 0 <= i < ns.len() ==> ((#[trigger] ns[i]).oid() == Some(tip) <==> i == a),
        forall|i: int| 0 <= i < ns.len() ==> ((#[trigger] ns[i]).oid() == Some(target) <==> i == b),
    ensures
        ({
            let (out, max) = overlay::with_links(ns, max_lane, seq![(tip, target)], 1);
            let u = if a < b { a } else { b };
            let l = if a < b { b } else { a };
            joined(ns, max_lane, out, max, u, l)
        }),
{
    let links = seq![(tip, target)];
    let (out, max) = overlay::with_links(ns, max_lane, links, 1);
    assert(overlay::with_links(ns, max_lane, links, 0) == (ns, max_lane));
    assert(overlay::carries_last(ns, tip, a));
    let k1 = choose|k: int| overlay::carries_last(ns, tip, k);
    assert(overlay::carries_last(ns, tip, k1));
    assert(overlay::carries_last(ns, target, b));
    let k2 = choose|k: int| overlay::carries_last(ns, target, k);
    assert(overlay::carries_last(ns, target, k2));
    assert(k1 == a && k2 == b);
    assert((out, max) == overlay::linked(ns, max_lane, a, b));
    let u = if a < b { a } else { b };
    let l = if a < b { b } else { a };
    lemma_link_joins(ns, max_lane, a, b);
    let lane = overlay::link_lane(ns, max_lane, u, l) as int;
    assert(joins(ns, out, u, l, lane));
    assert(joined(ns, max_lane, out, max, u, l));
}

proof fn lemma_link_joins(ns: Seq<NodeView>, max_lane: usize, a: int, b: int)
    requires
        walk::shapely(ns, max_lane),
        max_lane < usize::MAX,
        0 <= a < ns.len(),
        0 <= b < ns.len(),
        a != b,
    ensures
        ({
            let (out, max) = overlay::linked(ns, max_lane, a, b);
            let u = if a < b { a } else { b };
            let l = if a < b { b } else { a };
            let lane = overlay::link_lane(ns, max_lane, u, l) as int;
            &&& joins(ns, out, u, l, lane)
            &&& 0 <= lane <= max_lane + 1
            &&& shortest(ns, max_lane, u, l, lane)
            &&& max == (if lane > max_lane { lane } else { max_lane as int })
        }),
{
    let (out, max) = overlay::linked(ns, max_lane, a, b);
    let u = if a < b { a } else { b };
    let l = if a < b { b } else { a };
    let lane = overlay::link_lane(ns, max_lane, u, l);
    let ok = |c: int| overlay::link_column(ns, u, l, c);
    let dist = |c: int|
        overlay::distance(c, ns[u].lane as int) + overlay::distance(c, ns[l].lane as int);
    assert(ok(max_lane + 1)) by {
        assert forall|i: int| u <= i <= l implies (i == u && max_lane + 1 == ns[u].lane) || (i == l
            && max_lane + 1 == ns[l].lane) || overlay::cell_at(#[trigger] ns[i], 2 * (max_lane + 1))
            == CellType::Empty by {}
    }
    lemma_nearest_lane(ok, dist, max_lane + 1);
    let width = 2 * (max + 1);
    assert(overlay::link_column(ns, u, l, lane as int));
    assert forall|i: int| u < i < l implies arms::arms(arms::cell_at(#[trigger] out[i], 2 * lane)).up
        && arms::arms(arms::cell_at(out[i], 2 * lane)).down by {
        let p = overlay::padded(ns[i], width);
        assert(out[i] == overlay::link_row(ns, u, l, lane, width, i));
        assert(overlay::cell_at(ns[i], 2 * lane) == CellType::Empty);
        assert(p.cells[2 * lane] == CellType::Empty);
    }
    assert forall|i: int| i == u || i == l implies led_across(
        ns[i],
        #[trigger] out[i],
        ns[i].lane as int,
        lane as int,
    ) by {
        let p = overlay::padded(ns[i], width);
        assert(out[i] == overlay::link_row(ns, u, l, lane, width, i));
        assert(p.cells.len() == width);
        assert forall|col: int|
            2 * ns[i].lane < col < 2 * lane || 2 * lane < col < 2 * ns[i].lane implies ({
            let c = #[trigger] arms::cell_at(out[i], col);
            let old = arms::cell_at(ns[i], col);
            if old is Empty || old is Pipe {
                arms::arms(c).left && arms::arms(c).right && (old is Pipe ==> arms::arms(c).up
                    && arms::arms(c).down)
            } else {
                c == old
            }
        }) by {
            assert(p.cells[col] == arms::cell_at(ns[i], col));
        }
    }
    assert(out[u] == overlay::link_row(ns, u, l, lane, width, u));
    assert(out[l] == overlay::link_row(ns, u, l, lane, width, l));
    assert(joins(ns, out, u, l, lane as int));
    assert forall|d: int| 0 <= d <= max_lane + 1 && #[trigger] open_lane(ns, u, l, d) implies ({
        let near = apart(lane as int, ns[u].lane as int) + apart(lane as int, ns[l].lane as int);
        let other = apart(d, ns[u].lane as int) + apart(d, ns[l].lane as int);
        near < other || (near == other && lane <= d)
    }) by {
        assert forall|i: int| u <= i <= l implies (i == u && d == ns[u].lane) || (i == l && d
            == ns[l].lane) || overlay::cell_at(#[trigger] ns[i], 2 * d) == CellType::Empty by {
            assert(arms::cell_at(ns[i], 2 * d) == overlay::cell_at(ns[i], 2 * d));
        }
        assert(ok(d));
    }
}

/// No lane that is open from row `u` to row `l` lies nearer to both dots than
/// `lane`, and none as near lies further left.
pub open spec fn shortest(ns: Seq<NodeView>, max_lane: usize, u: int, l: int, lane: int) -> bool {
    forall|d: int|
        0 <= d <= max_lane + 1 && #[trigger] open_lane(ns, u, l, d) ==> {
            let near = apart(lane, ns[u].lane as int) + apart(lane, ns[l].lane as int);
            let other = apart(d, ns[u].lane as int) + apart(d, ns[l].lane as int);
            near < other || (near == other && lane <= d)
        }
}

/// A lane that a line may run down from row `u` to row `l`: blank but for the
/// dots at its ends.
pub open spec fn open_lane(ns: Seq<NodeView>, u: int, l: int, lane: int) -> bool {
    &&& blank(ns, lane, u + 1, l)
    &&& lane == ns[u].lane || arms::cell_at(ns[u], 2 * lane) == CellType::Empty
    &&& lane == ns[l].lane || arms::cell_at(ns[l], 2 * lane) == CellType::Empty
}

/// A line runs from the dot in row `u` down a lane to the dot in row `l`.
pub open spec fn joins(ns: Seq<NodeView>, out: Seq<NodeView>, u: int, l: int, lane: int) -> bool {
    let below = arms::arms(arms::cell_at(out[u], 2 * lane));
    let above = arms::arms(arms::cell_at(out[l], 2 * lane));
    let upper = ns[u].lane as int;
    let lower = ns[l].lane as int;
    &&& forall|i: int|
        u < i < l ==> arms::arms(arms::cell_at(#[trigger] out[i], 2 * lane)).up && arms::arms(
            arms::cell_at(out[i], 2 * lane),
        ).down
    &&& lane != upper ==> below.down && !below.up && below.left == (upper < lane) && below.right == (
    lane < upper)
    &&& lane != lower ==> above.up && !above.down && above.left == (lower < lane) && above.right == (
    lane < lower)
    &&& led_across(ns[u], out[u], upper, lane)
    &&& led_across(ns[l], out[l], lower, lane)
    &&& open_lane(ns, u, l, lane)
}

/// Some lane joins the rows `u` and `l`, the one that makes the shortest line.
pub open spec fn joined(
    ns: Seq<NodeView>,
    max_lane: usize,
    out: Seq<NodeView>,
    max: usize,
    u: int,
    l: int,
) -> bool {
    exists|lane: int| #[trigger]
        joins(ns, out, u, l, lane) && 0 <= lane <= max_lane + 1 && shortest(ns, max_lane, u, l, lane)
            && max == (if lane > max_lane { lane } else { max_lane as int })
}

/// Links are drawn one after the other, each onto what the ones before it left.
pub proof fn law_links_are_drawn_in_order(
    ns: Seq<NodeView>,
    max_lane: usize,
    links: Seq<(Oid, Oid)>,
    n: nat,
)
    requires
        n < links.len(),
    ensures
        ({
            let (mid, m) = overlay::with_links(ns, max_lane, links, n);
            overlay::with_links(ns, max_lane, links, n + 1) == overlay::with_links(mid, m, seq![links[n as int]], 1)
        }),
        overlay::with_links(ns, max_lane, links, 0) == (ns, max_lane),
{
    let (mid, m) = overlay::with_links(ns, max_lane, links, n);
    let one = seq![links[n as int]];
    assert(overlay::with_links(mid, m, one, 0) == (mid, m));
    assert(one[0] == links[n as int]);
}

/// Whatever changed in a row is drawn in a colour.
pub open spec fn drawn_in(was: NodeView, now: NodeView, color: usize) -> bool {
    forall|col: int|
        arms::cell_at(was, col) != #[trigger] arms::cell_at(now, col) ==> cells::colour(
            arms::cell_at(now, col),
        ) == Some(color)
}

/// The line of the uncommitted changes has a colour of its own, which no lane
/// has.
pub proof fn law_colour_of_the_uncommitted_line(
    ns: Seq<NodeView>,
    max_lane: usize,
    head: Oid,
    count: Option<usize>,
)
    requires
        overlay::first_row(ns, head) is Some,
    ensures
        ({
            let out = overlay::with_uncommitted(ns, max_lane, Some(head), count).0;
            &&& out[0].color_index == 1000
            &&& arms::cell_at(out[0], 2 * out[0].lane) == CellType::Commit(1000)
            &&& forall|j: int| 1 <= j < out.len() ==> drawn_in(ns[j - 1], #[trigger] out[j], 1000)
        }),
{
    let (out, max) = overlay::with_uncommitted(ns, max_lane, Some(head), count);
    let width = 2 * (max + 1);
    assert forall|j: int| 1 <= j < out.len() implies drawn_in(ns[j - 1], #[trigger] out[j], 1000) by {
        let p = overlay::padded(ns[j - 1], width);
        assert forall|col: int|
            arms::cell_at(ns[j - 1], col) != #[trigger] arms::cell_at(out[j], col) implies cells::colour(
            arms::cell_at(out[j], col),
        ) == Some(1000usize) by {
            assert(arms::cell_at(p, col) == arms::cell_at(ns[j - 1], col));
        }
    }
}

/// Squash links have a colour of their own, which no lane has.
pub proof fn law_colour_of_squash_links(ns: Seq<NodeView>, max_lane: usize, links: Seq<(Oid, Oid)>, n: nat)
    requires
        n <= links.len(),
    ensures
        ({
            let out = overlay::with_links(ns, max_lane, links, n).0;
            &&& out.len() == ns.len()
            &&& forall|i: int| 0 <= i < ns.len() ==> drawn_in(ns[i], #[trigger] out[i], 1001)
        }),
    decreases n,
{
    if n > 0 {
        law_colour_of_squash_links(ns, max_lane, links, (n - 1) as nat);
        let (mid, m) = overlay::with_links(ns, max_lane, links, (n - 1) as nat);
        let (out, max) = overlay::with_links(ns, max_lane, links, n);
        let r1 = overlay::last_row(mid, links[n - 1].0);
        let r2 = overlay::last_row(mid, links[n - 1].1);
        let drawn = r1 is Some && r2 is Some && r1 != r2;
        if drawn {
            assert((out, max) == overlay::linked(mid, m, r1->0, r2->0));
            lemma_link_colour(mid, m, r1->0, r2->0);
        } else {
            assert(out == mid);
        }
        assert forall|i: int| 0 <= i < ns.len() implies drawn_in(ns[i], #[trigger] out[i], 1001) by {
            assert(drawn_in(ns[i], mid[i], 1001));
            assert(drawn || out[i] == mid[i]);
            if drawn {
                assert(drawn_in(mid[i], out[i], 1001));
            }
            assert forall|col: int|
                arms::cell_at(ns[i], col) != #[trigger] arms::cell_at(out[i], col) implies cells::colour(
                arms::cell_at(out[i], col),
            ) == Some(1001usize) by {
                if arms::cell_at(mid[i], col) == arms::cell_at(out[i], col) {
                    assert(arms::cell_at(ns[i], col) != arms::cell_at(mid[i], col));
                }
            }
        }
    }
}

proof fn lemma_link_colour(ns: Seq<NodeView>, max_lane: usize, r1: int, r2: int)
    ensures
        ({
            let out = overlay::linked(ns, max_lane, r1, r2).0;
            &&& out.len() == ns.len()
            &&& forall|i: int| 0 <= i < ns.len() ==> drawn_in(ns[i], #[trigger] out[i], 1001)
        }),
{
    let (out, max) = overlay::linked(ns, max_lane, r1, r2);
    let width = 2 * (max + 1);
    let u = if r1 < r2 { r1 } else { r2 };
    let l = if r1 < r2 { r2 } else { r1 };
    let lane = overlay::link_lane(ns, max_lane, u, l);
    assert forall|i: int| 0 <= i < ns.len() implies drawn_in(ns[i], #[trigger] out[i], 1001) by {
        let p = overlay::padded(ns[i], width);
        assert(out[i] == overlay::link_row(ns, u, l, lane, width, i));
        assert forall|col: int|
            arms::cell_at(ns[i], col) != #[trigger] arms::cell_at(out[i], col) implies cells::colour(
            arms::cell_at(out[i], col),
        ) == Some(1001usize) by {
            assert(arms::cell_at(p, col) == arms::cell_at(ns[i], col));
        }
    }
}

} // verus!
