//! The walk that lays commits out on lanes, one row after another.
pub mod laws;

use std::collections::HashMap;

use crate::git::branch::BranchInfo;
use crate::git::commit;
use crate::git::commit::{CommitInfo, CommitView};
use crate::git::graph;
use crate::git::graph::cells;
use crate::git::graph::cells::{LaneView, ParentLink};
use crate::git::graph::line;
use crate::git::graph::{CellOids, CellType, GraphNode, NodeView};
use crate::git::repository::{StashInfo, TagInfo};
use crate::graph::colors::{ColorAssigner, ColorState, MAIN_BRANCH_COLOR};
use crate::oid::{Oid, OidMap, OidSet};
use crate::text;
use vstd::prelude::*;
use vstd::string::*;

verus! {

/// What the walk reads and never changes.
pub struct Scene {
    pub cs: Seq<CommitView>,
    pub head: Option<Oid>,
    /// Branch tips with their names.
    pub branches: Seq<(Oid, Seq<char>)>,
    /// Tagged commits with the tags' names.
    pub tags: Seq<(Oid, Seq<char>)>,
    /// Stash commits with their indices.
    pub stashes: Seq<(Oid, usize)>,
}

impl Scene {
    /// HEAD's first-parent line.
    pub open spec fn line(self) -> Set<Oid> {
        line::head_line(self.cs, self.head)
    }

    /// Whether lane 0 is kept for HEAD's line.
    pub open spec fn reserved(self) -> bool {
        self.line() != Set::<Oid>::empty()
    }

    /// Whether a commit may sit on lane 0.
    pub open spec fn zero_ok(self, oid: Oid) -> bool {
        self.line().contains(oid) || !self.reserved()
    }

    /// Whether a commit's row is above `row`.
    pub open spec fn shown(self, oid: Oid, row: int) -> bool {
        line::rows(self.cs).dom().contains(oid) && line::rows(self.cs)[oid] < row
    }

    /// The loaded parents of the commit in `row`.
    pub open spec fn parents(self, row: int) -> Seq<Oid> {
        self.cs[row].parents.filter(|p: Oid| line::loaded(self.cs, p))
    }
}

/// How often `oid` occurs in a list of parents.
pub open spec fn occurrences(parents: Seq<Oid>, oid: Oid) -> nat
    decreases parents.len(),
{
    if parents.len() == 0 {
        0
    } else {
        occurrences(parents.drop_last(), oid) + (if parents.last() == oid {
            1nat
        } else {
            0nat
        })
    }
}

/// How many edges of the loaded commits lead to `oid`.
pub open spec fn edges_to(cs: Seq<CommitView>, oid: Oid) -> nat
    decreases cs.len(),
{
    if cs.len() == 0 {
        0
    } else {
        edges_to(cs.drop_last(), oid) + occurrences(cs.last().parents, oid)
    }
}

/// A loaded commit that two or more edges lead to.
pub open spec fn fork_point(cs: Seq<CommitView>, oid: Oid) -> bool {
    line::loaded(cs, oid) && edges_to(cs, oid) >= 2
}

/// Lane `i` is the first that awaits `oid`.
pub open spec fn awaits_first(lanes: Seq<Option<Oid>>, oid: Oid, i: int) -> bool {
    &&& 0 <= i < lanes.len()
    &&& lanes[i] == Some(oid)
    &&& forall|j: int| 0 <= j < i ==> lanes[j] != Some(oid)
}

/// The first lane that awaits `oid`.
pub open spec fn awaiting(lanes: Seq<Option<Oid>>, oid: Oid) -> Option<usize> {
    if exists|i: int| awaits_first(lanes, oid, i) {
        Some((choose|i: int| awaits_first(lanes, oid, i)) as usize)
    } else {
        None
    }
}

/// Lane `i` is the lowest free one; lane 0 counts only with `zero_ok`.
pub open spec fn free_first(lanes: Seq<Option<Oid>>, zero_ok: bool, i: int) -> bool {
    &&& 0 <= i < lanes.len()
    &&& lanes[i] is None
    &&& (zero_ok || i != 0)
    &&& forall|j: int| 0 <= j < i ==> lanes[j] is Some || (j == 0 && !zero_ok)
}

/// The lane that a new line takes: the lowest free one, else one more.
pub open spec fn opened(lanes: Seq<Option<Oid>>, zero_ok: bool) -> usize {
    if exists|i: int| free_first(lanes, zero_ok, i) {
        (choose|i: int| free_first(lanes, zero_ok, i)) as usize
    } else {
        lanes.len() as usize
    }
}

/// `s` with room for `lane`.
pub open spec fn grown(s: Seq<Option<Oid>>, lane: usize) -> Seq<Option<Oid>> {
    if lane < s.len() {
        s
    } else {
        s.push(None)
    }
}

/// The larger of `start` and the lanes.
pub open spec fn widest(start: usize, lanes: Seq<usize>) -> usize
    decreases lanes.len(),
{
    if lanes.len() == 0 {
        start
    } else {
        let w = widest(start, lanes.drop_last());
        if lanes.last() > w {
            lanes.last()
        } else {
            w
        }
    }
}

/// The names of the refs at `oid`, in their order.
pub open spec fn names_at(refs: Seq<(Oid, Seq<char>)>, oid: Oid) -> Seq<Seq<char>>
    decreases refs.len(),
{
    if refs.len() == 0 {
        Seq::empty()
    } else {
        let rest = names_at(refs.drop_last(), oid);
        if refs.last().0 == oid {
            rest.push(refs.last().1)
        } else {
            rest
        }
    }
}

/// The label of the stash entry at `oid`; the last one wins.
pub open spec fn label_at(stashes: Seq<(Oid, usize)>, oid: Oid) -> Option<Seq<char>>
    decreases stashes.len(),
{
    if stashes.len() == 0 {
        None
    } else if stashes.last().0 == oid {
        Some("stash@{"@ + text::decimal(stashes.last().1 as nat) + "}"@)
    } else {
        label_at(stashes.drop_last(), oid)
    }
}

/// What the walk carries from row to row.
#[verifier::ext_equal]
pub struct Walk {
    /// The commit each lane awaits.
    pub lanes: Seq<Option<Oid>>,
    /// The commit that put each lane's edge there.
    pub children: Seq<Option<Oid>>,
    pub oid_colors: Map<Oid, usize>,
    pub lane_colors: Map<usize, usize>,
    pub colors: ColorState,
    /// Whether the main colour has been claimed.
    pub main_assigned: bool,
    pub max_lane: usize,
    pub nodes: Seq<NodeView>,
}

/// A row in the middle of connecting its parents.
#[verifier::ext_equal]
pub struct Placing {
    pub walk: Walk,
    pub links: Seq<ParentLink>,
    /// The colour that replaces the commit's when its line runs on to a fork
    /// point that another lane already awaits.
    pub sibling: Option<usize>,
}

/// A row without a commit.
pub open spec fn bare_node(
    lane: usize,
    color: usize,
    cells: Seq<CellType>,
    cell_oids: Seq<CellOids>,
) -> NodeView {
    NodeView {
        commit: None,
        lane,
        color_index: color,
        branch_names: Seq::empty(),
        tag_names: Seq::empty(),
        is_head: false,
        is_uncommitted: false,
        is_stash: false,
        stash_label: None,
        uncommitted_count: None,
        cells,
        cell_oids,
    }
}

impl Walk {
    /// Before the first row. When lane 0 is kept for HEAD's line it exists
    /// already, empty, and the main colour is held back.
    pub open spec fn start(sc: Scene) -> Walk {
        let slots: Seq<Option<Oid>> = if sc.reserved() {
            seq![None]
        } else {
            Seq::empty()
        };
        Walk {
            lanes: slots,
            children: slots,
            oid_colors: Map::empty(),
            lane_colors: Map::empty(),
            colors: if sc.reserved() {
                ColorState::initial().reserving(MAIN_BRANCH_COLOR)
            } else {
                ColorState::initial()
            },
            main_assigned: false,
            max_lane: 0,
            nodes: Seq::empty(),
        }
    }

    /// The lanes as a row draws over them.
    pub open spec fn view(self) -> LaneView {
        LaneView {
            lanes: self.lanes,
            children: self.children,
            oid_colors: self.oid_colors,
            lane_colors: self.lane_colors,
        }
    }

    /// The lane of the commit `oid`.
    pub open spec fn seat(self, sc: Scene, oid: Oid) -> usize {
        match awaiting(self.lanes, oid) {
            Some(l) => l,
            None => opened(self.lanes, sc.zero_ok(oid)),
        }
    }

    /// With `lane` in place.
    pub open spec fn seated(self, lane: usize) -> Walk {
        Walk { lanes: grown(self.lanes, lane), children: grown(self.children, lane), ..self }
    }

    /// Among the first `n` lanes those besides `main` that await `oid`, with
    /// their colours.
    pub open spec fn merging(self, oid: Oid, main: usize, n: nat) -> Seq<(usize, usize)>
        decreases n,
    {
        if n == 0 {
            Seq::empty()
        } else {
            let rest = self.merging(oid, main, (n - 1) as nat);
            if self.lanes[n - 1] == Some(oid) && n - 1 != main {
                let l = (n - 1) as usize;
                rest.push((l, cells::lane_color(self.lane_colors, self.oid_colors, l, oid)))
            } else {
                rest
            }
        }
    }

    /// The lanes besides `main` that await `oid`.
    pub open spec fn ending(self, oid: Oid, main: usize) -> Set<usize> {
        Set::new(|l: usize| l < self.lanes.len() && self.lanes[l as int] == Some(oid) && l != main)
    }

    /// When several lanes await `oid`, a connector row joins them into the
    /// lowest and the others end.
    pub open spec fn joined(self, oid: Oid, main: usize) -> Walk {
        let m = self.merging(oid, main, self.lanes.len());
        if m.len() == 0 {
            self
        } else {
            let color = cells::lane_color(self.lane_colors, self.oid_colors, main, oid);
            let max = widest(self.max_lane, m.map_values(|p: (usize, usize)| p.0).push(main));
            let f = |k: int| cells::fork_cell(self.view(), main, color, oid, m, m.len(), k);
            let gone = self.ending(oid, main);
            Walk {
                lanes: Seq::new(
                    self.lanes.len(),
                    |i: int| if gone.contains(i as usize) { None } else { self.lanes[i] },
                ),
                children: Seq::new(
                    self.children.len(),
                    |i: int| if gone.contains(i as usize) { None } else { self.children[i] },
                ),
                lane_colors: self.lane_colors.remove_keys(gone),
                colors: ColorState { lanes: self.colors.lanes.remove_keys(gone), ..self.colors },
                max_lane: max,
                nodes: self.nodes.push(
                    bare_node(
                        main,
                        color,
                        Seq::new((2 * (max + 1)) as nat, |k: int| f(k).0),
                        Seq::new((2 * (max + 1)) as nat, |k: int| f(k).1),
                    ),
                ),
                ..self
            }
        }
    }

    /// Whether the commit on `lane` claims the main colour: the first one to
    /// land on lane 0.
    pub open spec fn claims_main(self, sc: Scene, lane: usize) -> bool {
        lane == 0 && !self.main_assigned && (sc.reserved() || self.nodes.len() == 0)
    }

    /// The colour of the commit on `lane`; `going_on` when the lane awaited it.
    pub open spec fn commit_color(self, sc: Scene, lane: usize, going_on: bool) -> usize {
        if self.claims_main(sc, lane) {
            MAIN_BRANCH_COLOR
        } else if going_on {
            self.colors.kept_color(lane)
        } else {
            self.colors.next_color()
        }
    }

    /// With the commit coloured and its lane cleared.
    pub open spec fn colored(self, sc: Scene, oid: Oid, lane: usize, going_on: bool) -> Walk {
        let color = self.commit_color(sc, lane, going_on);
        Walk {
            lanes: self.lanes.update(lane as int, None),
            children: self.children.update(lane as int, None),
            oid_colors: self.oid_colors.insert(oid, color),
            lane_colors: self.lane_colors.insert(lane, color),
            colors: if self.claims_main(sc, lane) {
                self.colors.main_on(lane)
            } else {
                self.colors.using(lane, color)
            },
            main_assigned: self.main_assigned || self.claims_main(sc, lane),
            ..self
        }
    }

    /// With `lane` awaiting `parent` on behalf of `child`.
    pub open spec fn toward(self, lane: usize, parent: Oid, child: Oid) -> Walk {
        Walk {
            lanes: grown(self.lanes, lane).update(lane as int, Some(parent)),
            children: grown(self.children, lane).update(lane as int, Some(child)),
            ..self
        }
    }
}

/// Connect the `i`th loaded parent of the commit `oid` on `lane`.
pub open spec fn place(
    sc: Scene,
    row: int,
    oid: Oid,
    lane: usize,
    color: usize,
    p: Placing,
    i: int,
    parent: Oid,
) -> Placing {
    let w = p.walk;
    let shown = sc.shown(parent, row);
    match awaiting(w.lanes, parent) {
        Some(pl) => if i == 0 && fork_point(sc.cs, parent) {
            // This lane runs down to the fork point as well.
            let c = if w.colors.main_lane == Some(lane) {
                MAIN_BRANCH_COLOR
            } else {
                color
            };
            Placing {
                walk: Walk {
                    lane_colors: w.lane_colors.insert(lane, c),
                    ..w.toward(lane, parent, oid)
                },
                links: p.links.push(
                    ParentLink { oid: parent, lane, existing: false, color: c, shown },
                ),
                sibling: Some(c),
            }
        } else {
            let c = cells::lane_color(w.lane_colors, w.oid_colors, pl, parent);
            Placing {
                links: p.links.push(
                    ParentLink { oid: parent, lane: pl, existing: true, color: c, shown },
                ),
                ..p
            }
        },
        None => if i == 0 {
            // The first parent goes on in the same lane.
            Placing {
                walk: Walk {
                    oid_colors: w.oid_colors.insert(parent, color),
                    ..w.toward(lane, parent, oid)
                },
                links: p.links.push(ParentLink { oid: parent, lane, existing: false, color, shown }),
                ..p
            }
        } else {
            let nl = opened(w.lanes, sc.zero_ok(parent));
            let c = w.colors.next_sibling_color();
            Placing {
                walk: Walk {
                    colors: w.colors.sibling_on(nl),
                    oid_colors: w.oid_colors.insert(parent, c),
                    lane_colors: w.lane_colors.insert(nl, c),
                    ..w.toward(nl, parent, oid)
                },
                links: p.links.push(
                    ParentLink { oid: parent, lane: nl, existing: false, color: c, shown },
                ),
                ..p
            }
        },
    }
}

/// Connect the first `n` of `parents`.
pub open spec fn placed(
    sc: Scene,
    row: int,
    oid: Oid,
    lane: usize,
    color: usize,
    w: Walk,
    parents: Seq<Oid>,
    n: nat,
) -> Placing
    decreases n,
{
    if n == 0 {
        Placing { walk: w, links: Seq::empty(), sibling: None }
    } else {
        place(
            sc,
            row,
            oid,
            lane,
            color,
            placed(sc, row, oid, lane, color, w, parents, (n - 1) as nat),
            n - 1,
            parents[n - 1],
        )
    }
}

/// The row of the commit in `row`.
pub open spec fn commit_node(sc: Scene, row: int, lane: usize, color: usize, p: Placing) -> NodeView {
    let c = sc.cs[row];
    let shade = if p.sibling is Some {
        p.sibling->0
    } else {
        color
    };
    let max = p.walk.max_lane;
    let f = |k: int| cells::row_cell(p.walk.view(), lane, shade, c.oid, p.links, p.links.len(), k);
    NodeView {
        commit: Some(c),
        lane,
        color_index: shade,
        branch_names: names_at(sc.branches, c.oid),
        tag_names: names_at(sc.tags, c.oid),
        is_head: sc.head == Some(c.oid),
        is_uncommitted: false,
        is_stash: label_at(sc.stashes, c.oid) is Some,
        stash_label: label_at(sc.stashes, c.oid),
        uncommitted_count: None,
        cells: Seq::new((2 * (max + 1)) as nat, |k: int| f(k).0),
        cell_oids: Seq::new((2 * (max + 1)) as nat, |k: int| f(k).1),
    }
}

/// Link `i` is the first that leads to a parent awaited on another lane.
pub open spec fn crosses_first(links: Seq<ParentLink>, lane: usize, i: int) -> bool {
    &&& 0 <= i < links.len()
    &&& links[i].existing
    &&& links[i].lane != lane
    &&& forall|j: int| 0 <= j < i ==> !((#[trigger] links[j]).existing && links[j].lane != lane)
}

/// The lane of the first parent awaited on another lane.
pub open spec fn crossed_lane(links: Seq<ParentLink>, lane: usize) -> Option<usize> {
    if exists|i: int| crosses_first(links, lane, i) {
        Some(links[choose|i: int| crosses_first(links, lane, i)].lane)
    } else {
        None
    }
}

/// When a parent is awaited on another lane, the higher of the two lanes ends,
/// unless the first parent runs on it or it awaits a commit further down; what
/// it awaited moves to the lower lane if that is free.
pub open spec fn settled(
    sc: Scene,
    row: int,
    lane: usize,
    w: Walk,
    links: Seq<ParentLink>,
) -> Walk {
    match crossed_lane(links, lane) {
        None => w,
        Some(other) => {
            let main = if other < lane {
                other
            } else {
                lane
            };
            let end = if other < lane {
                lane
            } else {
                other
            };
            let held = w.lanes[end as int];
            if links[0].lane == end || (held is Some && line::rows(sc.cs).dom().contains(
                held->0,
            ) && line::rows(sc.cs)[held->0] >= row) {
                w
            } else {
                let moves = held is Some && w.lanes[main as int] is None;
                Walk {
                    lanes: (if moves {
                        w.lanes.update(main as int, held)
                    } else {
                        w.lanes
                    }).update(end as int, None),
                    children: (if moves {
                        w.children.update(main as int, w.children[end as int])
                    } else {
                        w.children
                    }).update(end as int, None),
                    colors: w.colors.releasing(end),
                    lane_colors: w.lane_colors.remove(end),
                    ..w
                }
            }
        },
    }
}

impl Walk {
    /// The walk after its commit's row is joined and coloured, with the lane,
    /// the colour and whether the lane awaited the commit.
    pub open spec fn prepared(self, sc: Scene, row: int) -> (Walk, usize, usize) {
        let oid = sc.cs[row].oid;
        let w = Walk { colors: self.colors.next_row(), ..self };
        let lane = w.seat(sc, oid);
        let going_on = awaiting(w.lanes, oid) is Some;
        let j = w.seated(lane).joined(oid, lane);
        (j.colored(sc, oid, lane, going_on), lane, j.commit_color(sc, lane, going_on))
    }

    /// The row in `row` with its parents connected and its width known.
    pub open spec fn connected(self, sc: Scene, row: int) -> Placing {
        let (w, lane, color) = self.prepared(sc, row);
        let parents = sc.parents(row);
        let start = if parents.len() >= 2 {
            Walk { colors: w.colors.forking(), ..w }
        } else {
            w
        };
        let p = placed(
            sc,
            row,
            sc.cs[row].oid,
            lane,
            color,
            start,
            parents,
            parents.len(),
        );
        let base = if lane > p.walk.max_lane {
            lane
        } else {
            p.walk.max_lane
        };
        Placing {
            walk: Walk {
                max_lane: widest(base, p.links.map_values(|l: ParentLink| l.lane)),
                ..p.walk
            },
            ..p
        }
    }

    /// The walk after the commit in `row`.
    pub open spec fn step(self, sc: Scene, row: int) -> Walk {
        let (_, lane, color) = self.prepared(sc, row);
        let p = self.connected(sc, row);
        let node = commit_node(sc, row, lane, color, p);
        let w = settled(sc, row, lane, p.walk, p.links);
        Walk { nodes: p.walk.nodes.push(node), ..w }
    }

    /// The walk after the first `n` commits.
    pub open spec fn after(sc: Scene, n: nat) -> Walk
        decreases n,
    {
        if n == 0 {
            Walk::start(sc)
        } else {
            Walk::after(sc, (n - 1) as nat).step(sc, n - 1)
        }
    }
}

/// The walk as it runs.
pub struct WalkState {
    lanes: Vec<Option<Oid>>,
    children: Vec<Option<Oid>>,
    oid_colors: OidMap<usize>,
    lane_colors: HashMap<usize, usize>,
    colors: ColorAssigner,
    main_assigned: bool,
    max_lane: usize,
    nodes: Vec<GraphNode>,
}

impl View for WalkState {
    type V = Walk;

    closed spec fn view(&self) -> Walk {
        Walk {
            lanes: self.lanes@,
            children: self.children@,
            oid_colors: self.oid_colors@,
            lane_colors: self.lane_colors@,
            colors: self.colors@,
            main_assigned: self.main_assigned,
            max_lane: self.max_lane,
            nodes: graph::nodes_view(self.nodes@),
        }
    }
}

proof fn lemma_awaiting_found(lanes: Seq<Option<Oid>>, oid: Oid, i: int)
    requires
        awaits_first(lanes, oid, i),
    ensures
        awaiting(lanes, oid) == Some(i as usize),
{
    let k = choose|k: int| awaits_first(lanes, oid, k);
    assert(awaits_first(lanes, oid, k));
    assert(k == i);
}

proof fn lemma_opened_found(lanes: Seq<Option<Oid>>, zero_ok: bool, i: int)
    requires
        free_first(lanes, zero_ok, i),
    ensures
        opened(lanes, zero_ok) == i as usize,
{
    let k = choose|k: int| free_first(lanes, zero_ok, k);
    assert(free_first(lanes, zero_ok, k));
    assert(k == i);
}

/// The first lane that awaits `oid`.
fn find_awaiting(lanes: &[Option<Oid>], oid: Oid) -> (lane: Option<usize>)
    ensures
        lane == awaiting(lanes@, oid),
        lane is Some ==> awaits_first(lanes@, oid, lane->0 as int),
        lane is None ==> forall|j: int| 0 <= j < lanes@.len() ==> lanes@[j] != Some(oid),
{
    let mut i: usize = 0;
    while i < lanes.len()
        invariant
            0 <= i <= lanes.len(),
            forall|j: int| 0 <= j < i ==> lanes@[j] != Some(oid),
        decreases lanes.len() - i,
    {
        if lanes[i] == Some(oid) {
            proof {
                lemma_awaiting_found(lanes@, oid, i as int);
            }
            return Some(i);
        }
        i = i + 1;
    }
    None
}

/// Take the lowest free lane, adding one if every lane is busy.
fn open_lane(
    lanes: &mut Vec<Option<Oid>>,
    children: &mut Vec<Option<Oid>>,
    zero_ok: bool,
) -> (lane: usize)
    requires
        old(lanes)@.len() == old(children)@.len(),
    ensures
        lane == opened(old(lanes)@, zero_ok),
        lane <= old(lanes)@.len(),
        lane < final(lanes)@.len() <= old(lanes)@.len() + 1,
        final(lanes)@ == grown(old(lanes)@, lane),
        final(children)@ == grown(old(children)@, lane),
        final(lanes)@[lane as int] is None,
{
    let mut i: usize = 0;
    while i < lanes.len()
        invariant
            0 <= i <= lanes.len(),
            lanes@ == old(lanes)@,
            children@ == old(children)@,
            lanes@.len() == children@.len(),
            forall|j: int| 0 <= j < i ==> lanes@[j] is Some || (j == 0 && !zero_ok),
        decreases lanes.len() - i,
    {
        if lanes[i].is_none() && (zero_ok || i != 0) {
            proof {
                assert(free_first(lanes@, zero_ok, i as int));
                lemma_opened_found(lanes@, zero_ok, i as int);
            }
            return i;
        }
        i = i + 1;
    }
    lanes.push(None);
    children.push(None);
    i
}

fn push_names(out: &mut Vec<String>, name: &String)
    ensures
        text::texts(final(out)@) == text::texts(old(out)@).push(name@),
{
    out.push(name.clone());
    assert(text::texts(out@) =~= text::texts(old(out)@).push(name@));
}

/// Branch tips with their names.
pub open spec fn branch_refs(branches: Seq<BranchInfo>) -> Seq<(Oid, Seq<char>)> {
    branches.map_values(|b: BranchInfo| (b.tip_oid, b.name@))
}

/// Tagged commits with the tags' names.
pub open spec fn tag_refs(tags: Seq<TagInfo>) -> Seq<(Oid, Seq<char>)> {
    tags.map_values(|t: TagInfo| (t.target_oid, t.name@))
}

/// Stash commits with their indices.
pub open spec fn stash_refs(stashes: Seq<StashInfo>) -> Seq<(Oid, usize)> {
    stashes.map_values(|s: StashInfo| (s.oid, s.index))
}

fn branch_names_at(branches: &[BranchInfo], oid: Oid) -> (names: Vec<String>)
    ensures
        text::texts(names@) == names_at(branch_refs(branches@), oid),
{
    let ghost refs = branch_refs(branches@);
    let mut names: Vec<String> = Vec::new();
    let mut i: usize = 0;
    assert(text::texts(names@) =~= Seq::<Seq<char>>::empty());
    while i < branches.len()
        invariant
            0 <= i <= branches.len(),
            refs == branch_refs(branches@),
            text::texts(names@) == names_at(refs.take(i as int), oid),
        decreases branches.len() - i,
    {
        proof {
            assert(refs.take(i + 1).drop_last() =~= refs.take(i as int));
            assert(refs.take(i + 1).last() == refs[i as int]);
        }
        if branches[i].tip_oid == oid {
            push_names(&mut names, &branches[i].name);
        }
        i = i + 1;
    }
    assert(refs.take(i as int) =~= refs);
    names
}

fn tag_names_at(tags: &[TagInfo], oid: Oid) -> (names: Vec<String>)
    ensures
        text::texts(names@) == names_at(tag_refs(tags@), oid),
{
    let ghost refs = tag_refs(tags@);
    let mut names: Vec<String> = Vec::new();
    let mut i: usize = 0;
    assert(text::texts(names@) =~= Seq::<Seq<char>>::empty());
    while i < tags.len()
        invariant
            0 <= i <= tags.len(),
            refs == tag_refs(tags@),
            text::texts(names@) == names_at(refs.take(i as int), oid),
        decreases tags.len() - i,
    {
        proof {
            assert(refs.take(i + 1).drop_last() =~= refs.take(i as int));
            assert(refs.take(i + 1).last() == refs[i as int]);
        }
        if tags[i].target_oid == oid {
            push_names(&mut names, &tags[i].name);
        }
        i = i + 1;
    }
    assert(refs.take(i as int) =~= refs);
    names
}

fn stash_label_at(stashes: &[StashInfo], oid: Oid) -> (label: Option<String>)
    ensures
        text::opt_text(label) == label_at(stash_refs(stashes@), oid),
{
    let ghost refs = stash_refs(stashes@);
    let mut i: usize = stashes.len();
    assert(refs.take(i as int) =~= refs);
    while i > 0
        invariant
            0 <= i <= stashes.len(),
            refs == stash_refs(stashes@),
            label_at(refs, oid) == label_at(refs.take(i as int), oid),
        decreases i,
    {
        proof {
            assert(refs.take(i as int).drop_last() =~= refs.take(i - 1));
            assert(refs.take(i as int).last() == refs[i - 1]);
        }
        i = i - 1;
        if stashes[i].oid == oid {
            let mut label = String::new();
            label.append("stash@{");
            text::push_decimal(&mut label, stashes[i].index as u64);
            label.append("}");
            assert(label@ =~= "stash@{"@ + text::decimal(stashes@[i as int].index as nat) + "}"@);
            return Some(label);
        }
    }
    None
}

pub proof fn lemma_occurrences_split(parents: Seq<Oid>, oid: Oid, i: int)
    requires
        0 <= i < parents.len(),
    ensures
        occurrences(parents.take(i + 1), oid) == occurrences(parents.take(i), oid) + (if parents[i]
            == oid {
            1nat
        } else {
            0nat
        }),
{
    assert(parents.take(i + 1).drop_last() =~= parents.take(i));
}

pub proof fn lemma_occurrences_monotone(parents: Seq<Oid>, oid: Oid, i: int)
    requires
        0 <= i <= parents.len(),
    ensures
        occurrences(parents.take(i), oid) <= occurrences(parents, oid),
    decreases parents.len() - i,
{
    if i < parents.len() {
        lemma_occurrences_split(parents, oid, i);
        lemma_occurrences_monotone(parents, oid, i + 1);
    } else {
        assert(parents.take(i) =~= parents);
    }
}

pub proof fn lemma_edges_split(cs: Seq<CommitView>, oid: Oid, i: int)
    requires
        0 <= i < cs.len(),
    ensures
        edges_to(cs.take(i + 1), oid) == edges_to(cs.take(i), oid) + occurrences(
            cs[i].parents,
            oid,
        ),
{
    assert(cs.take(i + 1).drop_last() =~= cs.take(i));
}

pub proof fn lemma_edges_monotone(cs: Seq<CommitView>, oid: Oid, i: int)
    requires
        0 <= i <= cs.len(),
    ensures
        edges_to(cs.take(i), oid) <= edges_to(cs, oid),
    decreases cs.len() - i,
{
    if i < cs.len() {
        lemma_edges_split(cs, oid, i);
        lemma_edges_monotone(cs, oid, i + 1);
    } else {
        assert(cs.take(i) =~= cs);
    }
}

/// Whether two or more edges lead to the loaded commit `oid`.
fn is_fork_point(commits: &[CommitInfo], oid: Oid) -> (fork: bool)
    requires
        line::loaded(commit::commits_view(commits@), oid),
    ensures
        fork == fork_point(commit::commits_view(commits@), oid),
{
    let ghost cs = commit::commits_view(commits@);
    let mut count: usize = 0;
    let mut i: usize = 0;
    while i < commits.len()
        invariant
            0 <= i <= commits.len(),
            cs == commit::commits_view(commits@),
            line::loaded(cs, oid),
            count < 2,
            count == edges_to(cs.take(i as int), oid),
        decreases commits.len() - i,
    {
        let parents = &commits[i].parent_oids;
        let ghost before = count;
        let mut j: usize = 0;
        assert(cs[i as int] == commits@[i as int]@);
        assert(parents@.take(0) =~= Seq::empty());
        while j < parents.len()
            invariant
                0 <= j <= parents.len(),
                0 <= i < commits.len(),
                cs == commit::commits_view(commits@),
                line::loaded(cs, oid),
                cs[i as int].parents == parents@,
                before == edges_to(cs.take(i as int), oid),
                count < 2,
                count == before + occurrences(parents@.take(j as int), oid),
            decreases parents.len() - j,
        {
            proof {
                lemma_occurrences_split(parents@, oid, j as int);
            }
            if parents[j] == oid {
                count = count + 1;
                if count >= 2 {
                    proof {
                        lemma_occurrences_monotone(parents@, oid, j + 1);
                        lemma_edges_split(cs, oid, i as int);
                        lemma_edges_monotone(cs, oid, i + 1);
                    }
                    return true;
                }
            }
            j = j + 1;
        }
        proof {
            assert(parents@.take(j as int) =~= parents@);
            lemma_edges_split(cs, oid, i as int);
        }
        i = i + 1;
    }
    assert(cs.take(i as int) =~= cs);
    false
}

/// The inputs of the walk.
pub struct Stage<'a> {
    pub commits: &'a [CommitInfo],
    pub rows: &'a OidMap<usize>,
    pub line: &'a OidSet,
    pub reserved: bool,
    pub head: Option<Oid>,
    pub branches: &'a [BranchInfo],
    pub tags: &'a [TagInfo],
    pub stashes: &'a [StashInfo],
}

impl<'a> Stage<'a> {
    pub open spec fn scene(&self) -> Scene {
        Scene {
            cs: commit::commits_view(self.commits@),
            head: self.head,
            branches: branch_refs(self.branches@),
            tags: tag_refs(self.tags@),
            stashes: stash_refs(self.stashes@),
        }
    }

    /// The tables are those of the commits.
    pub open spec fn ok(&self) -> bool {
        &&& self.scene().cs.len() <= usize::MAX
        &&& self.rows@ == line::rows(self.scene().cs)
        &&& self.line@ == self.scene().line()
        &&& self.reserved == self.scene().reserved()
    }
}

impl Walk {
    /// The lanes are tracked in parallel and fit the machine, with room for
    /// `room` more.
    pub open spec fn fits(self, room: int) -> bool {
        &&& self.lanes.len() == self.children.len()
        &&& self.colors.wf()
        &&& self.max_lane < self.lanes.len() || self.max_lane == 0
        &&& 2 * (self.lanes.len() + room + 1) <= usize::MAX
    }
}

pub proof fn lemma_widest(start: usize, lanes: Seq<usize>)
    ensures
        start <= widest(start, lanes),
        forall|i: int| 0 <= i < lanes.len() ==> #[trigger] lanes[i] <= widest(start, lanes),
        widest(start, lanes) == start || exists|i: int|
            0 <= i < lanes.len() && #[trigger] lanes[i] == widest(start, lanes),
    decreases lanes.len(),
{
    if lanes.len() > 0 {
        let rest = lanes.drop_last();
        lemma_widest(start, rest);
        assert forall|i: int| 0 <= i < lanes.len() implies #[trigger] lanes[i] <= widest(
            start,
            lanes,
        ) by {
            if i < rest.len() {
                assert(rest[i] <= widest(start, rest));
            }
        }
        if widest(start, lanes) != start {
            if lanes.last() > widest(start, rest) {
                assert(lanes[lanes.len() - 1] == widest(start, lanes));
            } else {
                let i = choose|i: int|
                    0 <= i < rest.len() && #[trigger] rest[i] == widest(start, rest);
                assert(lanes[i] == widest(start, lanes));
            }
        }
    }
}

pub proof fn lemma_merging(w: Walk, oid: Oid, main: usize, n: nat)
    requires
        n <= w.lanes.len() <= usize::MAX,
    ensures
        forall|i: int|
            0 <= i < w.merging(oid, main, n).len() ==> (#[trigger] w.merging(oid, main, n)[i]).0
                < n,
        w.merging(oid, main, n).len() == 0 <==> forall|l: int|
            0 <= l < n && l != main ==> w.lanes[l] != Some(oid),
    decreases n,
{
    if n > 0 {
        lemma_merging(w, oid, main, (n - 1) as nat);
        let rest = w.merging(oid, main, (n - 1) as nat);
        let m = w.merging(oid, main, n);
        assert forall|i: int| 0 <= i < m.len() implies (#[trigger] m[i]).0 < n by {
            if i < rest.len() {
                assert(m[i] == rest[i]);
            }
        }
        if m.len() != 0 && rest.len() != 0 {
            assert(exists|l: int| 0 <= l < n - 1 && l != main && w.lanes[l] == Some(oid));
        }
    }
}

/// The larger of `start` and the lanes of the pairs.
fn widest_pair(start: usize, pairs: &[(usize, usize)]) -> (max: usize)
    ensures
        max == widest(start, pairs@.map_values(|p: (usize, usize)| p.0)),
{
    let ghost lanes = pairs@.map_values(|p: (usize, usize)| p.0);
    let mut max: usize = start;
    let mut i: usize = 0;
    while i < pairs.len()
        invariant
            0 <= i <= pairs.len(),
            lanes == pairs@.map_values(|p: (usize, usize)| p.0),
            max == widest(start, lanes.take(i as int)),
        decreases pairs.len() - i,
    {
        assert(lanes.take(i + 1).drop_last() =~= lanes.take(i as int));
        if pairs[i].0 > max {
            max = pairs[i].0;
        }
        i = i + 1;
    }
    assert(lanes.take(i as int) =~= lanes);
    max
}

/// The larger of `start` and the lanes of the links.
fn widest_link(start: usize, links: &[ParentLink]) -> (max: usize)
    ensures
        max == widest(start, links@.map_values(|l: ParentLink| l.lane)),
{
    let ghost lanes = links@.map_values(|l: ParentLink| l.lane);
    let mut max: usize = start;
    let mut i: usize = 0;
    while i < links.len()
        invariant
            0 <= i <= links.len(),
            lanes == links@.map_values(|l: ParentLink| l.lane),
            max == widest(start, lanes.take(i as int)),
        decreases links.len() - i,
    {
        assert(lanes.take(i + 1).drop_last() =~= lanes.take(i as int));
        if links[i].lane > max {
            max = links[i].lane;
        }
        i = i + 1;
    }
    assert(lanes.take(i as int) =~= lanes);
    max
}

impl WalkState {
    /// Join every other lane that awaits `oid` into `main` by a connector row.
    fn join_fork(&mut self, oid: Oid, main: usize)
        requires
            old(self)@.fits(0),
            main < old(self)@.lanes.len(),
        ensures
            final(self)@ == old(self)@.joined(oid, main),
            final(self)@.fits(0),
            final(self)@.lanes.len() == old(self)@.lanes.len(),
            final(self)@.colors.row == old(self)@.colors.row,
    {
        broadcast use vstd::std_specs::hash::group_hash_axioms;

        let ghost w = self@;
        let mut merging: Vec<(usize, usize)> = Vec::new();
        let mut i: usize = 0;
        while i < self.lanes.len()
            invariant
                0 <= i <= self.lanes.len(),
                self@ == w,
                merging@ == w.merging(oid, main, i as nat),
            decreases self.lanes.len() - i,
        {
            if self.lanes[i] == Some(oid) && i != main {
                let color: usize = cells::lane_color_of(
                    &self.lane_colors,
                    &self.oid_colors,
                    i,
                    oid,
                );
                merging.push((i, color));
            }
            i = i + 1;
        }
        proof {
            lemma_merging(w, oid, main, w.lanes.len());
        }
        if merging.len() == 0 {
            return;
        }
        let ghost m = merging@;
        let ghost lanes_of = m.map_values(|p: (usize, usize)| p.0);
        let max_pairs: usize = widest_pair(self.max_lane, merging.as_slice());
        let max: usize = if main > max_pairs {
            main
        } else {
            max_pairs
        };
        proof {
            assert(lanes_of.push(main).drop_last() =~= lanes_of);
            lemma_widest(w.max_lane, lanes_of);
            assert(max == widest(w.max_lane, lanes_of.push(main)));
            assert forall|k: int| 0 <= k < m.len() implies (#[trigger] m[k]).0 <= max by {
                assert(lanes_of[k] <= widest(w.max_lane, lanes_of));
            }
            if max != w.max_lane && max != main {
                let k = choose|k: int|
                    0 <= k < lanes_of.len() && #[trigger] lanes_of[k] == widest(
                        w.max_lane,
                        lanes_of,
                    );
                assert(m[k].0 == max);
            }
            assert(max < w.lanes.len());
        }
        let color: usize = cells::lane_color_of(&self.lane_colors, &self.oid_colors, main, oid);
        let (row_cells, row_oids) = cells::build_fork_connector_cells(
            main,
            color,
            oid,
            merging.as_slice(),
            self.lanes.as_slice(),
            self.children.as_slice(),
            &self.oid_colors,
            &self.lane_colors,
            max,
        );
        let node = GraphNode {
            commit: None,
            lane: main,
            color_index: color,
            branch_names: Vec::new(),
            tag_names: Vec::new(),
            is_head: false,
            is_uncommitted: false,
            is_stash: false,
            stash_label: None,
            uncommitted_count: None,
            cells: row_cells,
            cell_oids: row_oids,
        };
        let ghost joined = w.joined(oid, main);
        proof {
            let f = |k: int| cells::fork_cell(w.view(), main, color, oid, m, m.len(), k);
            let c0 = Seq::new((2 * (max + 1)) as nat, |k: int| f(k).0);
            let c1 = Seq::new((2 * (max + 1)) as nat, |k: int| f(k).1);
            assert forall|k: int| 0 <= k < 2 * (max + 1) implies row_cells@[k] == c0[k]
                && row_oids@[k] == c1[k] by {
                assert((row_cells@[k], row_oids@[k]) == f(k));
            }
            assert(row_cells@ =~= c0);
            assert(row_oids@ =~= c1);
            assert(node@ =~= bare_node(main, color, c0, c1));
            assert(text::texts(Seq::<String>::empty()) =~= Seq::<Seq<char>>::empty());
        }
        self.nodes.push(node);
        assert(graph::nodes_view(self.nodes@) =~= w.nodes.push(node@));
        self.max_lane = max;
        let ghost gone = w.ending(oid, main);
        let mut l: usize = 0;
        assert(self@.lane_colors =~= w.lane_colors.remove_keys(
            gone.intersect(Set::new(|x: usize| x < 0)),
        ));
        assert(self@.colors.lanes =~= w.colors.lanes.remove_keys(
            gone.intersect(Set::new(|x: usize| x < 0)),
        ));
        while l < self.lanes.len()
            invariant
                0 <= l <= self.lanes.len(),
                w.fits(0),
                main < w.lanes.len(),
                gone == w.ending(oid, main),
                self@.nodes == joined.nodes,
                self@.max_lane == max,
                max < w.lanes.len(),
                self@.oid_colors == w.oid_colors,
                self@.main_assigned == w.main_assigned,
                self@.colors.wf(),
                self@.lanes.len() == w.lanes.len(),
                self@.children.len() == w.lanes.len(),
                forall|k: int|
                    0 <= k < w.lanes.len() ==> #[trigger] self@.lanes[k] == (if k < l
                        && gone.contains(k as usize) {
                        None
                    } else {
                        w.lanes[k]
                    }),
                forall|k: int|
                    0 <= k < w.lanes.len() ==> #[trigger] self@.children[k] == (if k < l
                        && gone.contains(k as usize) {
                        None
                    } else {
                        w.children[k]
                    }),
                self@.lane_colors == w.lane_colors.remove_keys(
                    gone.intersect(Set::new(|x: usize| x < l)),
                ),
                self@.colors == (ColorState {
                    lanes: w.colors.lanes.remove_keys(gone.intersect(Set::new(|x: usize| x < l))),
                    ..w.colors
                }),
            decreases self.lanes.len() - l,
        {
            let ghost done = gone.intersect(Set::new(|x: usize| x < l));
            let ghost next = gone.intersect(Set::new(|x: usize| x < l + 1));
            assert(self@.lanes[l as int] == w.lanes[l as int]);
            if self.lanes[l] == Some(oid) && l != main {
                self.lanes.set(l, None);
                self.children.set(l, None);
                self.colors.release_lane(l);
                self.lane_colors.remove(&l);
                proof {
                    assert(gone.contains(l));
                    assert(next =~= done.insert(l));
                    assert(w.lane_colors.remove_keys(done).remove(l)
                        =~= w.lane_colors.remove_keys(next));
                    assert(w.colors.lanes.remove_keys(done).remove(l)
                        =~= w.colors.lanes.remove_keys(next));
                }
            } else {
                assert(!gone.contains(l));
                assert(next =~= done);
            }
            l = l + 1;
        }
        proof {
            assert(gone.intersect(Set::new(|x: usize| x < l)) =~= gone);
            assert(self@.lanes =~= joined.lanes);
            assert(self@.children =~= joined.children);
        }
    }
}

impl WalkState {
    /// Before the first row.
    fn start(st: &Stage) -> (w: WalkState)
        requires
            st.ok(),
        ensures
            w@ == Walk::start(st.scene()),
            w@.colors.wf(),
    {
        broadcast use vstd::std_specs::hash::group_hash_axioms;

        let mut lanes: Vec<Option<Oid>> = Vec::new();
        let mut children: Vec<Option<Oid>> = Vec::new();
        let mut colors = ColorAssigner::new();
        if st.reserved {
            lanes.push(None);
            children.push(None);
            assert(!colors@.reserving(MAIN_BRANCH_COLOR).reserved[1]);
            colors.reserve_color(MAIN_BRANCH_COLOR);
        }
        let w = WalkState {
            lanes,
            children,
            oid_colors: OidMap::new(),
            lane_colors: HashMap::new(),
            colors,
            main_assigned: false,
            max_lane: 0,
            nodes: Vec::new(),
        };
        assert(w@ =~= Walk::start(st.scene()));
        w
    }

    /// Seat, join and colour the commit in `row`.
    fn prepare(&mut self, st: &Stage, row: usize) -> (seat: (usize, usize))
        requires
            st.ok(),
            row < st.commits@.len(),
            old(self)@.fits(1),
            old(self)@.colors.row < usize::MAX,
        ensures
            (final(self)@, seat.0, seat.1) == old(self)@.prepared(st.scene(), row as int),
            final(self)@.fits(0),
            seat.0 < final(self)@.lanes.len() <= old(self)@.lanes.len() + 1,
            final(self)@.lanes[seat.0 as int] is None,
            final(self)@.colors.row == old(self)@.colors.row + 1,
    {
        broadcast use vstd::std_specs::hash::group_hash_axioms;

        let ghost sc = st.scene();
        let oid = st.commits[row].oid;
        assert(sc.cs[row as int] == st.commits@[row as int]@);
        self.colors.advance_row();
        let ghost w = self@;
        assert(w =~= Walk { colors: old(self)@.colors.next_row(), ..old(self)@ });
        let found = find_awaiting(self.lanes.as_slice(), oid);
        let lane: usize = match found {
            Some(l) => l,
            None => {
                let zero_ok = st.line.contains(&oid) || !st.reserved;
                open_lane(&mut self.lanes, &mut self.children, zero_ok)
            },
        };
        assert(self@ =~= w.seated(lane));
        let going_on = found.is_some();
        self.join_fork(oid, lane);
        let ghost j = self@;
        let claims = lane == 0 && !self.main_assigned && (st.reserved || self.nodes.len() == 0);
        assert(claims == j.claims_main(sc, lane));
        let color: usize = if claims {
            self.main_assigned = true;
            self.colors.assign_main_color(lane)
        } else if going_on {
            self.colors.continue_lane(lane)
        } else {
            self.colors.assign_color(lane)
        };
        self.oid_colors.insert(oid, color);
        self.lane_colors.insert(lane, color);
        self.lanes.set(lane, None);
        self.children.set(lane, None);
        assert(self@ =~= j.colored(sc, oid, lane, going_on));
        (lane, color)
    }

    /// Make `lane` await `parent` on behalf of `child`.
    fn aim(&mut self, lane: usize, parent: Oid, child: Oid)
        requires
            old(self)@.lanes.len() == old(self)@.children.len(),
            lane < old(self)@.lanes.len(),
        ensures
            final(self)@ == old(self)@.toward(lane, parent, child),
    {
        self.lanes.set(lane, Some(parent));
        self.children.set(lane, Some(child));
        assert(self@ =~= old(self)@.toward(lane, parent, child));
    }

    /// Connect the `i`th loaded parent of the commit in `row`.
    fn place_parent(
        &mut self,
        st: &Stage,
        row: usize,
        lane: usize,
        color: usize,
        i: usize,
        parent: Oid,
        links: &mut Vec<ParentLink>,
        sibling: Option<usize>,
    ) -> (next_sibling: Option<usize>)
        requires
            st.ok(),
            row < st.commits@.len(),
            old(self)@.fits(1),
            lane < old(self)@.lanes.len(),
            line::loaded(st.scene().cs, parent),
        ensures
            (Placing { walk: final(self)@, links: final(links)@, sibling: next_sibling }) == place(
                st.scene(),
                row as int,
                st.scene().cs[row as int].oid,
                lane,
                color,
                Placing { walk: old(self)@, links: old(links)@, sibling },
                i as int,
                parent,
            ),
            final(self)@.fits(0),
            old(self)@.lanes.len() <= final(self)@.lanes.len() <= old(self)@.lanes.len() + 1,
            final(links)@.len() == old(links)@.len() + 1,
            final(links)@.last().lane < final(self)@.lanes.len(),
            final(self)@.colors.row == old(self)@.colors.row,
            final(self)@.max_lane == old(self)@.max_lane,
    {
        broadcast use vstd::std_specs::hash::group_hash_axioms;

        let ghost sc = st.scene();
        let ghost w = self@;
        let oid = st.commits[row].oid;
        assert(sc.cs[row as int] == st.commits@[row as int]@);
        let shown = match st.rows.get(&parent) {
            Some(r) => r < row,
            None => false,
        };
        assert(shown == sc.shown(parent, row as int));
        match find_awaiting(self.lanes.as_slice(), parent) {
            Some(pl) => {
                if i == 0 && is_fork_point(st.commits, parent) {
                    self.aim(lane, parent, oid);
                    let c: usize = if self.colors.is_main_lane(lane) {
                        self.colors.get_main_color()
                    } else {
                        color
                    };
                    self.lane_colors.insert(lane, c);
                    links.push(ParentLink { oid: parent, lane, existing: false, color: c, shown });
                    assert(self@ =~= Walk {
                        lane_colors: w.lane_colors.insert(lane, c),
                        ..w.toward(lane, parent, oid)
                    });
                    Some(c)
                } else {
                    let c: usize = cells::lane_color_of(
                        &self.lane_colors,
                        &self.oid_colors,
                        pl,
                        parent,
                    );
                    links.push(
                        ParentLink { oid: parent, lane: pl, existing: true, color: c, shown },
                    );
                    sibling
                }
            },
            None => {
                if i == 0 {
                    self.aim(lane, parent, oid);
                    self.oid_colors.insert(parent, color);
                    links.push(ParentLink { oid: parent, lane, existing: false, color, shown });
                    assert(self@ =~= Walk {
                        oid_colors: w.oid_colors.insert(parent, color),
                        ..w.toward(lane, parent, oid)
                    });
                } else {
                    let zero_ok = st.line.contains(&parent) || !st.reserved;
                    let nl: usize = open_lane(&mut self.lanes, &mut self.children, zero_ok);
                    let ghost g = self@;
                    self.aim(nl, parent, oid);
                    assert(self@ =~= w.toward(nl, parent, oid));
                    let c: usize = self.colors.assign_fork_sibling_color(nl);
                    self.oid_colors.insert(parent, c);
                    self.lane_colors.insert(nl, c);
                    links.push(
                        ParentLink { oid: parent, lane: nl, existing: false, color: c, shown },
                    );
                    assert(self@ =~= Walk {
                        colors: w.colors.sibling_on(nl),
                        oid_colors: w.oid_colors.insert(parent, c),
                        lane_colors: w.lane_colors.insert(nl, c),
                        ..w.toward(nl, parent, oid)
                    });
                }
                sibling
            },
        }
    }

    /// End the higher of two lanes that a row joined, where that is due.
    fn settle(&mut self, st: &Stage, row: usize, lane: usize, links: &Vec<ParentLink>)
        requires
            st.ok(),
            row < st.commits@.len(),
            old(self)@.fits(0),
            lane < old(self)@.lanes.len(),
            forall|i: int|
                0 <= i < links@.len() ==> (#[trigger] links@[i]).lane < old(self)@.lanes.len(),
        ensures
            final(self)@ == settled(st.scene(), row as int, lane, old(self)@, links@),
            final(self)@.fits(0),
            final(self)@.lanes.len() == old(self)@.lanes.len(),
            final(self)@.colors.row == old(self)@.colors.row,
    {
        broadcast use vstd::std_specs::hash::group_hash_axioms;

        let ghost sc = st.scene();
        let ghost w = self@;
        let mut other: Option<usize> = None;
        let mut i: usize = 0;
        while i < links.len()
            invariant_except_break
                other is None,
            invariant
                0 <= i <= links.len(),
                forall|j: int|
                    0 <= j < i ==> !((#[trigger] links@[j]).existing && links@[j].lane != lane),
                forall|i: int|
                    0 <= i < links@.len() ==> (#[trigger] links@[i]).lane < w.lanes.len(),
            ensures
                other == crossed_lane(links@, lane),
                other is Some ==> other->0 < w.lanes.len() && other->0 != lane && links@.len() > 0,
            decreases links.len() - i,
        {
            if links[i].existing && links[i].lane != lane {
                other = Some(links[i].lane);
                proof {
                    assert(crosses_first(links@, lane, i as int));
                    let k = choose|k: int| crosses_first(links@, lane, k);
                    assert(crosses_first(links@, lane, k));
                    if k < i {
                        assert(!(links@[k].existing && links@[k].lane != lane));
                    } else if i < k {
                        assert(!(links@[i as int].existing && links@[i as int].lane != lane));
                    }
                }
                break;
            }
            i = i + 1;
        }
        let other = match other {
            Some(o) => o,
            None => {
                return;
            },
        };
        let (main, end): (usize, usize) = if other < lane {
            (other, lane)
        } else {
            (lane, other)
        };
        let held = self.lanes[end];
        let goes_on = match held {
            Some(h) => match st.rows.get(&h) {
                Some(r) => r >= row,
                None => false,
            },
            None => false,
        };
        if links[0].lane == end || goes_on {
            return;
        }
        if held.is_some() && self.lanes[main].is_none() {
            self.lanes.set(main, held);
            let child = self.children[end];
            self.children.set(main, child);
        }
        self.lanes.set(end, None);
        self.children.set(end, None);
        self.colors.release_lane(end);
        self.lane_colors.remove(&end);
        assert(self@.lane_colors =~= w.lane_colors.remove(end));
        assert(self@ =~= settled(sc, row as int, lane, w, links@));
    }
}

/// How many lanes the first `n` commits can need: one for each commit and each
/// of its parents, and lane 0.
pub open spec fn lane_budget(cs: Seq<CommitView>, n: nat) -> nat
    decreases n,
{
    if n == 0 {
        1
    } else {
        lane_budget(cs, (n - 1) as nat) + 1 + cs[n - 1].parents.len()
    }
}

proof fn lemma_lane_budget(cs: Seq<CommitView>, n: nat, m: nat)
    requires
        n <= m,
    ensures
        lane_budget(cs, n) <= lane_budget(cs, m),
    decreases m - n,
{
    if n < m {
        lemma_lane_budget(cs, n, (m - 1) as nat);
    }
}

/// The loaded ones among the parents of the commit in `row`.
fn loaded_parents(st: &Stage, row: usize) -> (valid: Vec<Oid>)
    requires
        st.ok(),
        row < st.commits@.len(),
    ensures
        valid@ == st.scene().parents(row as int),
        valid@.len() <= st.scene().cs[row as int].parents.len(),
        forall|i: int|
            0 <= i < valid@.len() ==> line::loaded(st.scene().cs, #[trigger] valid@[i]),
{
    let ghost sc = st.scene();
    let parents = &st.commits[row].parent_oids;
    assert(sc.cs[row as int] == st.commits@[row as int]@);
    let ghost keep = |p: Oid| line::loaded(sc.cs, p);
    let mut valid: Vec<Oid> = Vec::new();
    let mut i: usize = 0;
    reveal(Seq::filter);
    assert(parents@.take(0).filter(keep) =~= Seq::empty());
    while i < parents.len()
        invariant
            0 <= i <= parents.len(),
            st.ok(),
            sc == st.scene(),
            keep == (|p: Oid| line::loaded(sc.cs, p)),
            valid@ == parents@.take(i as int).filter(keep),
            valid@.len() <= i,
            forall|k: int| 0 <= k < valid@.len() ==> line::loaded(sc.cs, #[trigger] valid@[k]),
        decreases parents.len() - i,
    {
        reveal(Seq::filter);
        let p = parents[i];
        proof {
            line::lemma_rows(sc.cs, p);
            assert(parents@.take(i + 1).drop_last() =~= parents@.take(i as int));
            assert(parents@.take(i + 1).last() == p);
        }
        if st.rows.contains_key(&p) {
            valid.push(p);
        }
        i = i + 1;
    }
    assert(parents@.take(i as int) =~= parents@);
    valid
}

impl WalkState {
    /// Connect the loaded parents of the commit in `row`.
    fn connect(
        &mut self,
        st: &Stage,
        row: usize,
        lane: usize,
        color: usize,
        parents: &Vec<Oid>,
    ) -> (placing: (Vec<ParentLink>, Option<usize>))
        requires
            st.ok(),
            row < st.commits@.len(),
            old(self)@.fits(parents@.len() as int),
            lane < old(self)@.lanes.len(),
            forall|k: int|
                0 <= k < parents@.len() ==> line::loaded(st.scene().cs, #[trigger] parents@[k]),
        ensures
            (Placing { walk: final(self)@, links: placing.0@, sibling: placing.1 }) == placed(
                st.scene(),
                row as int,
                st.scene().cs[row as int].oid,
                lane,
                color,
                old(self)@,
                parents@,
                parents@.len(),
            ),
            final(self)@.fits(0),
            old(self)@.lanes.len() <= final(self)@.lanes.len() <= old(self)@.lanes.len()
                + parents@.len(),
            forall|k: int|
                0 <= k < placing.0@.len() ==> (#[trigger] placing.0@[k]).lane
                    < final(self)@.lanes.len(),
            final(self)@.colors.row == old(self)@.colors.row,
    {
        let ghost sc = st.scene();
        let ghost begun = self@;
        let mut links: Vec<ParentLink> = Vec::new();
        let mut sibling: Option<usize> = None;
        let mut i: usize = 0;
        while i < parents.len()
            invariant
                0 <= i <= parents.len(),
                st.ok(),
                sc == st.scene(),
                row < st.commits@.len(),
                forall|k: int|
                    0 <= k < parents@.len() ==> line::loaded(sc.cs, #[trigger] parents@[k]),
                self@.fits(parents@.len() - i),
                lane < self@.lanes.len(),
                begun.lanes.len() <= self@.lanes.len() <= begun.lanes.len() + i,
                begun.fits(parents@.len() as int),
                self@.colors.row == begun.colors.row,
                self@.max_lane == begun.max_lane,
                links@.len() == i,
                forall|k: int|
                    0 <= k < links@.len() ==> (#[trigger] links@[k]).lane < self@.lanes.len(),
                (Placing { walk: self@, links: links@, sibling }) == placed(
                    sc,
                    row as int,
                    sc.cs[row as int].oid,
                    lane,
                    color,
                    begun,
                    parents@,
                    i as nat,
                ),
            decreases parents.len() - i,
        {
            let ghost links0 = links@;
            sibling =
            self.place_parent(st, row, lane, color, i, parents[i], &mut links, sibling);
            assert forall|k: int| 0 <= k < links@.len() implies (#[trigger] links@[k]).lane
                < self@.lanes.len() by {
                if k < links0.len() {
                    assert(links@[k] == links0[k]);
                }
            }
            i = i + 1;
        }
        (links, sibling)
    }

    /// The row of the commit in `row`.
    fn commit_row(
        &self,
        st: &Stage,
        row: usize,
        lane: usize,
        color: usize,
        links: &Vec<ParentLink>,
        sibling: Option<usize>,
    ) -> (node: GraphNode)
        requires
            st.ok(),
            row < st.commits@.len(),
            2 * (self@.max_lane + 1) <= usize::MAX,
            lane <= self@.max_lane,
            forall|k: int|
                0 <= k < links@.len() ==> (#[trigger] links@[k]).lane <= self@.max_lane,
        ensures
            node@ == commit_node(
                st.scene(),
                row as int,
                lane,
                color,
                Placing { walk: self@, links: links@, sibling },
            ),
    {
        let ghost sc = st.scene();
        let commit = &st.commits[row];
        assert(sc.cs[row as int] == commit@);
        let shade: usize = match sibling {
            Some(c) => c,
            None => color,
        };
        let max: usize = self.max_lane;
        let (row_cells, row_oids) = cells::build_row_cells_with_colors(
            lane,
            shade,
            commit.oid,
            links.as_slice(),
            self.lanes.as_slice(),
            self.children.as_slice(),
            &self.oid_colors,
            &self.lane_colors,
            max,
        );
        let label = stash_label_at(st.stashes, commit.oid);
        let node = GraphNode {
            commit: Some(commit.clone()),
            lane,
            color_index: shade,
            branch_names: branch_names_at(st.branches, commit.oid),
            tag_names: tag_names_at(st.tags, commit.oid),
            is_head: st.head == Some(commit.oid),
            is_uncommitted: false,
            is_stash: label.is_some(),
            stash_label: label,
            uncommitted_count: None,
            cells: row_cells,
            cell_oids: row_oids,
        };
        proof {
            let p = Placing { walk: self@, links: links@, sibling };
            let f = |k: int|
                cells::row_cell(self@.view(), lane, shade, commit@.oid, links@, links@.len(), k);
            let c0 = Seq::new((2 * (max + 1)) as nat, |k: int| f(k).0);
            let c1 = Seq::new((2 * (max + 1)) as nat, |k: int| f(k).1);
            assert forall|k: int| 0 <= k < 2 * (max + 1) implies row_cells@[k] == c0[k]
                && row_oids@[k] == c1[k] by {
                assert((row_cells@[k], row_oids@[k]) == f(k));
            }
            assert(row_cells@ =~= c0);
            assert(row_oids@ =~= c1);
            assert(node@ =~= commit_node(sc, row as int, lane, color, p));
        }
        node
    }

    /// Widen the graph to the lane of a row and the lanes of its links.
    fn widen(&mut self, lane: usize, links: &Vec<ParentLink>)
        requires
            old(self)@.fits(0),
            lane < old(self)@.lanes.len(),
            forall|k: int|
                0 <= k < links@.len() ==> (#[trigger] links@[k]).lane < old(self)@.lanes.len(),
        ensures
            final(self)@ == (Walk {
                max_lane: widest(
                    if lane > old(self)@.max_lane {
                        lane
                    } else {
                        old(self)@.max_lane
                    },
                    links@.map_values(|l: ParentLink| l.lane),
                ),
                ..old(self)@
            }),
            final(self)@.fits(0),
            lane <= final(self)@.max_lane < final(self)@.lanes.len(),
            forall|k: int|
                0 <= k < links@.len() ==> (#[trigger] links@[k]).lane <= final(self)@.max_lane,
    {
        let base: usize = if lane > self.max_lane {
            lane
        } else {
            self.max_lane
        };
        let max: usize = widest_link(base, links.as_slice());
        self.max_lane = max;
        proof {
            let lanes_of = links@.map_values(|l: ParentLink| l.lane);
            lemma_widest(base, lanes_of);
            assert forall|k: int| 0 <= k < links@.len() implies (#[trigger] links@[k]).lane
                <= max by {
                assert(lanes_of[k] <= max);
            }
            if max != base {
                let k = choose|k: int| 0 <= k < lanes_of.len() && #[trigger] lanes_of[k] == max;
                assert(links@[k].lane == max);
            }
        }
    }

    /// Lay out the commit in `row`.
    fn step(&mut self, st: &Stage, row: usize)
        requires
            st.ok(),
            row < st.commits@.len(),
            old(self)@.fits(1 + st.scene().cs[row as int].parents.len() as int),
            old(self)@.colors.row < usize::MAX,
        ensures
            final(self)@ == old(self)@.step(st.scene(), row as int),
            final(self)@.fits(0),
            final(self)@.lanes.len() <= old(self)@.lanes.len() + 1
                + st.scene().cs[row as int].parents.len(),
            final(self)@.colors.row == old(self)@.colors.row + 1,
    {
        let ghost sc = st.scene();
        let ghost before = self@;
        let (lane, color) = self.prepare(st, row);
        let ghost w = self@;
        let parents = loaded_parents(st, row);
        if parents.len() >= 2 {
            self.colors.begin_fork();
        }
        assert(self@ =~= (if sc.parents(row as int).len() >= 2 {
            Walk { colors: w.colors.forking(), ..w }
        } else {
            w
        }));
        let (links, sibling) = self.connect(st, row, lane, color, &parents);
        self.widen(lane, &links);
        let ghost p = Placing { walk: self@, links: links@, sibling };
        assert(p == before.connected(sc, row as int));
        let node = self.commit_row(st, row, lane, color, &links, sibling);
        self.settle(st, row, lane, &links);
        let ghost nodes0 = self@.nodes;
        assert(nodes0 == p.walk.nodes);
        self.nodes.push(node);
        assert(graph::nodes_view(self.nodes@) =~= nodes0.push(node@));
        assert(self@ =~= before.step(sc, row as int));
    }

    /// Lay out every commit.
    pub fn run(st: &Stage) -> (done: (Vec<GraphNode>, usize))
        requires
            st.ok(),
            2 * (lane_budget(st.scene().cs, st.scene().cs.len()) + 1) <= usize::MAX,
        ensures
            graph::nodes_view(done.0@) == Walk::after(st.scene(), st.scene().cs.len()).nodes,
            done.1 == Walk::after(st.scene(), st.scene().cs.len()).max_lane,
            2 * (done.1 + 1) <= usize::MAX,
            done.1 <= lane_budget(st.scene().cs, st.scene().cs.len()),
    {
        let ghost sc = st.scene();
        let mut w = WalkState::start(st);
        let mut row: usize = 0;
        while row < st.commits.len()
            invariant
                0 <= row <= st.commits.len(),
                st.ok(),
                sc == st.scene(),
                2 * (lane_budget(sc.cs, sc.cs.len()) + 1) <= usize::MAX,
                w@ == Walk::after(sc, row as nat),
                w@.fits(0),
                w@.lanes.len() <= lane_budget(sc.cs, row as nat),
                w@.colors.row == row,
            decreases st.commits.len() - row,
        {
            proof {
                lemma_lane_budget(sc.cs, (row + 1) as nat, sc.cs.len());
            }
            w.step(st, row);
            row = row + 1;
        }
        (w.nodes, w.max_lane)
    }
}

/// Every row lies within the graph's width, and carries an edge slot for each
/// of its cells.
pub open spec fn shapely(nodes: Seq<NodeView>, max_lane: usize) -> bool {
    forall|i: int|
        0 <= i < nodes.len() ==> (#[trigger] nodes[i]).lane <= max_lane && nodes[i].cells.len()
            == nodes[i].cell_oids.len() && nodes[i].cells.len() <= 2 * (max_lane + 1)
}

pub proof fn lemma_placed_frame(
    sc: Scene,
    row: int,
    oid: Oid,
    lane: usize,
    color: usize,
    w: Walk,
    parents: Seq<Oid>,
    n: nat,
)
    ensures
        placed(sc, row, oid, lane, color, w, parents, n).walk.nodes == w.nodes,
        placed(sc, row, oid, lane, color, w, parents, n).walk.max_lane == w.max_lane,
        placed(sc, row, oid, lane, color, w, parents, n).walk.main_assigned == w.main_assigned,
    decreases n,
{
    if n > 0 {
        lemma_placed_frame(sc, row, oid, lane, color, w, parents, (n - 1) as nat);
    }
}

proof fn lemma_joined_shapely(w: Walk, oid: Oid, main: usize)
    requires
        shapely(w.nodes, w.max_lane),
    ensures
        shapely(w.joined(oid, main).nodes, w.joined(oid, main).max_lane),
        w.joined(oid, main).max_lane >= w.max_lane,
{
    let m = w.merging(oid, main, w.lanes.len());
    let j = w.joined(oid, main);
    if m.len() > 0 {
        let lanes_of = m.map_values(|p: (usize, usize)| p.0).push(main);
        lemma_widest(w.max_lane, lanes_of);
        assert(lanes_of[lanes_of.len() - 1] == main);
        assert forall|i: int| 0 <= i < j.nodes.len() implies (#[trigger] j.nodes[i]).lane
            <= j.max_lane && j.nodes[i].cells.len() == j.nodes[i].cell_oids.len()
            && j.nodes[i].cells.len() <= 2 * (j.max_lane + 1) by {
            if i < w.nodes.len() {
                assert(j.nodes[i] == w.nodes[i]);
            }
        }
    }
}

pub proof fn lemma_step_shapely(sc: Scene, w: Walk, row: int)
    requires
        shapely(w.nodes, w.max_lane),
    ensures
        shapely(w.step(sc, row).nodes, w.step(sc, row).max_lane),
{
    let oid = sc.cs[row].oid;
    let next = Walk { colors: w.colors.next_row(), ..w };
    let lane = next.seat(sc, oid);
    lemma_joined_shapely(next.seated(lane), oid, lane);
    let (pre, l, color) = w.prepared(sc, row);
    let parents = sc.parents(row);
    let start = if parents.len() >= 2 {
        Walk { colors: pre.colors.forking(), ..pre }
    } else {
        pre
    };
    lemma_placed_frame(sc, row, oid, l, color, start, parents, parents.len());
    let p = w.connected(sc, row);
    let base = if l > pre.max_lane {
        l
    } else {
        pre.max_lane
    };
    lemma_widest(base, p.links.map_values(|l: ParentLink| l.lane));
    let s = w.step(sc, row);
    assert(s.max_lane == p.walk.max_lane);
    assert(p.walk.max_lane >= pre.max_lane);
    assert forall|i: int| 0 <= i < s.nodes.len() implies (#[trigger] s.nodes[i]).lane <= s.max_lane
        && s.nodes[i].cells.len() == s.nodes[i].cell_oids.len() && s.nodes[i].cells.len() <= 2 * (
    s.max_lane + 1) by {
        if i < pre.nodes.len() {
            assert(s.nodes[i] == pre.nodes[i]);
        }
    }
}

pub proof fn lemma_after_shapely(sc: Scene, n: nat)
    ensures
        shapely(Walk::after(sc, n).nodes, Walk::after(sc, n).max_lane),
    decreases n,
{
    if n > 0 {
        lemma_after_shapely(sc, (n - 1) as nat);
        lemma_step_shapely(sc, Walk::after(sc, (n - 1) as nat), n - 1);
    }
}

} // verus!
