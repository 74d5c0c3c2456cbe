//! Lane colours.
//!
//! A colour is an index into the palette. The line on lane 0 owns
//! [`MAIN_BRANCH_COLOR`]; every other lane takes the colour that has rested
//! longest, so neighbouring lines rarely share one.
use std::collections::HashMap;
use vstd::prelude::*;

verus! {

/// How many colours lanes are drawn from.
pub const PALETTE_LEN: usize = 8;

/// The colour of the line anchored at lane 0.
pub const MAIN_BRANCH_COLOR: usize = 0;

/// The grey of the uncommitted-changes node and its connector.
pub const UNCOMMITTED_COLOR_INDEX: usize = 1000;

/// The muted grey of squash-merge link lines.
pub const SQUASH_LINK_COLOR_INDEX: usize = 1001;

/// What a [`ColorAssigner`] remembers.
pub struct ColorState {
    /// The colour each lane is drawn in.
    pub lanes: Map<usize, usize>,
    /// Which colours may no longer be handed out.
    pub reserved: Seq<bool>,
    /// The row in which each colour was last handed out or continued.
    pub last_used: Seq<usize>,
    /// Which colours the current fork has handed out.
    pub fork_used: Seq<bool>,
    /// The lane of the main line.
    pub main_lane: Option<usize>,
    /// The current row, counted from one.
    pub row: usize,
}

impl ColorState {
    /// The state before any row.
    pub open spec fn initial() -> ColorState {
        ColorState {
            lanes: Map::empty(),
            reserved: Seq::new(PALETTE_LEN as nat, |i: int| false),
            last_used: Seq::new(PALETTE_LEN as nat, |i: int| 0usize),
            fork_used: Seq::new(PALETTE_LEN as nat, |i: int| false),
            main_lane: None,
            row: 0,
        }
    }

    /// Every table covers the palette, lanes hold palette colours, and some
    /// colour can still be handed out.
    pub open spec fn wf(self) -> bool {
        &&& self.reserved.len() == PALETTE_LEN
        &&& self.last_used.len() == PALETTE_LEN
        &&& self.fork_used.len() == PALETTE_LEN
        &&& forall|l: usize| #[trigger]
            self.lanes.dom().contains(l) ==> self.lanes[l] < PALETTE_LEN
        &&& self.free_besides(MAIN_BRANCH_COLOR as int)
    }

    /// Some colour other than `color` is unreserved.
    pub open spec fn free_besides(self, color: int) -> bool {
        exists|c: int| 0 <= c < PALETTE_LEN && c != color && !(#[trigger] self.reserved[c])
    }

    /// `c` may be handed out; with `fresh`, only if this fork has not used it.
    pub open spec fn eligible(self, c: int, fresh: bool) -> bool {
        &&& 0 <= c < PALETTE_LEN
        &&& !self.reserved[c]
        &&& !(fresh && self.fork_used[c])
    }

    /// `c` is the eligible colour that has rested longest, the lowest on a tie.
    pub open spec fn rested(self, c: int, fresh: bool) -> bool {
        &&& self.eligible(c, fresh)
        &&& forall|d: int| #[trigger]
            self.eligible(d, fresh) ==> self.last_used[c] < self.last_used[d] || (
            self.last_used[c] == self.last_used[d] && c <= d)
    }

    /// The colour [`rested`](Self::rested) singles out.
    pub open spec fn choice(self, fresh: bool) -> usize {
        (choose|c: int| self.rested(c, fresh)) as usize
    }

    /// `lane` drawn in `color`, which is used in this row.
    pub open spec fn using(self, lane: usize, color: usize) -> ColorState {
        ColorState {
            lanes: self.lanes.insert(lane, color),
            last_used: self.last_used.update(color as int, self.row),
            ..self
        }
    }

    /// The colour for a new line on a lane.
    pub open spec fn next_color(self) -> usize {
        self.choice(false)
    }

    /// The colour for a lane that a merge opens: one that the merge has not
    /// used yet, as long as there is one.
    pub open spec fn next_sibling_color(self) -> usize {
        if exists|c: int| self.eligible(c, true) {
            self.choice(true)
        } else {
            self.choice(false)
        }
    }

    /// The colour that a continued lane keeps.
    pub open spec fn kept_color(self, lane: usize) -> usize {
        if self.lanes.dom().contains(lane) {
            self.lanes[lane]
        } else {
            self.next_color()
        }
    }

    pub open spec fn reserving(self, color: usize) -> ColorState {
        ColorState { reserved: self.reserved.update(color as int, true), ..self }
    }

    pub open spec fn next_row(self) -> ColorState {
        ColorState { row: (self.row + 1) as usize, ..self }
    }

    pub open spec fn releasing(self, lane: usize) -> ColorState {
        ColorState { lanes: self.lanes.remove(lane), ..self }
    }

    pub open spec fn main_on(self, lane: usize) -> ColorState {
        ColorState { main_lane: Some(lane), ..self }.reserving(MAIN_BRANCH_COLOR).using(
            lane,
            MAIN_BRANCH_COLOR,
        )
    }

    pub open spec fn forking(self) -> ColorState {
        ColorState { fork_used: Seq::new(PALETTE_LEN as nat, |i: int| false), ..self }
    }

    pub open spec fn sibling_on(self, lane: usize) -> ColorState {
        let color = self.next_sibling_color();
        ColorState { fork_used: self.fork_used.update(color as int, true), ..self }.using(
            lane,
            color,
        )
    }
}

proof fn lemma_rested_unique(s: ColorState, fresh: bool, c: int)
    requires
        s.rested(c, fresh),
    ensures
        s.choice(fresh) == c,
        s.eligible(c, fresh),
        0 <= c < PALETTE_LEN,
{
    let d = choose|d: int| s.rested(d, fresh);
    assert(s.rested(d, fresh));
    assert(s.eligible(c, fresh) && s.eligible(d, fresh));
}

/// Hands out lane colours row by row.
pub struct ColorAssigner {
    lanes: HashMap<usize, usize>,
    reserved: Vec<bool>,
    last_used: Vec<usize>,
    fork_used: Vec<bool>,
    main_lane: Option<usize>,
    row: usize,
}

impl View for ColorAssigner {
    type V = ColorState;

    closed spec fn view(&self) -> ColorState {
        ColorState {
            lanes: self.lanes@,
            reserved: self.reserved@,
            last_used: self.last_used@,
            fork_used: self.fork_used@,
            main_lane: self.main_lane,
            row: self.row,
        }
    }
}

impl ColorAssigner {
    pub open spec fn wf(&self) -> bool {
        self@.wf()
    }

    /// An assigner that has handed out nothing.
    pub fn new() -> (a: ColorAssigner)
        ensures
            a.wf(),
            a@ == ColorState::initial(),
    {
        broadcast use vstd::std_specs::hash::group_hash_axioms;

        let a = ColorAssigner {
            lanes: HashMap::new(),
            reserved: vec![false; PALETTE_LEN],
            last_used: vec![0usize; PALETTE_LEN],
            fork_used: vec![false; PALETTE_LEN],
            main_lane: None,
            row: 0,
        };
        assert(a@.reserved =~= ColorState::initial().reserved);
        assert(a@.last_used =~= ColorState::initial().last_used);
        assert(a@.fork_used =~= ColorState::initial().fork_used);
        assert(a@.lanes =~= Map::<usize, usize>::empty());
        assert(!a@.reserved[1]);
        a
    }

    /// Hold `color` back from every later assignment.
    pub fn reserve_color(&mut self, color: usize)
        requires
            old(self).wf(),
            color < PALETTE_LEN,
            old(self)@.reserving(color).free_besides(MAIN_BRANCH_COLOR as int),
        ensures
            final(self).wf(),
            final(self)@ == old(self)@.reserving(color),
    {
        self.reserved.set(color, true);
    }

    /// Move on to the next row.
    pub fn advance_row(&mut self)
        requires
            old(self).wf(),
            old(self)@.row < usize::MAX,
        ensures
            final(self).wf(),
            final(self)@ == old(self)@.next_row(),
    {
        self.row = self.row + 1;
    }

    /// Forget the colour of a lane that ended.
    pub fn release_lane(&mut self, lane: usize)
        requires
            old(self).wf(),
        ensures
            final(self).wf(),
            final(self)@ == old(self)@.releasing(lane),
    {
        broadcast use vstd::std_specs::hash::group_hash_axioms;

        self.lanes.remove(&lane);
        assert(self@.lanes =~= old(self)@.lanes.remove(lane));
    }

    fn use_color(&mut self, lane: usize, color: usize)
        requires
            old(self).wf(),
            color < PALETTE_LEN,
        ensures
            final(self).wf(),
            final(self)@ == old(self)@.using(lane, color),
    {
        broadcast use vstd::std_specs::hash::group_hash_axioms;

        self.lanes.insert(lane, color);
        let row = self.row;
        self.last_used.set(color, row);
    }

    fn rested_color(&self, fresh: bool) -> (choice: Option<usize>)
        requires
            self.wf(),
        ensures
            choice is Some <==> exists|c: int| self@.eligible(c, fresh),
            choice is Some ==> choice->0 == self@.choice(fresh) && choice->0 < PALETTE_LEN,
            !fresh ==> choice is Some,
    {
        let mut best: Option<usize> = None;
        let mut i: usize = 0;
        while i < PALETTE_LEN
            invariant
                0 <= i <= PALETTE_LEN,
                self.wf(),
                best is None ==> forall|d: int| 0 <= d < i ==> !self@.eligible(d, fresh),
                best is Some ==> best->0 < i && self@.eligible(best->0 as int, fresh),
                best is Some ==> forall|d: int|
                    0 <= d < i && #[trigger] self@.eligible(d, fresh) ==> self@.last_used[best->0 as int]
                        < self@.last_used[d] || (self@.last_used[best->0 as int]
                        == self@.last_used[d] && best->0 <= d),
            decreases PALETTE_LEN - i,
        {
            if !self.reserved[i] && !(fresh && self.fork_used[i]) {
                assert(self@.eligible(i as int, fresh));
                match best {
                    Some(b) => {
                        if self.last_used[i] < self.last_used[b] {
                            best = Some(i);
                        }
                    },
                    None => {
                        best = Some(i);
                    },
                }
            }
            i = i + 1;
        }
        proof {
            match best {
                Some(b) => {
                    assert(self@.rested(b as int, fresh));
                    lemma_rested_unique(self@, fresh, b as int);
                },
                None => {
                    assert(forall|d: int| !self@.eligible(d, fresh));
                    let c = choose|c: int|
                        0 <= c < PALETTE_LEN && c != MAIN_BRANCH_COLOR && !(
                        #[trigger] self@.reserved[c]);
                    assert(!fresh ==> self@.eligible(c, fresh));
                },
            }
        }
        best
    }

    /// Put the main line on `lane`.
    pub fn assign_main_color(&mut self, lane: usize) -> (color: usize)
        requires
            old(self).wf(),
        ensures
            final(self).wf(),
            color == MAIN_BRANCH_COLOR,
            final(self)@ == old(self)@.main_on(lane),
    {
        self.main_lane = Some(lane);
        proof {
            let c = choose|c: int|
                0 <= c < PALETTE_LEN && c != MAIN_BRANCH_COLOR && !(#[trigger] self@.reserved[c]);
            assert(!self@.reserving(MAIN_BRANCH_COLOR).reserved[c]);
        }
        self.reserve_color(MAIN_BRANCH_COLOR);
        self.use_color(lane, MAIN_BRANCH_COLOR);
        MAIN_BRANCH_COLOR
    }

    /// The colour of a line that goes on down `lane`.
    pub fn continue_lane(&mut self, lane: usize) -> (color: usize)
        requires
            old(self).wf(),
        ensures
            final(self).wf(),
            color < PALETTE_LEN,
            color == old(self)@.kept_color(lane),
            final(self)@ == old(self)@.using(lane, color),
    {
        broadcast use vstd::std_specs::hash::group_hash_axioms;

        let known: Option<usize> = match self.lanes.get(&lane) {
            Some(c) => Some(*c),
            None => None,
        };
        match known {
            Some(color) => {
                self.use_color(lane, color);
                color
            },
            None => self.assign_color(lane),
        }
    }

    /// A colour for a new line on `lane`.
    pub fn assign_color(&mut self, lane: usize) -> (color: usize)
        requires
            old(self).wf(),
        ensures
            final(self).wf(),
            color < PALETTE_LEN,
            color == old(self)@.next_color(),
            final(self)@ == old(self)@.using(lane, color),
    {
        let color: usize = match self.rested_color(false) {
            Some(c) => c,
            None => 0,
        };
        self.use_color(lane, color);
        color
    }

    /// Start a merge row: its new lanes get colours that differ.
    pub fn begin_fork(&mut self)
        requires
            old(self).wf(),
        ensures
            final(self).wf(),
            final(self)@ == old(self)@.forking(),
    {
        self.fork_used = vec![false; PALETTE_LEN];
        assert(self@.fork_used =~= old(self)@.forking().fork_used);
        assert(self@.free_besides(MAIN_BRANCH_COLOR as int)) by {
            let c = choose|c: int|
                0 <= c < PALETTE_LEN && c != MAIN_BRANCH_COLOR && !(
                #[trigger] old(self)@.reserved[c]);
            assert(!self@.reserved[c]);
        }
    }

    /// Whether the main line runs on `lane`.
    pub fn is_main_lane(&self, lane: usize) -> (main: bool)
        ensures
            main == (self@.main_lane == Some(lane)),
    {
        self.main_lane == Some(lane)
    }

    /// The colour of the main line.
    pub fn get_main_color(&self) -> (color: usize)
        ensures
            color == MAIN_BRANCH_COLOR,
    {
        MAIN_BRANCH_COLOR
    }

    /// A colour for a lane that the current merge opens.
    pub fn assign_fork_sibling_color(&mut self, lane: usize) -> (color: usize)
        requires
            old(self).wf(),
        ensures
            final(self).wf(),
            color < PALETTE_LEN,
            color == old(self)@.next_sibling_color(),
            final(self)@ == old(self)@.sibling_on(lane),
    {
        let color: usize = match self.rested_color(true) {
            Some(c) => c,
            None => match self.rested_color(false) {
                Some(c) => c,
                None => 0,
            },
        };
        self.fork_used.set(color, true);
        assert(self@.free_besides(MAIN_BRANCH_COLOR as int)) by {
            let c = choose|c: int|
                0 <= c < PALETTE_LEN && c != MAIN_BRANCH_COLOR && !(
                #[trigger] old(self)@.reserved[c]);
            assert(!self@.reserved[c]);
        }
        self.use_color(lane, color);
        color
    }
}

spec fn rested_below(s: ColorState, c: int, fresh: bool, n: int) -> bool {
    &&& 0 <= c < n
    &&& s.eligible(c, fresh)
    &&& forall|d: int|
        0 <= d < n && #[trigger] s.eligible(d, fresh) ==> s.last_used[c] < s.last_used[d] || (
        s.last_used[c] == s.last_used[d] && c <= d)
}

proof fn lemma_choice_exists(s: ColorState, fresh: bool, n: int, e: int) -> (c: int)
    requires
        0 <= e < n <= PALETTE_LEN,
        s.eligible(e, fresh),
    ensures
        rested_below(s, c, fresh, n),
    decreases n,
{
    if e < n - 1 {
        let c = lemma_choice_exists(s, fresh, n - 1, e);
        if s.eligible(n - 1, fresh) && s.last_used[n - 1] < s.last_used[c] {
            n - 1
        } else {
            c
        }
    } else if exists|d: int| 0 <= d < n - 1 && #[trigger] s.eligible(d, fresh) {
        let d = choose|d: int| 0 <= d < n - 1 && #[trigger] s.eligible(d, fresh);
        let c = lemma_choice_exists(s, fresh, n - 1, d);
        if s.last_used[n - 1] < s.last_used[c] {
            n - 1
        } else {
            c
        }
    } else {
        e
    }
}

proof fn lemma_choice(s: ColorState, fresh: bool, e: int)
    requires
        s.eligible(e, fresh),
    ensures
        0 <= s.choice(fresh) < PALETTE_LEN,
        s.eligible(s.choice(fresh) as int, fresh),
{
    let c = lemma_choice_exists(s, fresh, PALETTE_LEN as int, e);
    assert(s.rested(c, fresh));
    lemma_rested_unique(s, fresh, c);
}

/// The colour of a new line is never a reserved one, so only the main line
/// wears [`MAIN_BRANCH_COLOR`] once that is reserved.
pub proof fn law_new_lines_avoid_reserved_colors(s: ColorState)
    requires
        s.wf(),
    ensures
        s.next_color() < PALETTE_LEN,
        !s.reserved[s.next_color() as int],
        s.next_sibling_color() < PALETTE_LEN,
        !s.reserved[s.next_sibling_color() as int],
{
    let c = choose|c: int|
        0 <= c < PALETTE_LEN && c != MAIN_BRANCH_COLOR && !(#[trigger] s.reserved[c]);
    lemma_choice(s, false, c);
    if exists|c: int| s.eligible(c, true) {
        lemma_choice(s, true, choose|c: int| s.eligible(c, true));
    }
}

/// The lanes that one merge opens get different colours for as long as an
/// unreserved colour is left that the merge has not used.
pub proof fn law_fork_siblings_differ(s: ColorState)
    requires
        s.wf(),
        exists|c: int| s.eligible(c, true),
    ensures
        !s.fork_used[s.next_sibling_color() as int],
{
    lemma_choice(s, true, choose|c: int| s.eligible(c, true));
}

/// Handing out a palette colour keeps the tables in order.
pub proof fn lemma_states_keep_order(s: ColorState, lane: usize, color: usize)
    requires
        s.wf(),
        color < PALETTE_LEN,
    ensures
        s.using(lane, color).wf(),
        s.main_on(lane).wf(),
        s.forking().wf(),
        s.releasing(lane).wf(),
        s.next_row().wf(),
        s.sibling_on(lane).wf(),
{
    law_new_lines_avoid_reserved_colors(s);
    let c = choose|c: int|
        0 <= c < PALETTE_LEN && c != MAIN_BRANCH_COLOR && !(#[trigger] s.reserved[c]);
    assert(!s.using(lane, color).reserved[c]);
    assert(!s.main_on(lane).reserved[c]);
    assert(!s.forking().reserved[c]);
    assert(!s.releasing(lane).reserved[c]);
    assert(!s.next_row().reserved[c]);
    assert(!s.sibling_on(lane).reserved[c]);
}

/// The palette has eight colours, of which the first is the main line's. The rows
/// of uncommitted changes and the links of squash merges have their own.
pub proof fn law_colours()
    ensures
        PALETTE_LEN == 8,
        MAIN_BRANCH_COLOR == 0,
        UNCOMMITTED_COLOR_INDEX == 1000,
        SQUASH_LINK_COLOR_INDEX == 1001,
{
}

/// A new line takes the colour that has rested longest out of those that are not
/// reserved, the lowest of several; a lane that a merge opens does so out of those
/// that the merge has not used, as long as there are any.
pub proof fn law_new_lines_take_the_colour_that_rested_longest(s: ColorState, d: int)
    requires
        s.wf(),
        0 <= d < 8,
        !s.reserved[d],
    ensures
        ({
            let c = s.next_color() as int;
            s.last_used[c] < s.last_used[d] || s.last_used[c] == s.last_used[d] && c <= d
        }),
        !s.fork_used[d] ==> ({
            let c = s.next_sibling_color() as int;
            &&& !s.fork_used[c]
            &&& s.last_used[c] < s.last_used[d] || s.last_used[c] == s.last_used[d] && c <= d
        }),
{
    assert(s.eligible(d, false));
    let c = lemma_choice_exists(s, false, PALETTE_LEN as int, d);
    assert(s.rested(c, false));
    lemma_rested_unique(s, false, c);
    if !s.fork_used[d] {
        assert(s.eligible(d, true));
        let e = lemma_choice_exists(s, true, PALETTE_LEN as int, d);
        assert(s.rested(e, true));
        lemma_rested_unique(s, true, e);
    }
}

/// A line keeps its colour for as long as its lane goes on. To draw a lane in a
/// colour uses the colour in that row and touches no other lane; the main line takes
/// the first colour for itself; a lane that ends forgets its colour.
pub proof fn law_lanes_and_their_colours(s: ColorState, lane: usize, color: usize, other: usize)
    requires
        s.wf(),
        color < 8,
        other != lane,
    ensures
        s.lanes.dom().contains(lane) ==> s.kept_color(lane) == s.lanes[lane],
        s.using(lane, color).lanes.dom().contains(lane),
        s.using(lane, color).lanes[lane] == color,
        s.using(lane, color).last_used[color as int] == s.row,
        s.using(lane, color).lanes.dom().contains(other) <==> s.lanes.dom().contains(other),
        s.lanes.dom().contains(other) ==> s.using(lane, color).lanes[other] == s.lanes[other],
        s.using(lane, color).reserved == s.reserved,
        s.main_on(lane).main_lane == Some(lane),
        s.main_on(lane).reserved[0],
        s.main_on(lane).lanes[lane] == 0,
        !s.releasing(lane).lanes.dom().contains(lane),
        s.releasing(lane).lanes.dom().contains(other) <==> s.lanes.dom().contains(other),
        s.lanes.dom().contains(other) ==> s.releasing(lane).lanes[other] == s.lanes[other],
        s.releasing(lane).last_used == s.last_used,
        s.row < usize::MAX ==> s.next_row().row == s.row + 1,
        s.next_row().lanes == s.lanes,
        s.sibling_on(lane).lanes[lane] == s.next_sibling_color(),
        s.sibling_on(lane).fork_used[s.next_sibling_color() as int],
        forall|c: int| 0 <= c < 8 ==> !(#[trigger] s.forking().fork_used[c]),
        s.reserving(color).reserved[color as int],
{
    law_new_lines_avoid_reserved_colors(s);
}

} // verus!
