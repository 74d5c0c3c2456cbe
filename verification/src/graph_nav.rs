//! Moving the selection through the graph and its branches.
use vstd::prelude::*;
use vstd::string::*;

use crate::git::branch::BranchInfo;
use crate::git::graph;
use crate::git::graph::{GraphLayout, GraphNode, NodeView};
use crate::git::operations;
use crate::search;
use crate::text;

verus! {

/// Whether a name is among the local branches of a list: it stands for no
/// branch of a configured remote.
pub open spec fn is_local(remotes: Seq<Seq<char>>, name: Seq<char>) -> bool {
    operations::split_ref(remotes, name) is None
}

/// Whether a list holds the local branch with a name.
pub open spec fn has_local(names: Seq<Seq<char>>, remotes: Seq<Seq<char>>, name: Seq<char>) -> bool {
    names.contains(name) && is_local(remotes, name)
}

/// Whether a remote branch has no local twin in the list.
pub open spec fn is_remote_only(names: Seq<Seq<char>>, remotes: Seq<Seq<char>>, name: Seq<char>) -> bool {
    match operations::split_ref(remotes, name) {
        None => false,
        Some(p) => !has_local(names, remotes, p.1),
    }
}

/// The local branches among some names.
pub open spec fn locals(names: Seq<Seq<char>>, remotes: Seq<Seq<char>>) -> Seq<Seq<char>> {
    names.filter(|n: Seq<char>| is_local(remotes, n))
}

/// The remote branches among some names whose local twin is not among them.
pub open spec fn remote_only(names: Seq<Seq<char>>, remotes: Seq<Seq<char>>) -> Seq<Seq<char>> {
    names.filter(|n: Seq<char>| is_remote_only(names, remotes, n))
}

/// The names without the remote twins of local branches: local branches first,
/// then remote-only ones, each group in its order.
pub open spec fn deduplicated(names: Seq<Seq<char>>, remotes: Seq<Seq<char>>) -> Seq<Seq<char>> {
    locals(names, remotes) + remote_only(names, remotes)
}

fn push_text(out: &mut Vec<String>, s: &String)
    ensures
        text::texts(final(out)@) == text::texts(old(out)@).push(s@),
{
    out.push(s.clone());
    assert(text::texts(out@) =~= text::texts(old(out)@).push(s@));
}

fn contains_local(names: &[String], remotes: &[String], name: &str) -> (yes: bool)
    ensures
        yes == has_local(text::texts(names@), text::texts(remotes@), name@),
{
    if operations::split_remote_ref(remotes, name).is_some() {
        return false;
    }
    let ghost all = text::texts(names@);
    let mut i: usize = 0;
    while i < names.len()
        invariant
            0 <= i <= names.len(),
            all == text::texts(names@),
            is_local(text::texts(remotes@), name@),
            forall|j: int| 0 <= j < i ==> all[j] != name@,
        decreases names.len() - i,
    {
        assert(all[i as int] == names@[i as int]@);
        if text::same_text(names[i].as_str(), name) {
            return true;
        }
        i = i + 1;
    }
    false
}

/// The branch names without the remote branches whose local twin is there too:
/// local branches first, then remote-only ones.
pub fn filter_remote_duplicates(branch_names: &[String], remotes: &[String]) -> (kept: Vec<String>)
    ensures
        text::texts(kept@) == deduplicated(text::texts(branch_names@), text::texts(remotes@)),
{
    let ghost all = text::texts(branch_names@);
    let ghost rs = text::texts(remotes@);
    let ghost local = |n: Seq<char>| is_local(rs, n);
    let ghost lonely = |n: Seq<char>| is_remote_only(all, rs, n);
    let mut kept: Vec<String> = Vec::new();
    let mut rest: Vec<String> = Vec::new();
    let mut i: usize = 0;
    assert(all.take(0).filter(local) =~= Seq::empty()) by {
        reveal(Seq::filter);
    }
    assert(all.take(0).filter(lonely) =~= Seq::empty()) by {
        reveal(Seq::filter);
    }
    assert(text::texts(kept@) =~= Seq::empty());
    assert(text::texts(rest@) =~= Seq::empty());
    while i < branch_names.len()
        invariant
            0 <= i <= branch_names.len(),
            all == text::texts(branch_names@),
            rs == text::texts(remotes@),
            local == (|n: Seq<char>| is_local(rs, n)),
            lonely == (|n: Seq<char>| is_remote_only(all, rs, n)),
            text::texts(kept@) == all.take(i as int).filter(local),
            text::texts(rest@) == all.take(i as int).filter(lonely),
        decreases branch_names.len() - i,
    {
        let name = &branch_names[i];
        assert(all[i as int] == name@);
        proof {
            reveal(Seq::filter);
            assert(all.take(i + 1).drop_last() =~= all.take(i as int));
            assert(all.take(i + 1).last() == name@);
        }
        match operations::split_remote_ref(remotes, name.as_str()) {
            None => {
                push_text(&mut kept, name);
                assert(local(name@) && !lonely(name@));
            },
            Some((_, twin)) => {
                assert(!local(name@));
                if !contains_local(branch_names, remotes, twin.as_str()) {
                    push_text(&mut rest, name);
                    assert(lonely(name@));
                } else {
                    assert(!lonely(name@));
                }
            },
        }
        i = i + 1;
    }
    assert(all.take(i as int) =~= all);
    let ghost first = kept@;
    let ghost second = rest@;
    kept.append(&mut rest);
    assert(text::texts(kept@) =~= text::texts(first) + text::texts(second));
    kept
}

/// The rows a list shows and the one that is selected.
#[derive(Debug, Clone, Copy, PartialEq, Eq, Structural)]
pub struct ListState {
    /// The first row on screen.
    pub offset: usize,
    pub selected: Option<usize>,
}

impl ListState {
    /// Select a row; selecting none scrolls back to the top.
    pub fn select(&mut self, index: Option<usize>)
        ensures
            final(self).selected == index,
            final(self).offset == (if index is None {
                0
            } else {
                old(self).offset
            }),
    {
        self.selected = index;
        if index.is_none() {
            self.offset = 0;
        }
    }
}

/// A branch label and the row it stands on.
#[derive(Debug)]
pub struct BranchPosition {
    pub node: usize,
    pub name: String,
}

impl View for BranchPosition {
    type V = (usize, Seq<char>);

    open spec fn view(&self) -> (usize, Seq<char>) {
        (self.node, self.name@)
    }
}

/// Branch labels as mathematical values.
pub open spec fn positions(v: Seq<BranchPosition>) -> Seq<(usize, Seq<char>)> {
    v.map_values(|p: BranchPosition| p@)
}

/// The selection in the graph: a row, and the branch that is focused.
#[derive(Debug)]
pub struct GraphNav {
    pub graph_list_state: ListState,
    /// Every branch label with its row, from the top.
    pub branch_positions: Vec<BranchPosition>,
    /// The focused label.
    pub selected_branch_position: Option<usize>,
}

/// The labels of one row.
pub open spec fn row_positions(row: usize, names: Seq<Seq<char>>) -> Seq<(usize, Seq<char>)> {
    names.map_values(|n: Seq<char>| (row, n))
}

/// The labels of the first `n` rows.
pub open spec fn labels(nodes: Seq<NodeView>, remotes: Seq<Seq<char>>, n: int) -> Seq<(usize, Seq<char>)>
    decreases n,
{
    if n <= 0 {
        Seq::empty()
    } else {
        labels(nodes, remotes, n - 1) + row_positions(
            (n - 1) as usize,
            deduplicated(nodes[n - 1].branch_names, remotes),
        )
    }
}

/// A row without a commit that is not the uncommitted-changes row.
pub open spec fn connector(nodes: Seq<NodeView>, i: int) -> bool {
    0 <= i < nodes.len() && nodes[i].commit is None && !nodes[i].is_uncommitted
}

/// The last row, or the first where there is none.
pub open spec fn last_row(nodes: Seq<NodeView>) -> int {
    if nodes.len() == 0 {
        0
    } else {
        nodes.len() - 1
    }
}

/// From `i` down to the next row that is no connector, at most the last.
pub open spec fn skip_down(nodes: Seq<NodeView>, i: int) -> int
    decreases last_row(nodes) - i,
{
    if connector(nodes, i) && i < last_row(nodes) {
        skip_down(nodes, i + 1)
    } else {
        i
    }
}

/// From `i` up to the next row that is no connector, at least the first.
pub open spec fn skip_up(nodes: Seq<NodeView>, i: int) -> int
    decreases i,
{
    if connector(nodes, i) && i > 0 {
        skip_up(nodes, i - 1)
    } else {
        i
    }
}

/// `i` kept between the first and the last row.
pub open spec fn clamped(nodes: Seq<NodeView>, i: int) -> int {
    if i < 0 {
        0
    } else if i > last_row(nodes) {
        last_row(nodes)
    } else {
        i
    }
}

/// The row a move by `delta` ends on: clamped to the graph, then past
/// connectors in the direction of the move. The first and the last row are
/// ends, connector or not.
pub open spec fn moved(nodes: Seq<NodeView>, current: int, delta: int) -> int {
    let to = clamped(nodes, current + delta);
    if to == 0 {
        0
    } else if delta > 0 {
        skip_down(nodes, to)
    } else if to == last_row(nodes) {
        to
    } else {
        skip_up(nodes, to)
    }
}

/// The labels that stand on a row.
pub open spec fn stands_on(all: Seq<(usize, Seq<char>)>, row: usize) -> spec_fn(int) -> bool {
    |i: int| all[i].0 == row
}

/// The first label on a row.
pub open spec fn label_on(all: Seq<(usize, Seq<char>)>, row: usize) -> Option<int> {
    search::first_such(all.len() as int, stands_on(all, row))
}

/// An index as an executable number.
pub open spec fn as_index(i: Option<int>) -> Option<usize> {
    match i {
        Some(i) => Some(i as usize),
        None => None,
    }
}

impl GraphNav {
    /// The first row selected, no labels yet.
    pub fn new() -> (nav: GraphNav)
        ensures
            nav.graph_list_state == (ListState { offset: 0, selected: Some(0usize) }),
            nav.branch_positions@.len() == 0,
            nav.selected_branch_position is None,
    {
        GraphNav {
            graph_list_state: ListState { offset: 0, selected: Some(0) },
            branch_positions: Vec::new(),
            selected_branch_position: None,
        }
    }

    /// Every branch label with its row, from the top of the graph.
    pub fn build_branch_positions(graph_layout: &GraphLayout, remotes: &[String]) -> (v: Vec<BranchPosition>)
        ensures
            positions(v@) == labels(
                graph::nodes_view(graph_layout.nodes@),
                text::texts(remotes@),
                graph_layout.nodes@.len() as int,
            ),
    {
        let ghost nodes = graph::nodes_view(graph_layout.nodes@);
        let ghost rs = text::texts(remotes@);
        let mut v: Vec<BranchPosition> = Vec::new();
        let mut i: usize = 0;
        assert(positions(v@) =~= Seq::empty());
        while i < graph_layout.nodes.len()
            invariant
                0 <= i <= graph_layout.nodes.len(),
                nodes == graph::nodes_view(graph_layout.nodes@),
                rs == text::texts(remotes@),
                positions(v@) == labels(nodes, rs, i as int),
            decreases graph_layout.nodes.len() - i,
        {
            let node = &graph_layout.nodes[i];
            assert(nodes[i as int] == node@);
            let names = filter_remote_duplicates(node.branch_names.as_slice(), remotes);
            let ghost all = text::texts(names@);
            let ghost before = positions(v@);
            let mut k: usize = 0;
            assert(row_positions(i, all.take(0)) =~= Seq::empty());
            assert(before + Seq::empty() =~= before);
            while k < names.len()
                invariant
                    0 <= k <= names.len(),
                    all == text::texts(names@),
                    positions(v@) == before + row_positions(i, all.take(k as int)),
                decreases names.len() - k,
            {
                let ghost so_far = v@;
                v.push(BranchPosition { node: i, name: names[k].clone() });
                assert(positions(v@) =~= positions(so_far).push((i, names@[k as int]@)));
                assert(row_positions(i, all.take(k + 1)) =~= row_positions(i, all.take(k as int)).push(
                    (i, all[k as int]),
                ));
                assert(positions(v@) =~= before + row_positions(i, all.take(k + 1)));
                k = k + 1;
            }
            assert(all.take(k as int) =~= all);
            i = i + 1;
        }
        v
    }

    /// Rebuild the labels from a graph.
    pub fn rebuild_branch_positions(&mut self, graph_layout: &GraphLayout, remotes: &[String])
        ensures
            positions(final(self).branch_positions@) == labels(
                graph::nodes_view(graph_layout.nodes@),
                text::texts(remotes@),
                graph_layout.nodes@.len() as int,
            ),
            final(self).graph_list_state == old(self).graph_list_state,
            final(self).selected_branch_position == old(self).selected_branch_position,
    {
        self.branch_positions = GraphNav::build_branch_positions(graph_layout, remotes);
    }

    /// The selected row.
    pub fn selected_index(&self) -> (i: Option<usize>)
        ensures
            i == self.graph_list_state.selected,
    {
        self.graph_list_state.selected
    }

    /// The selected row's node, where the row exists.
    pub fn selected_node<'a>(&self, layout: &'a GraphLayout) -> (node: Option<&'a GraphNode>)
        ensures
            match self.graph_list_state.selected {
                Some(i) => if i < layout.nodes@.len() {
                    node == Some(&layout.nodes@[i as int])
                } else {
                    node is None
                },
                None => node is None,
            },
    {
        match self.graph_list_state.selected {
            Some(i) => {
                if i < layout.nodes.len() {
                    Some(&layout.nodes[i])
                } else {
                    None
                }
            },
            None => None,
        }
    }

    /// Whether the uncommitted-changes row is selected.
    pub fn is_uncommitted_selected(&self, layout: &GraphLayout) -> (yes: bool)
        ensures
            yes == (self.graph_list_state.selected matches Some(i) && i < layout.nodes@.len()
                && layout.nodes@[i as int].is_uncommitted),
    {
        match self.selected_node(layout) {
            Some(node) => node.is_uncommitted,
            None => false,
        }
    }

    /// Whether HEAD's commit is selected.
    pub fn is_head_commit_selected(&self, layout: &GraphLayout) -> (yes: bool)
        ensures
            yes == (self.graph_list_state.selected matches Some(i) && i < layout.nodes@.len()
                && layout.nodes@[i as int].is_head && !layout.nodes@[i as int].is_uncommitted),
    {
        match self.selected_node(layout) {
            Some(node) => node.is_head && !node.is_uncommitted,
            None => false,
        }
    }

    fn is_connector_node(layout: &GraphLayout, idx: usize) -> (yes: bool)
        ensures
            yes == connector(graph::nodes_view(layout.nodes@), idx as int),
    {
        if idx < layout.nodes.len() {
            assert(graph::nodes_view(layout.nodes@)[idx as int] == layout.nodes@[idx as int]@);
            layout.nodes[idx].is_connector()
        } else {
            false
        }
    }

    /// Focus the first label of a row.
    pub fn sync_branch_selection_to_node(&mut self, node_idx: usize)
        ensures
            final(self).selected_branch_position == as_index(
                label_on(positions(old(self).branch_positions@), node_idx),
            ),
            final(self).graph_list_state == old(self).graph_list_state,
            final(self).branch_positions == old(self).branch_positions,
    {
        let ghost all = positions(self.branch_positions@);
        let ghost p = stands_on(all, node_idx);
        let mut i: usize = 0;
        while i < self.branch_positions.len()
            invariant
                0 <= i <= self.branch_positions.len(),
                all == positions(self.branch_positions@),
                p == stands_on(all, node_idx),
                *self == *old(self),
                forall|j: int| 0 <= j < i ==> !(#[trigger] p(j)),
            decreases self.branch_positions.len() - i,
        {
            assert(all[i as int] == self.branch_positions@[i as int]@);
            if self.branch_positions[i].node == node_idx {
                proof {
                    assert(p(i as int));
                    search::lemma_first_such(all.len() as int, p, i as int);
                }
                self.selected_branch_position = Some(i);
                return;
            }
            assert(!p(i as int));
            i = i + 1;
        }
        proof {
            search::lemma_no_such(all.len() as int, p);
        }
        self.selected_branch_position = None;
    }

    fn select_row(&mut self, row: usize)
        ensures
            final(self).graph_list_state == (ListState {
                offset: old(self).graph_list_state.offset,
                selected: Some(row),
            }),
            final(self).branch_positions == old(self).branch_positions,
            final(self).selected_branch_position == as_index(
                label_on(positions(old(self).branch_positions@), row),
            ),
    {
        self.graph_list_state.select(Some(row));
        self.sync_branch_selection_to_node(row);
    }

    /// Move the selection by `delta` rows, past connectors.
    pub fn move_selection(&mut self, layout: &GraphLayout, delta: i32)
        requires
            layout.nodes@.len() <= i32::MAX,
            match old(self).graph_list_state.selected {
                Some(i) => i <= i32::MAX && i32::MIN <= i + delta <= i32::MAX,
                None => true,
            },
        ensures
            final(self).graph_list_state == (ListState {
                offset: old(self).graph_list_state.offset,
                selected: Some(
                    moved(
                        graph::nodes_view(layout.nodes@),
                        (match old(self).graph_list_state.selected {
                            Some(i) => i as int,
                            None => 0,
                        }),
                        delta as int,
                    ) as usize,
                ),
            }),
            final(self).branch_positions == old(self).branch_positions,
            final(self).selected_branch_position == as_index(
                label_on(
                    positions(old(self).branch_positions@),
                    (final(self).graph_list_state.selected->0),
                ),
            ),
    {
        let ghost nodes = graph::nodes_view(layout.nodes@);
        let max: usize = if layout.nodes.len() > 0 {
            layout.nodes.len() - 1
        } else {
            0
        };
        let current: usize = match self.graph_list_state.selected {
            Some(i) => i,
            None => 0,
        };
        let target: i64 = current as i64 + delta as i64;
        let mut row: usize = if target < 0 {
            0
        } else if target > max as i64 {
            max
        } else {
            target as usize
        };
        assert(row == clamped(nodes, current + delta));
        let ghost start = row as int;
        while row > 0 && row < max && GraphNav::is_connector_node(layout, row)
            invariant
                nodes == graph::nodes_view(layout.nodes@),
                max == last_row(nodes),
                max < i32::MAX,
                0 <= row <= max,
                start == 0 ==> row == 0,
                start > 0 && delta > 0 ==> skip_down(nodes, start) == skip_down(nodes, row as int),
                start > 0 && delta > 0 ==> row > 0,
                start == max ==> row == max,
                delta <= 0 ==> row <= start,
                delta <= 0 ==> skip_up(nodes, start) == skip_up(nodes, row as int),
            decreases
                    if delta > 0 {
                        max - row
                    } else {
                        row as int
                    },
        {
            if delta > 0 {
                row = row + 1;
            } else {
                row = row - 1;
            }
        }
        assert(row == moved(nodes, current as int, delta as int));
        self.select_row(row);
    }

    /// Select the first row that is no connector.
    pub fn select_first(&mut self, layout: &GraphLayout)
        ensures
            final(self).graph_list_state == (ListState {
                offset: old(self).graph_list_state.offset,
                selected: Some(skip_down(graph::nodes_view(layout.nodes@), 0) as usize),
            }),
            final(self).branch_positions == old(self).branch_positions,
            final(self).selected_branch_position == as_index(
                label_on(
                    positions(old(self).branch_positions@),
                    (final(self).graph_list_state.selected->0),
                ),
            ),
    {
        let ghost nodes = graph::nodes_view(layout.nodes@);
        let max: usize = if layout.nodes.len() > 0 {
            layout.nodes.len() - 1
        } else {
            0
        };
        let mut idx: usize = 0;
        while idx < max && GraphNav::is_connector_node(layout, idx)
            invariant
                nodes == graph::nodes_view(layout.nodes@),
                max == last_row(nodes),
                0 <= idx <= max,
                skip_down(nodes, 0) == skip_down(nodes, idx as int),
            decreases max - idx,
        {
            idx = idx + 1;
        }
        self.select_row(idx);
    }

    /// Select the last row that is no connector.
    pub fn select_last(&mut self, layout: &GraphLayout)
        ensures
            final(self).graph_list_state == (ListState {
                offset: old(self).graph_list_state.offset,
                selected: Some(
                    skip_up(
                        graph::nodes_view(layout.nodes@),
                        last_row(graph::nodes_view(layout.nodes@)),
                    ) as usize,
                ),
            }),
            final(self).branch_positions == old(self).branch_positions,
            final(self).selected_branch_position == as_index(
                label_on(
                    positions(old(self).branch_positions@),
                    (final(self).graph_list_state.selected->0),
                ),
            ),
    {
        let ghost nodes = graph::nodes_view(layout.nodes@);
        let mut idx: usize = if layout.nodes.len() > 0 {
            layout.nodes.len() - 1
        } else {
            0
        };
        while idx > 0 && GraphNav::is_connector_node(layout, idx)
            invariant
                nodes == graph::nodes_view(layout.nodes@),
                0 <= idx <= last_row(nodes),
                skip_up(nodes, last_row(nodes)) == skip_up(nodes, idx as int),
            decreases idx,
        {
            idx = idx - 1;
        }
        self.select_row(idx);
    }

    fn focus(&mut self, at: usize)
        ensures
            final(self).branch_positions == old(self).branch_positions,
            final(self).selected_branch_position == Some(at),
            final(self).graph_list_state == old(self).row_of(at as int),
    {
        self.selected_branch_position = Some(at);
        if at < self.branch_positions.len() {
            let node: usize = self.branch_positions[at].node;
            self.graph_list_state.select(Some(node));
        }
    }

    /// The selection with the row of a label selected, where there is such a
    /// label.
    pub open spec fn row_of(self, at: int) -> ListState {
        if 0 <= at < self.branch_positions@.len() {
            ListState { offset: self.graph_list_state.offset, selected: Some(self.branch_positions@[at].node) }
        } else {
            self.graph_list_state
        }
    }

    /// Focus the next label, if there is one.
    pub fn move_to_next_branch(&mut self)
        requires
            old(self).selected_branch_position matches Some(pos) ==> pos < usize::MAX,
        ensures
            final(self).branch_positions == old(self).branch_positions,
            ({
                let next = match old(self).selected_branch_position {
                    Some(pos) => pos + 1,
                    None => 0,
                };
                if next < old(self).branch_positions@.len() {
                    &&& final(self).selected_branch_position == Some(next as usize)
                    &&& final(self).graph_list_state == old(self).row_of(next as int)
                } else {
                    &&& final(self).selected_branch_position == old(self).selected_branch_position
                    &&& final(self).graph_list_state == old(self).graph_list_state
                }
            }),
    {
        let next: usize = match self.selected_branch_position {
            Some(pos) => pos + 1,
            None => 0,
        };
        if next < self.branch_positions.len() {
            self.focus(next);
        }
    }

    /// Focus the previous label, if there is one; without a focus, the last.
    pub fn move_to_prev_branch(&mut self)
        ensures
            final(self).branch_positions == old(self).branch_positions,
            ({
                let prev = match old(self).selected_branch_position {
                    Some(pos) => pos - 1,
                    None => old(self).branch_positions@.len() - 1,
                };
                if prev >= 0 && old(self).branch_positions@.len() > 0 {
                    &&& final(self).selected_branch_position == Some(prev as usize)
                    &&& final(self).graph_list_state == old(self).row_of(prev as int)
                } else {
                    &&& final(self).selected_branch_position == old(self).selected_branch_position
                    &&& final(self).graph_list_state == old(self).graph_list_state
                }
            }),
    {
        if self.branch_positions.len() == 0 {
            return;
        }
        match self.selected_branch_position {
            Some(pos) => {
                if pos > 0 {
                    self.focus(pos - 1);
                }
            },
            None => {
                let last: usize = self.branch_positions.len() - 1;
                self.focus(last);
            },
        }
    }

    /// Select the row that carries the branch HEAD is on, if it is shown.
    pub fn jump_to_head(&mut self, head_name: Option<&str>)
        ensures
            final(self).branch_positions == old(self).branch_positions,
            match (match head_name {
                Some(name) => label_named(positions(old(self).branch_positions@), name@),
                None => None,
            }) {
                Some(i) => {
                    &&& final(self).selected_branch_position == Some(i as usize)
                    &&& final(self).graph_list_state == old(self).row_of(i)
                },
                None => {
                    &&& final(self).selected_branch_position == old(self).selected_branch_position
                    &&& final(self).graph_list_state == old(self).graph_list_state
                },
            },
    {
        let name = match head_name {
            None => {
                return;
            },
            Some(name) => name,
        };
        let ghost all = positions(self.branch_positions@);
        let ghost p = is_named(all, name@);
        let mut i: usize = 0;
        while i < self.branch_positions.len()
            invariant
                0 <= i <= self.branch_positions.len(),
                all == positions(self.branch_positions@),
                p == is_named(all, name@),
                head_name == Some(name),
                *self == *old(self),
                forall|j: int| 0 <= j < i ==> !(#[trigger] p(j)),
            decreases self.branch_positions.len() - i,
        {
            assert(all[i as int] == self.branch_positions@[i as int]@);
            if text::same_text(self.branch_positions[i].name.as_str(), name) {
                proof {
                    assert(p(i as int));
                    search::lemma_first_such(all.len() as int, p, i as int);
                }
                self.focus(i);
                return;
            }
            assert(!p(i as int));
            i = i + 1;
        }
        proof {
            search::lemma_no_such(all.len() as int, p);
        }
    }

    /// The focused label.
    pub open spec fn focused(self) -> Option<(usize, Seq<char>)> {
        match self.selected_branch_position {
            Some(pos) => if pos < self.branch_positions@.len() {
                Some(self.branch_positions@[pos as int]@)
            } else {
                None
            },
            None => None,
        }
    }

    /// The name of the focused branch.
    pub fn selected_branch_name(&self) -> (name: Option<&str>)
        ensures
            match name {
                Some(n) => self.focused() is Some && n@ == (self.focused()->0).1,
                None => self.focused() is None,
            },
    {
        match self.selected_branch_position {
            Some(pos) => {
                if pos < self.branch_positions.len() {
                    Some(self.branch_positions[pos].name.as_str())
                } else {
                    None
                }
            },
            None => None,
        }
    }

    /// The focused branch in a list of branches.
    pub fn selected_branch<'a>(&self, branches: &'a [BranchInfo]) -> (branch: Option<&'a BranchInfo>)
        ensures
            match (match self.focused() {
                Some(f) => search::first_such(branches@.len() as int, has_name(branches@, f.1)),
                None => None,
            }) {
                Some(i) => branch == Some(&branches@[i]),
                None => branch is None,
            },
    {
        let name = match self.selected_branch_name() {
            None => {
                return None;
            },
            Some(name) => name,
        };
        let ghost p = has_name(branches@, name@);
        let mut i: usize = 0;
        while i < branches.len()
            invariant
                0 <= i <= branches.len(),
                p == has_name(branches@, name@),
                self.focused() is Some,
                name@ == (self.focused()->0).1,
                forall|j: int| 0 <= j < i ==> !(#[trigger] p(j)),
            decreases branches.len() - i,
        {
            if text::same_text(branches[i].name.as_str(), name) {
                proof {
                    assert(p(i as int));
                    search::lemma_first_such(branches@.len() as int, p, i as int);
                }
                return Some(&branches[i]);
            }
            assert(!p(i as int));
            i = i + 1;
        }
        proof {
            search::lemma_no_such(branches@.len() as int, p);
        }
        None
    }

    /// The names of the branches on the selected row.
    pub fn selected_node_branches(&self) -> (names: Vec<&str>)
        ensures
            names@.map_values(|n: &str| n@) == match self.graph_list_state.selected {
                Some(row) => names_on(positions(self.branch_positions@), row),
                None => Seq::empty(),
            },
    {
        let mut names: Vec<&str> = Vec::new();
        assert(names@.map_values(|n: &str| n@) =~= Seq::empty());
        let row: usize = match self.graph_list_state.selected {
            None => {
                return names;
            },
            Some(row) => row,
        };
        let ghost all = positions(self.branch_positions@);
        let mut i: usize = 0;
        assert(all.take(0) =~= Seq::empty());
        while i < self.branch_positions.len()
            invariant
                0 <= i <= self.branch_positions.len(),
                all == positions(self.branch_positions@),
                names@.map_values(|n: &str| n@) == names_on(all.take(i as int), row),
            decreases self.branch_positions.len() - i,
        {
            assert(all.take(i + 1).drop_last() =~= all.take(i as int));
            assert(all.take(i + 1).last() == self.branch_positions@[i as int]@);
            if self.branch_positions[i].node == row {
                let ghost before = names@;
                let name = self.branch_positions[i].name.as_str();
                names.push(name);
                assert(names@.map_values(|n: &str| n@) =~= before.map_values(|n: &str| n@).push(name@));
            }
            i = i + 1;
        }
        assert(all.take(i as int) =~= all);
        names
    }
}

impl Default for GraphNav {
    fn default() -> (nav: GraphNav)
        ensures
            nav.graph_list_state == (ListState { offset: 0, selected: Some(0usize) }),
            nav.branch_positions@.len() == 0,
            nav.selected_branch_position is None,
    {
        GraphNav::new()
    }
}

/// The labels with a name.
pub open spec fn is_named(all: Seq<(usize, Seq<char>)>, name: Seq<char>) -> spec_fn(int) -> bool {
    |i: int| all[i].1 == name
}

/// The first label with a name.
pub open spec fn label_named(all: Seq<(usize, Seq<char>)>, name: Seq<char>) -> Option<int> {
    search::first_such(all.len() as int, is_named(all, name))
}

/// The branches with a name.
pub open spec fn has_name(branches: Seq<BranchInfo>, name: Seq<char>) -> spec_fn(int) -> bool {
    |i: int| branches[i].name@ == name
}

/// The names of the labels on a row.
pub open spec fn names_on(all: Seq<(usize, Seq<char>)>, row: usize) -> Seq<Seq<char>>
    decreases all.len(),
{
    if all.len() == 0 {
        Seq::empty()
    } else if all.last().0 == row {
        names_on(all.drop_last(), row).push(all.last().1)
    } else {
        names_on(all.drop_last(), row)
    }
}

proof fn lemma_skip_down(nodes: Seq<NodeView>, i: int)
    requires
        0 <= i <= last_row(nodes),
    ensures
        i <= skip_down(nodes, i) <= last_row(nodes),
        connector(nodes, skip_down(nodes, i)) ==> skip_down(nodes, i) == last_row(nodes),
    decreases last_row(nodes) - i,
{
    if connector(nodes, i) && i < last_row(nodes) {
        lemma_skip_down(nodes, i + 1);
    }
}

proof fn lemma_skip_up(nodes: Seq<NodeView>, i: int)
    requires
        0 <= i <= last_row(nodes),
    ensures
        0 <= skip_up(nodes, i) <= i,
        connector(nodes, skip_up(nodes, i)) ==> skip_up(nodes, i) == 0,
    decreases i,
{
    if connector(nodes, i) && i > 0 {
        lemma_skip_up(nodes, i - 1);
    }
}

/// A move ends on a row of the graph, and on a connector only at its first or
/// last row.
pub proof fn law_moves_skip_connectors(nodes: Seq<NodeView>, current: int, delta: int)
    ensures
        0 <= moved(nodes, current, delta) <= last_row(nodes),
        connector(nodes, moved(nodes, current, delta)) ==> moved(nodes, current, delta) == 0 || moved(
            nodes,
            current,
            delta,
        ) == last_row(nodes),
{
    let to = clamped(nodes, current + delta);
    lemma_skip_down(nodes, to);
    lemma_skip_up(nodes, to);
}

/// Of a remote branch and its local twin on one commit only the local one is
/// kept; every other branch is kept.
pub proof fn law_only_remote_twins_are_dropped(names: Seq<Seq<char>>, remotes: Seq<Seq<char>>, name: Seq<char>)
    ensures
        deduplicated(names, remotes).contains(name) <==> names.contains(name) && !(operations::split_ref(
            remotes,
            name,
        ) matches Some(p) && has_local(names, remotes, p.1)),
{
    let local = |n: Seq<char>| is_local(remotes, n);
    let lonely = |n: Seq<char>| is_remote_only(names, remotes, n);
    let a = names.filter(local);
    let b = names.filter(lonely);
    if names.contains(name) && is_local(remotes, name) {
        let i = choose|i: int| 0 <= i < names.len() && names[i] == name;
        names.lemma_filter_contains(local, i);
        let k = choose|k: int| 0 <= k < a.len() && a[k] == name;
        assert((a + b)[k] == name);
    }
    if names.contains(name) && is_remote_only(names, remotes, name) {
        let i = choose|i: int| 0 <= i < names.len() && names[i] == name;
        names.lemma_filter_contains(lonely, i);
        let k = choose|k: int| 0 <= k < b.len() && b[k] == name;
        assert((a + b)[a.len() + k] == name);
    }
    if (a + b).contains(name) {
        let k = choose|k: int| 0 <= k < (a + b).len() && (a + b)[k] == name;
        if k < a.len() {
            assert(a[k] == name);
            names.lemma_filter_pred(local, k);
            names.lemma_filter_contains_rev(local, name);
        } else {
            let j = k - a.len();
            assert(b[j] == name);
            names.lemma_filter_pred(lonely, j);
            names.lemma_filter_contains_rev(lonely, name);
        }
    }
}

/// Every label stands on a row of the graph that carries its branch.
pub proof fn law_labels_stand_on_their_rows(nodes: Seq<NodeView>, remotes: Seq<Seq<char>>, n: int, k: int)
    requires
        0 <= n <= nodes.len() <= usize::MAX,
        0 <= k < labels(nodes, remotes, n).len(),
    ensures
        (labels(nodes, remotes, n)[k].0 as int) < n,
        nodes[labels(nodes, remotes, n)[k].0 as int].branch_names.contains(labels(nodes, remotes, n)[k].1),
    decreases n,
{
    if n > 0 {
        let before = labels(nodes, remotes, n - 1);
        let kept = deduplicated(nodes[n - 1].branch_names, remotes);
        if k < before.len() {
            law_labels_stand_on_their_rows(nodes, remotes, n - 1, k);
        } else {
            let name = kept[k - before.len()];
            assert(kept.contains(name));
            law_only_remote_twins_are_dropped(nodes[n - 1].branch_names, remotes, name);
        }
    }
}

/// A row that a move passes over: it shows neither a commit nor the uncommitted
/// changes.
pub open spec fn passed_over(nodes: Seq<NodeView>, i: int) -> bool {
    nodes[i].commit is None && !nodes[i].is_uncommitted
}

proof fn lemma_skipped_down(nodes: Seq<NodeView>, i: int)
    requires
        0 <= i < nodes.len(),
    ensures
        i <= skip_down(nodes, i) < nodes.len(),
        forall|k: int| i <= k < skip_down(nodes, i) ==> #[trigger] passed_over(nodes, k),
        skip_down(nodes, i) < nodes.len() - 1 ==> !passed_over(nodes, skip_down(nodes, i)),
    decreases nodes.len() - i,
{
    if connector(nodes, i) && i < last_row(nodes) {
        lemma_skipped_down(nodes, i + 1);
        assert(passed_over(nodes, i));
    }
}

proof fn lemma_skipped_up(nodes: Seq<NodeView>, i: int)
    requires
        0 <= i < nodes.len(),
    ensures
        0 <= skip_up(nodes, i) <= i,
        forall|k: int| skip_up(nodes, i) < k <= i ==> #[trigger] passed_over(nodes, k),
        skip_up(nodes, i) > 0 ==> !passed_over(nodes, skip_up(nodes, i)),
    decreases i,
{
    if connector(nodes, i) && i > 0 {
        lemma_skipped_up(nodes, i - 1);
        assert(passed_over(nodes, i));
    }
}

/// Where a move ends: as many rows on as asked for, within the graph, and then past
/// rows that show nothing, in the direction of the move and no further. The first
/// row, and going up the last, is kept whatever it shows.
pub proof fn law_where_a_move_ends(nodes: Seq<NodeView>, current: int, delta: int)
    requires
        nodes.len() > 0,
    ensures
        ({
            let last = nodes.len() - 1;
            let aim = current + delta;
            let to = if aim < 0 {
                0
            } else if aim > last {
                last
            } else {
                aim
            };
            let end = moved(nodes, current, delta);
            &&& 0 <= end <= last
            &&& to == 0 ==> end == 0
            &&& delta <= 0 && to == last ==> end == to
            &&& to > 0 && delta > 0 ==> {
                &&& end >= to
                &&& forall|k: int| to <= k < end ==> #[trigger] passed_over(nodes, k)
                &&& end < last ==> !passed_over(nodes, end)
            }
            &&& 0 < to < last && delta <= 0 ==> {
                &&& end <= to
                &&& forall|k: int| end < k <= to ==> #[trigger] passed_over(nodes, k)
                &&& end > 0 ==> !passed_over(nodes, end)
            }
        }),
{
    let to = clamped(nodes, current + delta);
    lemma_skipped_down(nodes, to);
    lemma_skipped_up(nodes, to);
}

/// The ends of the graph: the first row that shows something, and the last.
pub proof fn law_first_and_last_rows(nodes: Seq<NodeView>)
    requires
        nodes.len() > 0,
    ensures
        ({
            let first = skip_down(nodes, 0);
            let last = skip_up(nodes, nodes.len() - 1);
            &&& 0 <= first < nodes.len()
            &&& forall|k: int| 0 <= k < first ==> #[trigger] passed_over(nodes, k)
            &&& first < nodes.len() - 1 ==> !passed_over(nodes, first)
            &&& 0 <= last < nodes.len()
            &&& forall|k: int| last < k < nodes.len() ==> #[trigger] passed_over(nodes, k)
            &&& last > 0 ==> !passed_over(nodes, last)
            &&& last_row(nodes) == nodes.len() - 1
        }),
{
    lemma_skipped_down(nodes, 0);
    lemma_skipped_up(nodes, nodes.len() - 1);
}

/// Local branches come before remote ones.
pub proof fn law_local_labels_come_first(names: Seq<Seq<char>>, remotes: Seq<Seq<char>>, i: int, j: int)
    requires
        0 <= i < j < deduplicated(names, remotes).len(),
        operations::split_ref(remotes, deduplicated(names, remotes)[j]) is None,
    ensures
        operations::split_ref(remotes, deduplicated(names, remotes)[i]) is None,
{
    let local = |n: Seq<char>| is_local(remotes, n);
    let lonely = |n: Seq<char>| is_remote_only(names, remotes, n);
    let a = names.filter(local);
    let b = names.filter(lonely);
    if j >= a.len() {
        names.lemma_filter_pred(lonely, j - a.len());
    } else {
        names.lemma_filter_pred(local, i);
    }
}

/// Every row adds its labels below those of the rows above it, in their order.
pub proof fn law_every_row_adds_its_labels(nodes: Seq<NodeView>, remotes: Seq<Seq<char>>, n: int, k: int)
    requires
        0 <= n < nodes.len() <= usize::MAX,
    ensures
        ({
            let before = labels(nodes, remotes, n);
            let after = labels(nodes, remotes, n + 1);
            let kept = deduplicated(nodes[n].branch_names, remotes);
            &&& labels(nodes, remotes, 0).len() == 0
            &&& after.len() == before.len() + kept.len()
            &&& 0 <= k < before.len() ==> after[k] == before[k]
            &&& before.len() <= k < after.len() ==> after[k].0 == n && after[k].1 == kept[k - before.len()]
        }),
{
}

/// The label of a row, or of a name, is the first there is, and none is missed.
pub proof fn law_first_labels(all: Seq<(usize, Seq<char>)>, row: usize, name: Seq<char>)
    ensures
        match label_on(all, row) {
            Some(i) => 0 <= i < all.len() && all[i].0 == row && forall|j: int|
                0 <= j < i ==> (#[trigger] all[j]).0 != row,
            None => forall|j: int| 0 <= j < all.len() ==> (#[trigger] all[j]).0 != row,
        },
        match label_named(all, name) {
            Some(i) => 0 <= i < all.len() && all[i].1 == name && forall|j: int|
                0 <= j < i ==> (#[trigger] all[j]).1 != name,
            None => forall|j: int| 0 <= j < all.len() ==> (#[trigger] all[j]).1 != name,
        },
{
    let on = stands_on(all, row);
    let named = is_named(all, name);
    search::lemma_first_such_holds(all.len() as int, on);
    search::lemma_first_such_holds(all.len() as int, named);
    let n = match label_on(all, row) {
        Some(i) => i,
        None => all.len() as int,
    };
    assert forall|j: int| 0 <= j < n implies (#[trigger] all[j]).0 != row by {
        assert(!on(j));
    }
    let m = match label_named(all, name) {
        Some(i) => i,
        None => all.len() as int,
    };
    assert forall|j: int| 0 <= j < m implies (#[trigger] all[j]).1 != name by {
        assert(!named(j));
    }
}

/// The names on a row are those of its labels, in their order.
pub proof fn law_names_on_a_row(all: Seq<(usize, Seq<char>)>, row: usize, label: (usize, Seq<char>))
    ensures
        names_on(Seq::<(usize, Seq<char>)>::empty(), row).len() == 0,
        label.0 == row ==> names_on(all.push(label), row) == names_on(all, row).push(label.1),
        label.0 != row ==> names_on(all.push(label), row) == names_on(all, row),
{
    assert(all.push(label).drop_last() =~= all);
}

/// To focus a label is to select its row; the scroll offset stays.
pub proof fn law_a_label_selects_its_row(nav: GraphNav, at: int)
    ensures
        0 <= at < nav.branch_positions@.len() ==> nav.row_of(at).selected == Some(
            nav.branch_positions@[at].node,
        ),
        !(0 <= at < nav.branch_positions@.len()) ==> nav.row_of(at).selected
            == nav.graph_list_state.selected,
        nav.row_of(at).offset == nav.graph_list_state.offset,
        match nav.focused() {
            Some(label) => exists|k: int|
                0 <= k < nav.branch_positions@.len() && nav.selected_branch_position == Some(k as usize)
                    && label.0 == (#[trigger] nav.branch_positions@[k]).node && label.1
                    == nav.branch_positions@[k].name@,
            None => match nav.selected_branch_position {
                Some(pos) => pos >= nav.branch_positions@.len(),
                None => true,
            },
        },
{
    if let Some(pos) = nav.selected_branch_position {
        if pos < nav.branch_positions@.len() {
            let k = pos as int;
            assert(nav.branch_positions@[k].node == (nav.focused()->0).0);
        }
    }
}

} // verus!
