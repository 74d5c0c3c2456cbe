//! Where the selected commit's line left another.
use vstd::prelude::*;

use crate::git::graph;
use crate::git::graph::{GraphLayout, NodeView};
use crate::graph::colors;
use crate::oid::Oid;
use crate::search;

verus! {

/// The rows that hold a commit of the main branch's colour.
pub open spec fn is_main(nodes: Seq<NodeView>) -> spec_fn(int) -> bool {
    |i: int| nodes[i].commit is Some && nodes[i].color_index == colors::MAIN_BRANCH_COLOR
}

/// The rows that hold a commit.
pub open spec fn holds(nodes: Seq<NodeView>, oid: Oid) -> spec_fn(int) -> bool {
    |i: int| nodes[i].oid() == Some(oid)
}

/// The newest loaded commit that is drawn as the main branch.
pub fn main_branch_tip(layout: &GraphLayout) -> (tip: Option<Oid>)
    ensures
        tip == match search::first_such(
            layout.nodes@.len() as int,
            is_main(graph::nodes_view(layout.nodes@)),
        ) {
            Some(i) => graph::nodes_view(layout.nodes@)[i].oid(),
            None => None,
        },
{
    let ghost nodes = graph::nodes_view(layout.nodes@);
    let ghost p = is_main(nodes);
    let mut i: usize = 0;
    while i < layout.nodes.len()
        invariant
            0 <= i <= layout.nodes.len(),
            nodes == graph::nodes_view(layout.nodes@),
            p == is_main(nodes),
            forall|j: int| 0 <= j < i ==> !(#[trigger] p(j)),
        decreases layout.nodes.len() - i,
    {
        let node = &layout.nodes[i];
        assert(nodes[i as int] == node@);
        if let Some(commit) = &node.commit {
            if node.color_index == colors::MAIN_BRANCH_COLOR {
                proof {
                    assert(p(i as int));
                    search::lemma_first_such(nodes.len() as int, p, i as int);
                }
                return Some(commit.oid);
            }
        }
        assert(!p(i as int));
        i = i + 1;
    }
    proof {
        search::lemma_no_such(nodes.len() as int, p);
    }
    None
}

/// The row of a commit, where it is loaded.
pub fn row_of_commit(layout: &GraphLayout, oid: Oid) -> (row: Option<usize>)
    ensures
        match row {
            Some(i) => search::first_such(
                layout.nodes@.len() as int,
                holds(graph::nodes_view(layout.nodes@), oid),
            ) == Some(i as int),
            None => search::first_such(
                layout.nodes@.len() as int,
                holds(graph::nodes_view(layout.nodes@), oid),
            ) is None,
        },
{
    let ghost nodes = graph::nodes_view(layout.nodes@);
    let ghost p = holds(nodes, oid);
    let mut i: usize = 0;
    while i < layout.nodes.len()
        invariant
            0 <= i <= layout.nodes.len(),
            nodes == graph::nodes_view(layout.nodes@),
            p == holds(nodes, oid),
            forall|j: int| 0 <= j < i ==> !(#[trigger] p(j)),
        decreases layout.nodes.len() - i,
    {
        let node = &layout.nodes[i];
        assert(nodes[i as int] == node@);
        if let Some(commit) = &node.commit {
            if commit.oid == oid {
                proof {
                    assert(p(i as int));
                    search::lemma_first_such(nodes.len() as int, p, i as int);
                }
                return Some(i);
            }
        }
        assert(!p(i as int));
        i = i + 1;
    }
    proof {
        search::lemma_no_such(nodes.len() as int, p);
    }
    None
}

/// Where a jump to the fork point lands.
#[derive(Debug, Clone, Copy, PartialEq, Eq, Structural)]
pub enum ForkTarget {
    /// On this commit, the merge base.
    Jump(Oid),
    /// Nowhere: the selection meets no other line.
    Linear,
    /// Nowhere: the histories share no commit.
    NoBase,
}

/// The fork point, given the merge base with the main branch and, where the
/// selection is on the main branch, the one with HEAD.
pub open spec fn fork(selected: Oid, main_base: Option<Oid>, head_base: Option<Oid>) -> ForkTarget {
    match main_base {
        None => ForkTarget::NoBase,
        Some(base) => if base != selected {
            ForkTarget::Jump(base)
        } else {
            match head_base {
                Some(h) => if h != selected {
                    ForkTarget::Jump(h)
                } else {
                    ForkTarget::Linear
                },
                None => ForkTarget::Linear,
            }
        },
    }
}

/// The fork point, given both merge bases.
pub fn fork_of_bases(selected: Oid, main_base: Option<Oid>, head_base: Option<Oid>) -> (target: ForkTarget)
    ensures
        target == fork(selected, main_base, head_base),
{
    match main_base {
        None => ForkTarget::NoBase,
        Some(base) => {
            if base != selected {
                return ForkTarget::Jump(base);
            }
            match head_base {
                Some(h) => if h != selected {
                    ForkTarget::Jump(h)
                } else {
                    ForkTarget::Linear
                },
                None => ForkTarget::Linear,
            }
        },
    }
}

/// The fork point of the selected commit: its merge base with the main branch
/// where the two differ, else its merge base with HEAD. `merge_base` gives the
/// base of two commits, `None` where they share no history.
pub fn fork_target(
    selected: Oid,
    main_tip: Oid,
    head_tip: Option<Oid>,
    merge_base: impl Fn(Oid, Oid) -> Option<Oid>,
) -> (target: ForkTarget)
    requires
        call_requires(merge_base, (selected, main_tip)),
        head_tip matches Some(h) ==> call_requires(merge_base, (selected, h)),
    ensures
        exists|main_base: Option<Oid>, head_base: Option<Oid>|
            {
                &&& #[trigger] call_ensures(merge_base, (selected, main_tip), main_base)
                &&& main_base == Some(selected) ==> match head_tip {
                    Some(h) => call_ensures(merge_base, (selected, h), head_base),
                    None => head_base is None,
                }
                &&& target == #[trigger] fork(selected, main_base, head_base)
            },
{
    let main_base = merge_base(selected, main_tip);
    let on_main = match main_base {
        Some(base) => base == selected,
        None => false,
    };
    let head_base = if on_main {
        match head_tip {
            Some(h) => merge_base(selected, h),
            None => None,
        }
    } else {
        None
    };
    let target = fork_of_bases(selected, main_base, head_base);
    assert(call_ensures(merge_base, (selected, main_tip), main_base));
    assert(target == fork(selected, main_base, head_base));
    target
}

/// A jump never ends where it began.
pub proof fn law_jump_moves(selected: Oid, main_base: Option<Oid>, head_base: Option<Oid>)
    ensures
        fork(selected, main_base, head_base) != ForkTarget::Jump(selected),
{
}

/// The main branch's newest commit is on the first row with a commit in the first
/// colour, and a commit is on the first row that holds it.
pub proof fn law_first_rows(nodes: Seq<NodeView>, oid: Oid)
    ensures
        match search::first_such(nodes.len() as int, is_main(nodes)) {
            Some(i) => 0 <= i < nodes.len() && nodes[i].commit is Some && nodes[i].color_index == 0 && forall|j: int|
                0 <= j < i ==> (#[trigger] nodes[j]).commit is None || nodes[j].color_index != 0,
            None => forall|j: int|
                0 <= j < nodes.len() ==> (#[trigger] nodes[j]).commit is None || nodes[j].color_index != 0,
        },
        match search::first_such(nodes.len() as int, holds(nodes, oid)) {
            Some(i) => 0 <= i < nodes.len() && nodes[i].commit is Some && (nodes[i].commit->0).oid == oid,
            None => forall|j: int|
                0 <= j < nodes.len() ==> (#[trigger] nodes[j]).commit is None || (nodes[j].commit->0).oid != oid,
        },
{
    let main = is_main(nodes);
    let held = holds(nodes, oid);
    search::lemma_first_such_holds(nodes.len() as int, main);
    search::lemma_first_such_holds(nodes.len() as int, held);
    let n = match search::first_such(nodes.len() as int, main) {
        Some(i) => i,
        None => nodes.len() as int,
    };
    assert forall|j: int| 0 <= j < n implies (#[trigger] nodes[j]).commit is None || nodes[j].color_index != 0 by {
        assert(!main(j));
    }
    if search::first_such(nodes.len() as int, held) is None {
        assert forall|j: int| 0 <= j < nodes.len() implies (#[trigger] nodes[j]).commit is None || (
        nodes[j].commit->0).oid != oid by {
            assert(!held(j));
        }
    }
}

/// The fork point is the merge base with the main branch, unless the selection is
/// that base itself: then it is the one with HEAD, unless that is the selection too.
pub proof fn law_fork_points(selected: Oid, base: Oid, head: Option<Oid>)
    ensures
        fork(selected, None, head) == ForkTarget::NoBase,
        base != selected ==> fork(selected, Some(base), head) == ForkTarget::Jump(base),
        head matches Some(h) && h != selected ==> fork(selected, Some(selected), head) == ForkTarget::Jump(head->0),
        head is None || head == Some(selected) ==> fork(selected, Some(selected), head) == ForkTarget::Linear,
{
}

} // verus!
