//! Rows by id, and the first-parent line through HEAD.
pub mod laws;

use crate::git::commit;
use crate::git::commit::{CommitInfo, CommitView};
use crate::oid;
use crate::oid::{Oid, OidMap, OidSet};
use vstd::prelude::*;

verus! {

/// The row of each loaded commit; the last one wins if an id occurs twice.
pub open spec fn rows(cs: Seq<CommitView>) -> Map<Oid, usize> {
    oid::log_map(row_log(cs))
}

pub open spec fn row_log(cs: Seq<CommitView>) -> Seq<(Oid, usize)> {
    Seq::new(cs.len(), |i: int| (cs[i].oid, i as usize))
}

/// Whether `oid` is the id of a loaded commit.
pub open spec fn loaded(cs: Seq<CommitView>, oid: Oid) -> bool {
    exists|i: int| 0 <= i < cs.len() && (#[trigger] cs[i]).oid == oid
}

pub proof fn lemma_rows(cs: Seq<CommitView>, oid: Oid)
    requires
        cs.len() <= usize::MAX,
    ensures
        rows(cs).dom().contains(oid) <==> loaded(cs, oid),
        loaded(cs, oid) ==> rows(cs)[oid] < cs.len() && cs[rows(cs)[oid] as int].oid == oid
            && forall|j: int| rows(cs)[oid] < j < cs.len() ==> (#[trigger] cs[j]).oid != oid,
    decreases cs.len(),
{
    if cs.len() > 0 {
        let rest = cs.drop_last();
        lemma_rows(rest, oid);
        assert(row_log(cs).drop_last() =~= row_log(rest));
        if loaded(rest, oid) {
            let i = choose|i: int| 0 <= i < rest.len() && (#[trigger] rest[i]).oid == oid;
            assert(cs[i].oid == oid);
        }
        if loaded(cs, oid) && cs.last().oid != oid {
            let i = choose|i: int| 0 <= i < cs.len() && (#[trigger] cs[i]).oid == oid;
            assert(rest[i].oid == oid);
            assert forall|j: int| rows(cs)[oid] < j < cs.len() implies (#[trigger] cs[j]).oid
                != oid by {
                if j < rest.len() {
                    assert(rest[j].oid != oid);
                }
            }
        }
    }
}

/// The map from ids to rows.
pub fn row_map(commits: &[CommitInfo]) -> (m: OidMap<usize>)
    ensures
        m@ == rows(commit::commits_view(commits@)),
{
    let ghost cs = commit::commits_view(commits@);
    let mut m: OidMap<usize> = OidMap::new();
    let mut i: usize = 0;
    while i < commits.len()
        invariant
            0 <= i <= commits.len(),
            cs == commit::commits_view(commits@),
            m@ == oid::log_map(row_log(cs).take(i as int)),
        decreases commits.len() - i,
    {
        m.insert(commits[i].oid, i);
        proof {
            let log = row_log(cs);
            assert(log.take(i + 1).drop_last() =~= log.take(i as int));
            assert(log.take(i + 1).last() == log[i as int]);
        }
        i = i + 1;
    }
    assert(row_log(cs).take(i as int) =~= row_log(cs));
    m
}

/// The first parent of a loaded commit, when that is loaded too.
pub open spec fn loaded_first_parent(cs: Seq<CommitView>, oid: Oid) -> Option<Oid> {
    let parents = cs[rows(cs)[oid] as int].parents;
    if parents.len() > 0 && loaded(cs, parents[0]) {
        Some(parents[0])
    } else {
        None
    }
}

/// How many commits lie outside `line`.
pub open spec fn outside(cs: Seq<CommitView>, line: Set<Oid>) -> nat
    decreases cs.len(),
{
    if cs.len() == 0 {
        0
    } else {
        outside(cs.drop_last(), line) + (if line.contains(cs.last().oid) {
            0nat
        } else {
            1nat
        })
    }
}

pub proof fn lemma_outside_insert(cs: Seq<CommitView>, line: Set<Oid>, oid: Oid)
    ensures
        outside(cs, line.insert(oid)) <= outside(cs, line),
        loaded(cs, oid) && !line.contains(oid) ==> outside(cs, line.insert(oid)) < outside(
            cs,
            line,
        ),
    decreases cs.len(),
{
    if cs.len() > 0 {
        let rest = cs.drop_last();
        lemma_outside_insert(rest, line, oid);
        if loaded(cs, oid) && cs.last().oid != oid {
            let i = choose|i: int| 0 <= i < cs.len() && (#[trigger] cs[i]).oid == oid;
            assert(rest[i].oid == oid);
        }
    }
}

/// `line` with `cur` and its first-parent ancestors, while they stay loaded and
/// until one is already there.
pub open spec fn line_down(cs: Seq<CommitView>, line: Set<Oid>, cur: Oid) -> Set<Oid>
    decreases outside(cs, line),
{
    if line.contains(cur) || !loaded(cs, cur) {
        line
    } else {
        proof {
            lemma_outside_insert(cs, line, cur);
        }
        match loaded_first_parent(cs, cur) {
            Some(p) => line_down(cs, line.insert(cur), p),
            None => line.insert(cur),
        }
    }
}

/// The commit in row `i` goes on from `cur` by its first parent and is not on
/// `line` yet.
pub open spec fn continues(cs: Seq<CommitView>, line: Set<Oid>, cur: Oid, i: int) -> bool {
    &&& 0 <= i < cs.len()
    &&& cs[i].parents.len() > 0
    &&& cs[i].parents[0] == cur
    &&& !line.contains(cs[i].oid)
}

/// Row `i` is the first that [`continues`].
pub open spec fn continues_first(cs: Seq<CommitView>, line: Set<Oid>, cur: Oid, i: int) -> bool {
    &&& continues(cs, line, cur, i)
    &&& forall|j: int| 0 <= j < i ==> !continues(cs, line, cur, j)
}

/// The newest commit that continues the line upward from `cur`.
pub open spec fn continuation(cs: Seq<CommitView>, line: Set<Oid>, cur: Oid) -> Option<Oid> {
    if exists|i: int| continues_first(cs, line, cur, i) {
        Some(cs[choose|i: int| continues_first(cs, line, cur, i)].oid)
    } else {
        None
    }
}

pub proof fn lemma_continuation_found(cs: Seq<CommitView>, line: Set<Oid>, cur: Oid, i: int)
    requires
        continues_first(cs, line, cur, i),
    ensures
        continuation(cs, line, cur) == Some(cs[i].oid),
{
    let k = choose|k: int| continues_first(cs, line, cur, k);
    assert(continues_first(cs, line, cur, k));
    if k < i {
        assert(!continues(cs, line, cur, k));
    } else if i < k {
        assert(!continues(cs, line, cur, i));
    }
}

/// `line` with the descendants that continue it upward from `cur`.
pub open spec fn line_up(cs: Seq<CommitView>, line: Set<Oid>, cur: Oid) -> Set<Oid>
    decreases outside(cs, line),
{
    match continuation(cs, line, cur) {
        Some(ch) => {
            proof {
                let k = choose|k: int| continues_first(cs, line, cur, k);
                assert(cs[k].oid == ch);
                lemma_outside_insert(cs, line, ch);
            }
            line_up(cs, line.insert(ch), ch)
        },
        None => line,
    }
}

/// The first-parent line through HEAD: HEAD, its first-parent ancestors, and
/// the descendants that go on by their first parents. Empty when HEAD is
/// unknown or not loaded.
pub open spec fn head_line(cs: Seq<CommitView>, head: Option<Oid>) -> Set<Oid> {
    if head is Some && loaded(cs, head->0) {
        line_up(cs, line_down(cs, Set::empty(), head->0), head->0)
    } else {
        Set::empty()
    }
}

/// Add `start` and its first-parent ancestors to `line`, while they stay loaded
/// and until one is already there.
pub fn extend_down(
    commits: &[CommitInfo],
    oid_to_row: &OidMap<usize>,
    line: &mut OidSet,
    start: Oid,
)
    requires
        oid_to_row@ == rows(commit::commits_view(commits@)),
    ensures
        final(line)@ == line_down(commit::commits_view(commits@), old(line)@, start),
{
    let ghost cs = commit::commits_view(commits@);
    let ghost line0 = line@;
    let count: usize = commits.len();
    let mut cur = start;
    loop
        invariant
            cs == commit::commits_view(commits@),
            cs.len() <= usize::MAX,
            oid_to_row@ == rows(cs),
            line_down(cs, line@, cur) == line_down(cs, line0, start),
        ensures
            line@ == line_down(cs, line0, start),
        decreases outside(cs, line@),
    {
        proof {
            lemma_rows(cs, cur);
            lemma_outside_insert(cs, line@, cur);
        }
        let row: usize = match oid_to_row.get(&cur) {
            Some(r) => r,
            None => {
                break;
            },
        };
        if !line.insert(cur) {
            assert(line@ =~= line@.insert(cur));
            break;
        }
        let parents = &commits[row].parent_oids;
        assert(cs[row as int] == commits@[row as int]@);
        if parents.len() == 0 {
            break;
        }
        let p = parents[0];
        proof {
            lemma_rows(cs, p);
        }
        if !oid_to_row.contains_key(&p) {
            break;
        }
        cur = p;
    }
}

/// The first-parent line through HEAD among the loaded commits: the run of
/// commits pinned to lane 0.
///
/// The upward walk matters when a branch is fast-forwarded ahead of HEAD: its
/// newer commits share HEAD's line instead of shoving HEAD's tip off lane 0.
/// When two children share a first parent, the newest wins.
pub fn head_first_parent_line(
    commits: &[CommitInfo],
    oid_to_row: &OidMap<usize>,
    head_oid: Option<Oid>,
) -> (line: OidSet)
    requires
        oid_to_row@ == rows(commit::commits_view(commits@)),
    ensures
        line@ == head_line(commit::commits_view(commits@), head_oid),
{
    let ghost cs = commit::commits_view(commits@);
    let mut line = OidSet::new();
    let head = match head_oid {
        Some(h) => h,
        None => {
            return line;
        },
    };
    let count: usize = commits.len();
    proof {
        lemma_rows(cs, head);
    }
    if !oid_to_row.contains_key(&head) {
        return line;
    }
    extend_down(commits, oid_to_row, &mut line, head);
    let mut cur = head;
    loop
        invariant
            cs == commit::commits_view(commits@),
            line_up(cs, line@, cur) == line_up(cs, line_down(cs, Set::empty(), head), head),
        ensures
            line@ == line_up(cs, line_down(cs, Set::empty(), head), head),
        decreases outside(cs, line@),
    {
        let mut child: Option<Oid> = None;
        let mut i: usize = 0;
        while i < commits.len()
            invariant_except_break
                child is None,
            invariant
                0 <= i <= commits.len(),
                cs == commit::commits_view(commits@),
                forall|j: int| 0 <= j < i ==> !continues(cs, line@, cur, j),
            ensures
                child is None ==> forall|j: int| !continues(cs, line@, cur, j),
                child is Some ==> continuation(cs, line@, cur) == child && loaded(cs, child->0)
                    && !line@.contains(child->0),
            decreases commits.len() - i,
        {
            let c = &commits[i];
            assert(cs[i as int] == commits@[i as int]@);
            if c.parent_oids.len() > 0 && c.parent_oids[0] == cur && !line.contains(&c.oid) {
                child = Some(c.oid);
                proof {
                    assert(continues_first(cs, line@, cur, i as int));
                    lemma_continuation_found(cs, line@, cur, i as int);
                }
                break;
            }
            i = i + 1;
        }
        match child {
            Some(ch) => {
                proof {
                    lemma_outside_insert(cs, line@, ch);
                }
                line.insert(ch);
                cur = ch;
            },
            None => {
                break;
            },
        }
    }
    line
}

} // verus!
