//! What HEAD's line is: the first-parent line through HEAD, and no more.
use crate::git::commit::CommitView;
use crate::git::graph::laws;
use crate::git::graph::line;
use crate::oid::Oid;
use vstd::prelude::*;

verus! {

/// The commit in row `j` is the first parent of the one in row `i`.
pub open spec fn follows(cs: Seq<CommitView>, i: int, j: int) -> bool {
    cs[i].parents.len() > 0 && cs[i].parents[0] == cs[j].oid
}

/// Every commit of the set stands in row `r` or below.
pub open spec fn from_row(cs: Seq<CommitView>, set: Set<Oid>, r: int) -> bool {
    forall|i: int| 0 <= i < cs.len() && set.contains((#[trigger] cs[i]).oid) ==> r <= i
}

proof fn lemma_first_parent(cs: Seq<CommitView>, i: int)
    requires
        laws::distinct(cs),
        laws::ordered(cs),
        cs.len() <= usize::MAX,
        0 <= i < cs.len(),
    ensures
        line::loaded(cs, cs[i].oid),
        match line::loaded_first_parent(cs, cs[i].oid) {
            Some(p) => exists|j: int|
                i < j < cs.len() && #[trigger] follows(cs, i, j) && cs[j].oid == p,
            None => forall|j: int| 0 <= j < cs.len() ==> !#[trigger] follows(cs, i, j),
        },
{
    assert(line::loaded(cs, cs[i].oid));
    line::lemma_rows(cs, cs[i].oid);
    assert(line::rows(cs)[cs[i].oid] == i);
    if let Some(p) = line::loaded_first_parent(cs, cs[i].oid) {
        let j = choose|j: int| 0 <= j < cs.len() && (#[trigger] cs[j]).oid == p;
        assert(cs[i].parents[0] == cs[j].oid);
        assert(follows(cs, i, j));
    }
}

proof fn lemma_down_from(cs: Seq<CommitView>, set: Set<Oid>, c: int, r: int)
    requires
        laws::distinct(cs),
        laws::ordered(cs),
        cs.len() <= usize::MAX,
        0 <= r <= c < cs.len(),
        from_row(cs, set, r),
    ensures
        from_row(cs, line::line_down(cs, set, cs[c].oid), r),
    decreases line::outside(cs, set),
{
    let cur = cs[c].oid;
    lemma_first_parent(cs, c);
    if !set.contains(cur) {
        line::lemma_outside_insert(cs, set, cur);
        assert(from_row(cs, set.insert(cur), r));
        if let Some(p) = line::loaded_first_parent(cs, cur) {
            let j = choose|j: int| c < j < cs.len() && #[trigger] follows(cs, c, j) && cs[j].oid == p;
            lemma_down_from(cs, set.insert(cur), j, r);
        }
    }
}

/// Going down from below row `r` never meets the commit in row `r`.
proof fn lemma_down_apart(cs: Seq<CommitView>, set: Set<Oid>, c: int, r: int)
    requires
        laws::distinct(cs),
        laws::ordered(cs),
        cs.len() <= usize::MAX,
        0 <= r < c < cs.len(),
    ensures
        line::line_down(cs, set.insert(cs[r].oid), cs[c].oid) == line::line_down(
            cs,
            set,
            cs[c].oid,
        ).insert(cs[r].oid),
    decreases line::outside(cs, set),
{
    let cur = cs[c].oid;
    let x = cs[r].oid;
    lemma_first_parent(cs, c);
    assert(cur != x);
    if !set.contains(cur) {
        line::lemma_outside_insert(cs, set, cur);
        line::lemma_outside_insert(cs, set.insert(x), cur);
        assert(set.insert(cur).insert(x) =~= set.insert(x).insert(cur));
        if let Some(p) = line::loaded_first_parent(cs, cur) {
            let j = choose|j: int| c < j < cs.len() && #[trigger] follows(cs, c, j) && cs[j].oid == p;
            lemma_down_apart(cs, set.insert(cur), j, r);
        }
    }
}

/// HEAD's line goes on up past HEAD: the topmost commit that has HEAD as its
/// first parent is on it, and the line through that commit is the same one. Where
/// there is no such commit, the line starts at HEAD.
pub proof fn law_heads_line_goes_on_up(cs: Seq<CommitView>, row: int, up: int)
    requires
        laws::distinct(cs),
        laws::ordered(cs),
        cs.len() <= usize::MAX,
        0 <= row < cs.len(),
        0 <= up <= cs.len(),
        up < cs.len() ==> follows(cs, up, row),
        forall|i: int| 0 <= i < up ==> !#[trigger] follows(cs, i, row),
    ensures
        up < cs.len() ==> line::head_line(cs, Some(cs[row].oid)) == line::head_line(
            cs,
            Some(cs[up].oid),
        ),
        up == cs.len() ==> from_row(cs, line::head_line(cs, Some(cs[row].oid)), row),
{
    let sel = cs[row].oid;
    let none = Set::<Oid>::empty();
    let down = line::line_down(cs, none, sel);
    lemma_first_parent(cs, row);
    lemma_down_from(cs, none, row, row);
    assert forall|i: int| 0 <= i < up implies !#[trigger] line::continues(cs, down, sel, i) by {
        assert(!follows(cs, i, row));
    }
    if up < cs.len() {
        let ch = cs[up].oid;
        assert(cs[up].parents[0] == cs[row].oid);
        assert(up < row);
        assert(!down.contains(ch));
        assert(line::continues_first(cs, down, sel, up));
        line::lemma_continuation_found(cs, down, sel, up);
        assert(line::line_up(cs, down, sel) == line::line_up(cs, down.insert(ch), ch));
        lemma_first_parent(cs, up);
        assert(line::loaded_first_parent(cs, ch) == Some(sel)) by {
            assert(follows(cs, up, row));
        }
        assert(line::line_down(cs, none, ch) == line::line_down(cs, none.insert(ch), sel));
        lemma_down_apart(cs, none, row, up);
    } else {
        assert(line::continuation(cs, down, sel) is None) by {
            if exists|i: int| line::continues_first(cs, down, sel, i) {
                let i = choose|i: int| line::continues_first(cs, down, sel, i);
                assert(line::continues_first(cs, down, sel, i));
                assert(line::continues(cs, down, sel, i));
            }
        }
        assert(line::head_line(cs, Some(sel)) == down);
    }
}

/// Two commits of the list are joined by a first-parent edge.
pub open spec fn adjacent(cs: Seq<CommitView>, i: int, j: int) -> bool {
    0 <= i < cs.len() && 0 <= j < cs.len() && (follows(cs, i, j) || follows(cs, j, i))
}

/// Every commit of the set besides `sel` is joined to another of the set.
spec fn grown(cs: Seq<CommitView>, set: Set<Oid>, sel: Oid) -> bool {
    forall|o: Oid| #[trigger] set.contains(o) ==> o == sel || held(cs, set, o)
}

/// The commit `o` is loaded and joined by a first-parent edge to one of the set.
pub open spec fn held(cs: Seq<CommitView>, set: Set<Oid>, o: Oid) -> bool {
    exists|i: int, j: int| #[trigger]
        adjacent(cs, i, j) && cs[i].oid == o && set.contains(cs[j].oid)
}

proof fn lemma_grown_insert(cs: Seq<CommitView>, set: Set<Oid>, sel: Oid, x: Oid)
    requires
        grown(cs, set, sel),
        x == sel || held(cs, set, x),
    ensures
        grown(cs, set.insert(x), sel),
{
    let more = set.insert(x);
    assert forall|o: Oid| #[trigger] more.contains(o) implies o == sel || held(cs, more, o) by {
        if o != sel {
            assert(held(cs, set, o));
            let (i, j) = choose|i: int, j: int| #[trigger]
                adjacent(cs, i, j) && cs[i].oid == o && set.contains(cs[j].oid);
            assert(adjacent(cs, i, j) && more.contains(cs[j].oid));
        }
    }
}

proof fn lemma_down_grown(cs: Seq<CommitView>, set: Set<Oid>, cur: Oid, sel: Oid)
    requires
        cs.len() <= usize::MAX,
        grown(cs, set, sel),
        cur == sel || held(cs, set, cur),
    ensures
        grown(cs, line::line_down(cs, set, cur), sel),
        set.subset_of(line::line_down(cs, set, cur)),
        line::loaded(cs, cur) ==> line::line_down(cs, set, cur).contains(cur),
    decreases line::outside(cs, set),
{
    if !set.contains(cur) && line::loaded(cs, cur) {
        line::lemma_outside_insert(cs, set, cur);
        lemma_grown_insert(cs, set, sel, cur);
        if let Some(p) = line::loaded_first_parent(cs, cur) {
            line::lemma_rows(cs, cur);
            let r = line::rows(cs)[cur] as int;
            let j = choose|j: int| 0 <= j < cs.len() && (#[trigger] cs[j]).oid == p;
            assert(follows(cs, r, j));
            assert(adjacent(cs, j, r));
            assert(held(cs, set.insert(cur), p));
            lemma_down_grown(cs, set.insert(cur), p, sel);
        }
    }
}

proof fn lemma_up_grown(cs: Seq<CommitView>, set: Set<Oid>, cur: Oid, sel: Oid)
    requires
        grown(cs, set, sel),
        set.contains(cur),
        line::loaded(cs, cur),
    ensures
        grown(cs, line::line_up(cs, set, cur), sel),
    decreases line::outside(cs, set),
{
    if let Some(ch) = line::continuation(cs, set, cur) {
        let k = choose|k: int| line::continues_first(cs, set, cur, k);
        assert(line::continues_first(cs, set, cur, k));
        assert(cs[k].oid == ch);
        let j = choose|j: int| 0 <= j < cs.len() && (#[trigger] cs[j]).oid == cur;
        assert(follows(cs, k, j));
        assert(adjacent(cs, k, j));
        assert(held(cs, set, ch));
        lemma_grown_insert(cs, set, sel, ch);
        line::lemma_outside_insert(cs, set, ch);
        lemma_up_grown(cs, set.insert(ch), ch, sel);
    }
}

/// Nothing strays onto HEAD's line: besides HEAD it holds only commits that a
/// first-parent edge joins to another commit on the line. Without a loaded HEAD
/// there is no line.
pub proof fn law_heads_line_does_not_stray(cs: Seq<CommitView>, head: Option<Oid>, o: Oid)
    requires
        cs.len() <= usize::MAX,
        line::head_line(cs, head).contains(o),
    ensures
        head is Some && line::loaded(cs, head->0),
        head == Some(o) || held(cs, line::head_line(cs, head), o),
{
    let sel = head->0;
    let none = Set::<Oid>::empty();
    lemma_down_grown(cs, none, sel, sel);
    lemma_up_grown(cs, line::line_down(cs, none, sel), sel, sel);
}

} // verus!
