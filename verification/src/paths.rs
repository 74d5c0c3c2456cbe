//! Repository paths as bytes, compared part by part, and sets of them.
use vstd::prelude::*;

use crate::sorting::Ranked;

verus! {

/// A copy of a path.
pub fn clone_path(path: &[u8]) -> (copy: Vec<u8>)
    ensures
        copy@ == path@,
{
    vstd::slice::slice_to_vec(path)
}

/// Lists of paths as mathematical values.
pub open spec fn path_list(v: Seq<Vec<u8>>) -> Seq<Seq<u8>> {
    v.map_values(|p: Vec<u8>| p@)
}

/// The parts of a path between slashes.
pub open spec fn segments(path: Seq<u8>) -> Seq<Seq<u8>>
    decreases path.len(),
{
    if path.len() == 0 {
        seq![Seq::<u8>::empty()]
    } else {
        let before = segments(path.drop_last());
        if path.last() == 47 {
            before.push(Seq::empty())
        } else {
            before.drop_last().push(before.last().push(path.last()))
        }
    }
}

/// The rank of a name in the order of paths: its bytes, each above the marks of
/// the other kinds of parts, then an end mark below everything.
pub open spec fn name_rank(name: Seq<u8>) -> Seq<u16> {
    name.map_values(|b: u8| (b + 4) as u16).push(0)
}

/// The rank of the part at `k`: an empty part and a dot count for nothing,
/// save a dot that starts a relative path.
pub open spec fn part_rank(part: Seq<u8>, k: int, absolute: bool) -> Seq<u16> {
    if part.len() == 0 {
        Seq::empty()
    } else if part == seq![46u8] {
        if k == 0 && !absolute {
            seq![2u16]
        } else {
            Seq::empty()
        }
    } else if part == seq![46u8, 46u8] {
        seq![3u16]
    } else {
        name_rank(part)
    }
}

/// The ranks of the first `n` parts.
pub open spec fn parts_rank(parts: Seq<Seq<u8>>, n: int, absolute: bool) -> Seq<u16>
    decreases n,
{
    if n <= 0 {
        Seq::empty()
    } else {
        parts_rank(parts, n - 1, absolute) + part_rank(parts[n - 1], n - 1, absolute)
    }
}

/// Whether a path starts at the root.
pub open spec fn is_absolute(path: Seq<u8>) -> bool {
    path.len() > 0 && path[0] == 47
}

/// What paths are compared by: part after part, whatever bytes a slash would
/// sort between. The root comes before a leading dot, that before two dots,
/// and those before names. Paths of the same rank are the same path: a slash at
/// the end, a doubled slash and a dot in the middle make no difference.
pub open spec fn path_rank(path: Seq<u8>) -> Seq<u16> {
    let body = parts_rank(segments(path), segments(path).len() as int, is_absolute(path));
    if is_absolute(path) {
        seq![1u16] + body
    } else {
        body
    }
}

/// Lexicographic order of ranks.
pub open spec fn rank_le(a: Seq<u16>, b: Seq<u16>) -> bool
    decreases a.len(),
{
    if a.len() == 0 {
        true
    } else if b.len() == 0 {
        false
    } else if a[0] == b[0] {
        rank_le(a.skip(1), b.skip(1))
    } else {
        a[0] < b[0]
    }
}

proof fn lemma_rank_total(a: Seq<u16>, b: Seq<u16>)
    ensures
        rank_le(a, b) || rank_le(b, a),
    decreases a.len(),
{
    if a.len() > 0 && b.len() > 0 && a[0] == b[0] {
        lemma_rank_total(a.skip(1), b.skip(1));
    }
}

proof fn lemma_rank_transitive(a: Seq<u16>, b: Seq<u16>, c: Seq<u16>)
    requires
        rank_le(a, b),
        rank_le(b, c),
    ensures
        rank_le(a, c),
    decreases a.len(),
{
    if a.len() > 0 && b.len() > 0 && c.len() > 0 && a[0] == b[0] && b[0] == c[0] {
        lemma_rank_transitive(a.skip(1), b.skip(1), c.skip(1));
    }
}

fn rank_not_after(a: &Vec<u16>, b: &Vec<u16>) -> (yes: bool)
    ensures
        yes == rank_le(a@, b@),
{
    let mut i: usize = 0;
    assert(a@.skip(0) =~= a@);
    assert(b@.skip(0) =~= b@);
    while i < a.len() && i < b.len() && a[i] == b[i]
        invariant
            0 <= i <= a.len(),
            i <= b.len(),
            rank_le(a@, b@) == rank_le(a@.skip(i as int), b@.skip(i as int)),
        decreases a.len() - i,
    {
        assert(a@.skip(i as int).skip(1) =~= a@.skip(i + 1));
        assert(b@.skip(i as int).skip(1) =~= b@.skip(i + 1));
        i = i + 1;
    }
    if i >= a.len() {
        true
    } else if i >= b.len() {
        false
    } else {
        a[i] < b[i]
    }
}

fn segments_of(path: &[u8]) -> (parts: Vec<Vec<u8>>)
    ensures
        path_list(parts@) == segments(path@),
{
    let mut parts: Vec<Vec<u8>> = Vec::new();
    let mut last: Vec<u8> = Vec::new();
    let mut i: usize = 0;
    assert(path@.take(0) =~= Seq::empty());
    assert(path_list(parts@).push(last@) =~= seq![Seq::<u8>::empty()]);
    while i < path.len()
        invariant
            0 <= i <= path.len(),
            path_list(parts@).push(last@) == segments(path@.take(i as int)),
        decreases path.len() - i,
    {
        assert(path@.take(i + 1).drop_last() =~= path@.take(i as int));
        let ghost before = path_list(parts@);
        let ghost word = last@;
        if path[i] == 47 {
            parts.push(last);
            assert(path_list(parts@) =~= before.push(word));
            last = Vec::new();
            assert(last@ =~= Seq::<u8>::empty());
        } else {
            last.push(path[i]);
            assert(before.push(word).drop_last() =~= before);
        }
        i = i + 1;
    }
    assert(path@.take(i as int) =~= path@);
    let ghost before = path_list(parts@);
    let ghost word = last@;
    parts.push(last);
    assert(path_list(parts@) =~= before.push(word));
    parts
}

fn push_part(out: &mut Vec<u16>, part: &Vec<u8>, k: usize, absolute: bool)
    ensures
        final(out)@ == old(out)@ + part_rank(part@, k as int, absolute),
{
    if part.len() == 0 {
        assert(out@ =~= old(out)@ + Seq::empty());
        return;
    }
    if part.len() == 1 && part[0] == 46 {
        assert(part@ =~= seq![46u8]);
        if k == 0 && !absolute {
            out.push(2);
            assert(out@ =~= old(out)@ + seq![2u16]);
        } else {
            assert(out@ =~= old(out)@ + Seq::empty());
        }
        return;
    }
    if part.len() == 2 && part[0] == 46 && part[1] == 46 {
        assert(part@ =~= seq![46u8, 46u8]);
        out.push(3);
        assert(out@ =~= old(out)@ + seq![3u16]);
        return;
    }
    let ghost ranks = part@.map_values(|b: u8| (b + 4) as u16);
    let mut i: usize = 0;
    assert(out@ =~= old(out)@ + ranks.take(0));
    while i < part.len()
        invariant
            0 <= i <= part.len(),
            ranks == part@.map_values(|b: u8| (b + 4) as u16),
            out@ == old(out)@ + ranks.take(i as int),
        decreases part.len() - i,
    {
        out.push(part[i] as u16 + 4);
        assert(out@ =~= old(out)@ + ranks.take(i + 1));
        i = i + 1;
    }
    out.push(0);
    assert(out@ =~= old(out)@ + ranks.push(0));
}

fn rank_of(path: &[u8]) -> (rank: Vec<u16>)
    ensures
        rank@ == path_rank(path@),
{
    let parts = segments_of(path);
    let absolute = path.len() > 0 && path[0] == 47;
    let mut rank: Vec<u16> = Vec::new();
    if absolute {
        rank.push(1);
    }
    let ghost head = rank@;
    let ghost all = segments(path@);
    let mut i: usize = 0;
    assert(rank@ =~= head + parts_rank(all, 0, absolute));
    while i < parts.len()
        invariant
            0 <= i <= parts.len(),
            all == path_list(parts@),
            rank@ == head + parts_rank(all, i as int, absolute),
        decreases parts.len() - i,
    {
        assert(all[i as int] == parts@[i as int]@);
        push_part(&mut rank, &parts[i], i, absolute);
        assert(rank@ =~= head + parts_rank(all, i + 1, absolute));
        i = i + 1;
    }
    assert(absolute ==> head =~= seq![1u16]);
    assert(!absolute ==> head =~= Seq::empty());
    assert(rank@ =~= path_rank(path@));
    rank
}

impl Ranked for Vec<u8> {
    open spec fn le(a: Seq<u8>, b: Seq<u8>) -> bool {
        rank_le(path_rank(a), path_rank(b))
    }

    proof fn le_total(a: Seq<u8>, b: Seq<u8>) {
        lemma_rank_total(path_rank(a), path_rank(b));
    }

    proof fn le_transitive(a: Seq<u8>, b: Seq<u8>, c: Seq<u8>) {
        lemma_rank_transitive(path_rank(a), path_rank(b), path_rank(c));
    }

    fn not_after(&self, other: &Vec<u8>) -> (yes: bool) {
        let a = rank_of(self.as_slice());
        let b = rank_of(other.as_slice());
        rank_not_after(&a, &b)
    }
}

/// Whether two ranks are equal.
fn same_rank(a: &[u16], b: &[u16]) -> (same: bool)
    ensures
        same == (a@ == b@),
{
    if a.len() != b.len() {
        return false;
    }
    let mut i: usize = 0;
    while i < a.len()
        invariant
            0 <= i <= a.len(),
            a.len() == b.len(),
            forall|j: int| 0 <= j < i ==> a@[j] == b@[j],
        decreases a.len() - i,
    {
        if a[i] != b[i] {
            return false;
        }
        i = i + 1;
    }
    assert(a@ =~= b@);
    true
}

/// Whether two paths are the same, part by part.
pub fn same_path(a: &[u8], b: &[u8]) -> (same: bool)
    ensures
        same == (path_rank(a@) == path_rank(b@)),
{
    same_rank(rank_of(a).as_slice(), rank_of(b).as_slice())
}

/// Lists of ranks as mathematical values.
spec fn rank_list(v: Seq<Vec<u16>>) -> Seq<Seq<u16>> {
    v.map_values(|r: Vec<u16>| r@)
}

/// A set of paths, in which paths that are the same part by part are one.
#[derive(Debug)]
pub struct PathSet {
    ranks: Vec<Vec<u16>>,
}

impl View for PathSet {
    type V = Set<Seq<u16>>;

    /// The ranks of the paths.
    closed spec fn view(&self) -> Set<Seq<u16>> {
        rank_list(self.ranks@).to_set()
    }
}

proof fn lemma_rank_set_push(s: Seq<Seq<u16>>, rank: Seq<u16>)
    ensures
        s.push(rank).to_set() == s.to_set().insert(rank),
{
    assert forall|x: Seq<u16>| s.push(rank).to_set().contains(x) == s.to_set().insert(
        rank,
    ).contains(x) by {
        if s.contains(x) {
            let i = choose|i: int| 0 <= i < s.len() && s[i] == x;
            assert(s.push(rank)[i] == x);
        }
        assert(s.push(rank)[s.len() as int] == rank);
    }
    assert(s.push(rank).to_set() =~= s.to_set().insert(rank));
}

impl PathSet {
    #[verifier::type_invariant]
    spec fn distinct(self) -> bool {
        rank_list(self.ranks@).no_duplicates()
    }

    /// The empty set.
    pub fn new() -> (s: PathSet)
        ensures
            s@ == Set::<Seq<u16>>::empty(),
    {
        let s = PathSet { ranks: Vec::new() };
        assert(rank_list(s.ranks@) =~= Seq::<Seq<u16>>::empty());
        assert(s@ =~= Set::<Seq<u16>>::empty());
        s
    }

    fn has_rank(&self, rank: &[u16]) -> (found: bool)
        ensures
            found == self@.contains(rank@),
    {
        let mut i: usize = 0;
        while i < self.ranks.len()
            invariant
                0 <= i <= self.ranks.len(),
                forall|j: int| 0 <= j < i ==> rank_list(self.ranks@)[j] != rank@,
            decreases self.ranks.len() - i,
        {
            assert(rank_list(self.ranks@)[i as int] == self.ranks@[i as int]@);
            if same_rank(self.ranks[i].as_slice(), rank) {
                return true;
            }
            i = i + 1;
        }
        false
    }

    fn insert_rank(&mut self, rank: Vec<u16>) -> (new: bool)
        ensures
            new == !old(self)@.contains(rank@),
            final(self)@ == old(self)@.insert(rank@),
    {
        proof {
            use_type_invariant(&*self);
        }
        if self.has_rank(rank.as_slice()) {
            assert(self@ =~= self@.insert(rank@));
            return false;
        }
        let mut ranks: Vec<Vec<u16>> = Vec::new();
        std::mem::swap(&mut ranks, &mut self.ranks);
        let ghost before = rank_list(ranks@);
        proof {
            lemma_rank_set_push(before, rank@);
            assert(!before.contains(rank@));
        }
        ranks.push(rank);
        assert(rank_list(ranks@) =~= before.push(rank@));
        self.ranks = ranks;
        true
    }

    /// Whether `path` is in the set.
    pub fn contains(&self, path: &[u8]) -> (found: bool)
        ensures
            found == self@.contains(path_rank(path@)),
    {
        self.has_rank(rank_of(path).as_slice())
    }

    /// Add `path`; whether it was new.
    pub fn insert(&mut self, path: &[u8]) -> (new: bool)
        ensures
            new == !old(self)@.contains(path_rank(path@)),
            final(self)@ == old(self)@.insert(path_rank(path@)),
    {
        self.insert_rank(rank_of(path))
    }

    /// Add every path of another set.
    pub fn extend(&mut self, other: &PathSet)
        ensures
            final(self)@ == old(self)@.union(other@),
    {
        let ghost list = rank_list(other.ranks@);
        let ghost start = self@;
        let mut i: usize = 0;
        assert(self@ =~= start.union(list.take(0).to_set()));
        while i < other.ranks.len()
            invariant
                0 <= i <= other.ranks.len(),
                list == rank_list(other.ranks@),
                self@ == start.union(list.take(i as int).to_set()),
            decreases other.ranks.len() - i,
        {
            assert(list[i as int] == other.ranks@[i as int]@);
            self.insert_rank(vstd::slice::slice_to_vec(other.ranks[i].as_slice()));
            proof {
                lemma_rank_set_push(list.take(i as int), list[i as int]);
                assert(list.take(i as int).push(list[i as int]) =~= list.take(i + 1));
                assert(self@ =~= start.union(list.take(i + 1).to_set()));
            }
            i = i + 1;
        }
        assert(list.take(i as int) =~= list);
    }

    /// The paths in both sets.
    pub fn intersection(&self, other: &PathSet) -> (both: PathSet)
        ensures
            both@ == self@.intersect(other@),
    {
        let ghost list = rank_list(self.ranks@);
        let mut both = PathSet::new();
        let mut i: usize = 0;
        assert(both@ =~= list.take(0).to_set().intersect(other@));
        while i < self.ranks.len()
            invariant
                0 <= i <= self.ranks.len(),
                list == rank_list(self.ranks@),
                both@ == list.take(i as int).to_set().intersect(other@),
            decreases self.ranks.len() - i,
        {
            assert(list[i as int] == self.ranks@[i as int]@);
            if other.has_rank(self.ranks[i].as_slice()) {
                both.insert_rank(vstd::slice::slice_to_vec(self.ranks[i].as_slice()));
            }
            proof {
                lemma_rank_set_push(list.take(i as int), list[i as int]);
                assert(list.take(i as int).push(list[i as int]) =~= list.take(i + 1));
                assert(both@ =~= list.take(i + 1).to_set().intersect(other@));
            }
            i = i + 1;
        }
        assert(list.take(i as int) =~= list);
        both
    }

    /// How many paths the set holds.
    pub fn len(&self) -> (n: usize)
        ensures
            n == self@.len(),
            self@.finite(),
    {
        proof {
            use_type_invariant(self);
            rank_list(self.ranks@).unique_seq_to_set();
            vstd::seq_lib::seq_to_set_is_finite(rank_list(self.ranks@));
        }
        self.ranks.len()
    }
}

proof fn lemma_segments_some(path: Seq<u8>)
    ensures
        segments(path).len() >= 1,
    decreases path.len(),
{
    if path.len() > 0 {
        lemma_segments_some(path.drop_last());
    }
}

/// A name without a slash behind a slash is one more part.
proof fn lemma_segments_join(d: Seq<u8>, x: Seq<u8>)
    requires
        !x.contains(47u8),
    ensures
        segments(d.push(47) + x) == segments(d).push(x),
    decreases x.len(),
{
    let whole = d.push(47) + x;
    if x.len() == 0 {
        assert(whole =~= d.push(47));
        assert(whole.drop_last() =~= d);
        assert(x =~= Seq::<u8>::empty());
    } else {
        let y = x.drop_last();
        assert(!y.contains(47u8)) by {
            if y.contains(47u8) {
                let k = choose|k: int| 0 <= k < y.len() && y[k] == 47u8;
                assert(x[k] == 47u8);
            }
        }
        lemma_segments_join(d, y);
        assert(whole.drop_last() =~= d.push(47) + y);
        assert(whole.last() == x.last());
        assert(x[x.len() - 1] != 47u8);
        let before = segments(d).push(y);
        assert(before.drop_last() =~= segments(d));
        assert(y.push(x.last()) =~= x);
    }
}

proof fn lemma_parts_rank_push(parts: Seq<Seq<u8>>, x: Seq<u8>, n: int, absolute: bool)
    requires
        0 <= n <= parts.len(),
    ensures
        parts_rank(parts.push(x), n, absolute) == parts_rank(parts, n, absolute),
    decreases n,
{
    if n > 0 {
        lemma_parts_rank_push(parts, x, n - 1, absolute);
    }
}

proof fn lemma_rank_join(d: Seq<u8>, x: Seq<u8>)
    requires
        d.len() > 0,
        !x.contains(47u8),
    ensures
        path_rank(d.push(47) + x) == path_rank(d) + part_rank(x, segments(d).len() as int, is_absolute(d)),
{
    let whole = d.push(47) + x;
    assert(whole[0] == d[0]);
    lemma_segments_join(d, x);
    let n = segments(d).len() as int;
    lemma_parts_rank_push(segments(d), x, n, is_absolute(d));
    assert(segments(d).push(x)[n] == x);
    let body = parts_rank(segments(d), n, is_absolute(d));
    let last = part_rank(x, n, is_absolute(d));
    assert(parts_rank(segments(whole), n + 1, is_absolute(d)) == body + last);
    if is_absolute(d) {
        assert(seq![1u16] + (body + last) =~= (seq![1u16] + body) + last);
    }
}

/// Paths are the same by their parts: a slash at the end, doubled slashes and a
/// dot behind a slash change nothing, two dots are a part of their own, and a
/// name behind a slash adds its bytes, each raised above what marks the other
/// parts and the end.
pub proof fn law_paths_are_ranked_by_their_parts(d: Seq<u8>, x: Seq<u8>)
    requires
        d.len() > 0,
        x.len() > 0,
        !x.contains(47u8),
        x != seq![46u8],
        x != seq![46u8, 46u8],
    ensures
        path_rank(d.push(47)) == path_rank(d),
        path_rank(d.push(47) + seq![46u8]) == path_rank(d),
        path_rank(d.push(47) + seq![46u8, 46u8]) == path_rank(d).push(3),
        ({
            let whole = path_rank(d.push(47) + x);
            let start = path_rank(d).len() as int;
            &&& whole.len() == start + x.len() + 1
            &&& whole.take(start) == path_rank(d)
            &&& forall|k: int| 0 <= k < x.len() ==> #[trigger] whole[start + k] == x[k] + 4
            &&& whole.last() == 0
        }),
{
    lemma_segments_some(d);
    let n = segments(d).len() as int;
    let none = Seq::<u8>::empty();
    assert(!none.contains(47u8));
    assert(d.push(47) + none =~= d.push(47));
    lemma_rank_join(d, none);
    assert(path_rank(d) + Seq::<u16>::empty() =~= path_rank(d));
    let dot = seq![46u8];
    assert(!dot.contains(47u8));
    lemma_rank_join(d, dot);
    let dots = seq![46u8, 46u8];
    assert(!dots.contains(47u8));
    assert(dots.len() == 2 && dot.len() == 1);
    lemma_rank_join(d, dots);
    assert(path_rank(d) + seq![3u16] =~= path_rank(d).push(3));
    lemma_rank_join(d, x);
    let whole = path_rank(d.push(47) + x);
    assert(whole == path_rank(d) + name_rank(x));
    assert(whole.take(path_rank(d).len() as int) =~= path_rank(d));
    assert forall|k: int| 0 <= k < x.len() implies #[trigger] whole[path_rank(d).len() + k] == x[k] + 4 by {
        assert(name_rank(x)[k] == (x[k] + 4) as u16);
    }
}

/// The shortest paths: the root, nothing, here, the one above, and a name.
pub proof fn law_paths_of_one_part(x: Seq<u8>)
    requires
        x.len() > 0,
        !x.contains(47u8),
        x != seq![46u8],
        x != seq![46u8, 46u8],
    ensures
        path_rank(seq![47u8]) == seq![1u16],
        path_rank(Seq::empty()) == Seq::<u16>::empty(),
        path_rank(seq![46u8]) == seq![2u16],
        path_rank(seq![46u8, 46u8]) == seq![3u16],
        path_rank(x).len() == x.len() + 1,
        forall|k: int| 0 <= k < x.len() ==> #[trigger] path_rank(x)[k] == x[k] + 4,
        path_rank(x).last() == 0,
{
    reveal_with_fuel(parts_rank, 3);
    let none = Seq::<u8>::empty();
    assert(segments(none) == seq![none]);
    let root = seq![47u8];
    assert(root.drop_last() =~= none);
    assert(segments(root) == seq![none].push(none));
    assert(path_rank(root) =~= seq![1u16]);
    lemma_one_segment(x);
    lemma_one_segment(seq![46u8]);
    lemma_one_segment(seq![46u8, 46u8]);
    assert(seq![46u8].len() == 1 && seq![46u8, 46u8].len() == 2);
    assert(x[0] != 47u8);
    assert(path_rank(x) =~= name_rank(x));
    assert(path_rank(seq![46u8]) =~= seq![2u16]);
    assert(path_rank(seq![46u8, 46u8]) =~= seq![3u16]);
}

proof fn lemma_one_segment(x: Seq<u8>)
    requires
        !x.contains(47u8),
    ensures
        segments(x) == seq![x],
    decreases x.len(),
{
    if x.len() > 0 {
        let y = x.drop_last();
        assert(!y.contains(47u8)) by {
            if y.contains(47u8) {
                let k = choose|k: int| 0 <= k < y.len() && y[k] == 47u8;
                assert(x[k] == 47u8);
            }
        }
        lemma_one_segment(y);
        assert(x[x.len() - 1] != 47u8);
        assert(seq![y].drop_last() =~= Seq::<Seq<u8>>::empty());
        assert(y.push(x.last()) =~= x);
        assert(segments(x) =~= seq![x]);
    } else {
        assert(x =~= Seq::<u8>::empty());
    }
}

/// Ranks are compared at the first place where they differ; one that goes on
/// behind the end of another comes later.
pub proof fn law_order_of_ranks(same: Seq<u16>, a: Seq<u16>, b: Seq<u16>)
    ensures
        rank_le(same, same + b),
        a.len() > 0 && b.len() > 0 && a[0] != b[0] ==> rank_le(same + a, same + b) == (a[0] < b[0]),
        a.len() > 0 ==> !rank_le(same + a, same),
    decreases same.len(),
{
    if same.len() > 0 {
        let rest = same.skip(1);
        law_order_of_ranks(rest, a, b);
        assert((same + a).skip(1) =~= rest + a);
        assert((same + b).skip(1) =~= rest + b);
    } else {
        assert(same + a =~= a);
        assert(same + b =~= b);
    }
}

} // verus!
