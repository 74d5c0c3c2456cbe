//! Stable sorting.
use vstd::prelude::*;

verus! {

/// Values with an order. `le` is a total preorder on their views.
pub trait Ranked: View + Sized {
    /// Whether `a` may stand before `b`.
    spec fn le(a: Self::V, b: Self::V) -> bool;

    proof fn le_total(a: Self::V, b: Self::V)
        ensures
            Self::le(a, b) || Self::le(b, a),
    ;

    proof fn le_transitive(a: Self::V, b: Self::V, c: Self::V)
        requires
            Self::le(a, b),
            Self::le(b, c),
        ensures
            Self::le(a, c),
    ;

    /// Whether this value may stand before the other.
    fn not_after(&self, other: &Self) -> (yes: bool)
        ensures
            yes == Self::le(self@, other@),
    ;
}

/// The views of some values.
pub open spec fn views<T: View>(s: Seq<T>) -> Seq<T::V> {
    s.map_values(|x: T| x@)
}

/// `x` put into `s` behind everything that may stand before it.
pub open spec fn put<T: Ranked>(s: Seq<T::V>, x: T::V) -> Seq<T::V>
    decreases s.len(),
{
    if s.len() == 0 || T::le(s.last(), x) {
        s.push(x)
    } else {
        put::<T>(s.drop_last(), x).push(s.last())
    }
}

/// `s` sorted: each value is put in turn behind everything that may stand
/// before it, so equal values keep their order.
pub open spec fn sorted<T: Ranked>(s: Seq<T::V>) -> Seq<T::V>
    decreases s.len(),
{
    if s.len() == 0 {
        s
    } else {
        put::<T>(sorted::<T>(s.drop_last()), s.last())
    }
}

/// Every value may stand before all later ones.
pub open spec fn ascending<T: Ranked>(s: Seq<T::V>) -> bool {
    forall|i: int, j: int| 0 <= i < j < s.len() ==> #[trigger] T::le(s[i], s[j])
}

proof fn lemma_put<T: Ranked>(s: Seq<T::V>, x: T::V)
    requires
        ascending::<T>(s),
    ensures
        ascending::<T>(put::<T>(s, x)),
        put::<T>(s, x).len() == s.len() + 1,
        put::<T>(s, x).to_multiset() == s.to_multiset().insert(x),
        forall|i: int|
            0 <= i <= s.len() ==> #[trigger] put::<T>(s, x)[i] == x || (exists|j: int|
                0 <= j < s.len() && #[trigger] s[j] == put::<T>(s, x)[i]),
    decreases s.len(),
{
    broadcast use vstd::seq_lib::group_to_multiset_ensures;

    if s.len() == 0 || T::le(s.last(), x) {
        let r = s.push(x);
        assert forall|i: int, j: int| 0 <= i < j < r.len() implies #[trigger] T::le(r[i], r[j]) by {
            if j < s.len() {
                assert(T::le(s[i], s[j]));
            } else if i == s.len() - 1 {
            } else {
                assert(T::le(s[i], s[s.len() - 1]));
                T::le_transitive(s[i], s.last(), x);
            }
        }
        assert forall|i: int| 0 <= i <= s.len() implies #[trigger] r[i] == x || (exists|j: int|
            0 <= j < s.len() && #[trigger] s[j] == r[i]) by {
            if i < s.len() {
                assert(s[i] == r[i]);
            }
        }
    } else {
        let front = s.drop_last();
        let mid = put::<T>(front, x);
        let r = mid.push(s.last());
        assert forall|i: int, j: int| 0 <= i < j < front.len() implies #[trigger] T::le(front[i], front[j]) by {
            assert(T::le(s[i], s[j]));
        }
        lemma_put::<T>(front, x);
        T::le_total(x, s.last());
        assert forall|i: int, j: int| 0 <= i < j < r.len() implies #[trigger] T::le(r[i], r[j]) by {
            if j < mid.len() {
                assert(T::le(mid[i], mid[j]));
            } else if mid[i] == x {
            } else {
                let k = choose|k: int| 0 <= k < front.len() && #[trigger] front[k] == mid[i];
                assert(T::le(s[k], s[s.len() - 1]));
            }
        }
        assert(s =~= front.push(s.last()));
        assert(r.to_multiset() =~= s.to_multiset().insert(x));
        assert forall|i: int| 0 <= i <= s.len() implies #[trigger] r[i] == x || (exists|j: int|
            0 <= j < s.len() && #[trigger] s[j] == r[i]) by {
            if i < mid.len() {
                if mid[i] != x {
                    let k = choose|k: int| 0 <= k < front.len() && #[trigger] front[k] == mid[i];
                    assert(s[k] == r[i]);
                }
            } else {
                assert(s[s.len() - 1] == r[i]);
            }
        }
    }
}

/// Sorting puts values in order and neither adds, drops nor changes any.
pub proof fn law_sorting_orders_and_keeps_all<T: Ranked>(s: Seq<T::V>)
    ensures
        ascending::<T>(sorted::<T>(s)),
        sorted::<T>(s).to_multiset() == s.to_multiset(),
        sorted::<T>(s).len() == s.len(),
    decreases s.len(),
{
    broadcast use vstd::seq_lib::group_to_multiset_ensures;

    if s.len() > 0 {
        law_sorting_orders_and_keeps_all::<T>(s.drop_last());
        lemma_put::<T>(sorted::<T>(s.drop_last()), s.last());
        assert(s =~= s.drop_last().push(s.last()));
    }
}

fn put_value<T: Ranked>(v: &mut Vec<T>, x: T)
    ensures
        views(final(v)@) == put::<T>(views(old(v)@), x@),
{
    let ghost before = views(v@);
    let mut i: usize = v.len();
    assert(before.take(i as int) =~= before);
    assert(before.skip(i as int) =~= Seq::empty());
    assert(put::<T>(before.take(i as int), x@) + before.skip(i as int) =~= put::<T>(before, x@));
    while i > 0 && !v[i - 1].not_after(&x)
        invariant
            0 <= i <= v.len(),
            before == views(v@),
            put::<T>(before, x@) == put::<T>(before.take(i as int), x@) + before.skip(i as int),
        decreases i,
    {
        let ghost t = before.take(i as int);
        assert(t.drop_last() =~= before.take(i - 1));
        assert(t.last() == v@[i - 1]@);
        assert(put::<T>(t, x@) + before.skip(i as int) =~= put::<T>(before.take(i - 1), x@) + before.skip(
            i - 1,
        ));
        i = i - 1;
    }
    proof {
        if i > 0 {
            assert(before.take(i as int).last() == v@[i - 1]@);
        }
    }
    v.insert(i, x);
    assert(views(v@) =~= before.take(i as int).push(x@) + before.skip(i as int));
}

/// Sort a list, keeping the order of equal values.
pub fn sort<T: Ranked>(v: &mut Vec<T>)
    ensures
        views(final(v)@) == sorted::<T>(views(old(v)@)),
        final(v)@.len() == old(v)@.len(),
{
    let ghost all = views(v@);
    let n: usize = v.len();
    let mut out: Vec<T> = Vec::new();
    let mut done: usize = 0;
    assert(all.take(0) =~= Seq::empty());
    assert(views(out@) =~= Seq::empty());
    assert(all.skip(0) =~= all);
    while done < n
        invariant
            0 <= done <= n,
            all.len() == n,
            v@.len() == n - done,
            views(v@) == all.skip(done as int),
            views(out@) == sorted::<T>(all.take(done as int)),
            out@.len() == done,
        decreases n - done,
    {
        let ghost rest = v@;
        let x = v.remove(0);
        assert(all.take(done + 1).drop_last() =~= all.take(done as int));
        assert(views(rest)[0] == x@);
        assert(all.take(done + 1).last() == x@);
        assert(views(v@) =~= all.skip(done + 1)) by {
            assert forall|k: int| 0 <= k < v@.len() implies views(v@)[k] == all.skip(done + 1)[k] by {
                assert(views(rest)[k + 1] == all.skip(done as int)[k + 1]);
            }
        }
        proof {
            law_sorting_orders_and_keeps_all::<T>(all.take(done as int));
            lemma_put::<T>(views(out@), x@);
        }
        put_value(&mut out, x);
        assert(views(out@).len() == out@.len());
        done = done + 1;
    }
    assert(all.take(done as int) =~= all);
    std::mem::swap(v, &mut out);
}

/// Lists of the same values have the same members.
pub proof fn lemma_same_members<A>(x: Seq<A>, y: Seq<A>, v: A)
    requires
        x.to_multiset() == y.to_multiset(),
        x.contains(v),
    ensures
        y.contains(v),
{
    broadcast use vstd::seq_lib::group_to_multiset_ensures;

    assert(x.to_multiset().count(v) > 0);
    assert(y.to_multiset().count(v) > 0);
}

/// Two ascending lists of the same values are equal, where values that may
/// stand either way are equal.
pub proof fn lemma_ascending_unique<T: Ranked>(x: Seq<T::V>, y: Seq<T::V>)
    requires
        ascending::<T>(x),
        ascending::<T>(y),
        x.to_multiset() == y.to_multiset(),
        forall|i: int, j: int|
            0 <= i < x.len() && 0 <= j < x.len() && T::le(#[trigger] x[i], #[trigger] x[j]) && T::le(x[j], x[i])
                ==> x[i] == x[j],
    ensures
        x == y,
    decreases x.len(),
{
    broadcast use vstd::seq_lib::group_to_multiset_ensures;

    assert(x.len() == y.len()) by {
        assert(x.to_multiset().len() == x.len());
        assert(y.to_multiset().len() == y.len());
    }
    if x.len() == 0 {
        assert(x =~= y);
    } else {
        let n = x.len() as int;
        // The last of each list is among the other's, so both may follow each other.
        assert(y.contains(y.last()));
        lemma_same_members(y, x, y.last());
        let p = choose|p: int| 0 <= p < n && x[p] == y.last();
        assert(x.contains(x.last()));
        lemma_same_members(x, y, x.last());
        let q = choose|q: int| 0 <= q < n && y[q] == x.last();
        if p != n - 1 && q != n - 1 {
            assert(T::le(x[p], x[n - 1]));
            assert(T::le(y[q], y[n - 1]));
            assert(x[p] == x[n - 1]);
        }
        assert(x.last() == y.last());
        let xs = x.drop_last();
        let ys = y.drop_last();
        assert(x =~= xs.push(x.last()));
        assert(y =~= ys.push(y.last()));
        assert(xs.to_multiset() =~= ys.to_multiset()) by {
            assert(xs.to_multiset().insert(x.last()) =~= ys.to_multiset().insert(x.last()));
            assert(xs.to_multiset().insert(x.last()).remove(x.last()) =~= xs.to_multiset());
            assert(ys.to_multiset().insert(x.last()).remove(x.last()) =~= ys.to_multiset());
        }
        assert forall|i: int, j: int| 0 <= i < j < xs.len() implies #[trigger] T::le(xs[i], xs[j]) by {
            assert(T::le(x[i], x[j]));
        }
        assert forall|i: int, j: int| 0 <= i < j < ys.len() implies #[trigger] T::le(ys[i], ys[j]) by {
            assert(T::le(y[i], y[j]));
        }
        assert forall|i: int, j: int|
            0 <= i < xs.len() && 0 <= j < xs.len() && T::le(#[trigger] xs[i], #[trigger] xs[j]) && T::le(
                xs[j],
                xs[i],
            ) implies xs[i] == xs[j] by {
            assert(x[i] == xs[i] && x[j] == xs[j]);
        }
        lemma_ascending_unique::<T>(xs, ys);
    }
}

} // verus!
