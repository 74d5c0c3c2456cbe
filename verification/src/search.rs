//! First matches.
use vstd::prelude::*;

verus! {

/// The first of the numbers below `n` for which `p` holds.
pub open spec fn first_such(n: int, p: spec_fn(int) -> bool) -> Option<int> {
    if exists|i: int| is_first_such(n, p, i) {
        Some(choose|i: int| is_first_such(n, p, i))
    } else {
        None
    }
}

/// `i` is the first of the numbers below `n` for which `p` holds.
pub open spec fn is_first_such(n: int, p: spec_fn(int) -> bool, i: int) -> bool {
    &&& 0 <= i < n
    &&& p(i)
    &&& forall|j: int| 0 <= j < i ==> !#[trigger] p(j)
}

pub proof fn lemma_first_such(n: int, p: spec_fn(int) -> bool, i: int)
    requires
        is_first_such(n, p, i),
    ensures
        first_such(n, p) == Some(i),
{
    let k = choose|k: int| is_first_such(n, p, k);
    assert(is_first_such(n, p, k));
    if k < i {
        assert(!p(k));
    } else if i < k {
        assert(!p(i));
    }
}

pub proof fn lemma_no_such(n: int, p: spec_fn(int) -> bool)
    requires
        forall|j: int| 0 <= j < n ==> !#[trigger] p(j),
    ensures
        first_such(n, p) is None,
{
    if exists|i: int| is_first_such(n, p, i) {
        let i = choose|i: int| is_first_such(n, p, i);
        assert(is_first_such(n, p, i));
        assert(p(i));
    }
}

/// If `p` holds somewhere, there is a first place.
pub proof fn lemma_some_such(n: int, p: spec_fn(int) -> bool, i: int)
    requires
        0 <= i < n,
        p(i),
    ensures
        first_such(n, p) is Some,
        is_first_such(n, p, first_such(n, p)->0),
    decreases i,
{
    if exists|j: int| 0 <= j < i && #[trigger] p(j) {
        let j = choose|j: int| 0 <= j < i && #[trigger] p(j);
        lemma_some_such(n, p, j);
    } else {
        assert(is_first_such(n, p, i));
        lemma_first_such(n, p, i);
    }
}

/// What a first match is.
pub proof fn lemma_first_such_holds(n: int, p: spec_fn(int) -> bool)
    ensures
        first_such(n, p) is Some ==> is_first_such(n, p, first_such(n, p)->0),
        first_such(n, p) is None ==> forall|j: int| 0 <= j < n ==> !#[trigger] p(j),
{
    if first_such(n, p) is Some {
        let i = choose|i: int| is_first_such(n, p, i);
        assert(is_first_such(n, p, i));
    } else if exists|j: int| 0 <= j < n && #[trigger] p(j) {
        let j = choose|j: int| 0 <= j < n && #[trigger] p(j);
        lemma_some_such(n, p, j);
    }
}

} // verus!
