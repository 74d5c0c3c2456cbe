//! Finding things in texts.
use vstd::prelude::*;

use crate::search;
use crate::text;

verus! {

/// Where `p` first occurs in `s`.
pub open spec fn find(s: Seq<char>, p: Seq<char>) -> Option<int> {
    search::first_such(s.len() - p.len() + 1, |i: int| text::occurs_at(s, p, i))
}

/// Where `p` first occurs in `s`.
pub fn find_chars(s: &[char], p: &[char]) -> (at: Option<usize>)
    ensures
        match at {
            Some(i) => find(s@, p@) == Some(i as int) && text::occurs_at(s@, p@, i as int),
            None => find(s@, p@) is None && !text::has(s@, p@),
        },
{
    let ghost q = |i: int| text::occurs_at(s@, p@, i);
    let ghost n = s@.len() - p@.len() + 1;
    let mut i: usize = 0;
    while i < s.len()
        invariant
            0 <= i <= s.len(),
            n == s@.len() - p@.len() + 1,
            q == (|i: int| text::occurs_at(s@, p@, i)),
            forall|j: int| 0 <= j < i ==> !(#[trigger] q(j)),
        decreases s.len() - i,
    {
        if text::is_at(s, p, i) {
            proof {
                assert(q(i as int));
                search::lemma_first_such(n, q, i as int);
            }
            return Some(i);
        }
        assert(!q(i as int));
        i = i + 1;
    }
    if text::is_at(s, p, i) {
        proof {
            assert(q(i as int));
            search::lemma_first_such(n, q, i as int);
        }
        return Some(i);
    }
    proof {
        assert(!q(i as int));
        assert forall|j: int| 0 <= j < n implies !(#[trigger] q(j)) by {
            if j > i {
                assert(!text::occurs_at(s@, p@, j));
            }
        }
        search::lemma_no_such(n, q);
        assert forall|j: int| !text::occurs_at(s@, p@, j) by {
            if 0 <= j < n {
                assert(!q(j));
            }
        }
    }
    None
}

/// Where `c` last occurs in `s`.
pub open spec fn last_char(s: Seq<char>, c: char) -> Option<int>
    decreases s.len(),
{
    if s.len() == 0 {
        None
    } else if s.last() == c {
        Some(s.len() - 1)
    } else {
        last_char(s.drop_last(), c)
    }
}

/// Where `c` last occurs in `s`.
pub fn last_position(s: &[char], c: char) -> (at: Option<usize>)
    ensures
        match at {
            Some(i) => i < s.len() && last_char(s@, c) == Some(i as int),
            None => last_char(s@, c) is None,
        },
{
    let mut i: usize = s.len();
    assert(s@.take(i as int) =~= s@);
    while i > 0
        invariant
            0 <= i <= s.len(),
            last_char(s@, c) == last_char(s@.take(i as int), c),
        decreases i,
    {
        assert(s@.take(i as int).drop_last() =~= s@.take(i - 1));
        i = i - 1;
        if s[i] == c {
            return Some(i);
        }
    }
    None
}

/// The greatest position below `n` at which `p` occurs in `s`.
pub open spec fn last_below(s: Seq<char>, p: Seq<char>, n: int) -> Option<int>
    decreases n,
{
    if n <= 0 {
        None
    } else if text::occurs_at(s, p, n - 1) {
        Some(n - 1)
    } else {
        last_below(s, p, n - 1)
    }
}

/// The part of `s` after the last `p`, or all of it if there is none.
pub open spec fn after_last(s: Seq<char>, p: Seq<char>) -> Seq<char> {
    match last_below(s, p, s.len() as int) {
        Some(i) => s.skip(i + p.len()),
        None => s,
    }
}

/// The part after the last `p`, or everything if there is none.
pub fn chars_after_last(s: &[char], p: &[char]) -> (rest: Vec<char>)
    ensures
        rest@ == after_last(s@, p@),
{
    let mut i: usize = s.len();
    while i > 0
        invariant
            0 <= i <= s.len(),
            last_below(s@, p@, s@.len() as int) == last_below(s@, p@, i as int),
        decreases i,
    {
        i = i - 1;
        if text::is_at(s, p, i) {
            let rest = vstd::slice::slice_subrange(s, i + p.len(), s.len());
            assert(rest@ =~= s@.skip(i + p@.len()));
            return vstd::slice::slice_to_vec(rest);
        }
    }
    vstd::slice::slice_to_vec(s)
}

/// The part of `s` before the first `c`, or all of it if there is none.
pub open spec fn before_first(s: Seq<char>, c: char) -> Seq<char> {
    match text::find_char(s, c) {
        Some(i) => s.take(i),
        None => s,
    }
}

/// The part before the first `c`, or everything if there is none.
pub fn chars_before_first(s: &[char], c: char) -> (rest: Vec<char>)
    ensures
        rest@ == before_first(s@, c),
{
    match text::char_position(s, c) {
        Some(i) => {
            let rest = vstd::slice::slice_subrange(s, 0, i);
            assert(rest@ =~= s@.take(i as int));
            vstd::slice::slice_to_vec(rest)
        },
        None => vstd::slice::slice_to_vec(s),
    }
}

/// The leading characters of `s` up to the first white space.
pub open spec fn leading_word(s: Seq<char>) -> Seq<char>
    decreases s.len(),
{
    if s.len() == 0 || text::is_space(s[0]) {
        Seq::empty()
    } else {
        seq![s[0]] + leading_word(s.skip(1))
    }
}

/// The first word of `s`: what stands between white space.
pub open spec fn first_word(s: Seq<char>) -> Seq<char> {
    leading_word(text::trim_start(s))
}

/// The first word of a text, empty where there is none.
pub fn word_of(s: &[char]) -> (word: Vec<char>)
    ensures
        word@ == first_word(s@),
{
    let from: usize = text::leading_spaces(s);
    let ghost body = s@.skip(from as int);
    let mut word: Vec<char> = Vec::new();
    let mut i: usize = from;
    assert(body.skip(0) =~= body);
    while i < s.len() && !text::is_space_char(s[i])
        invariant
            from <= i <= s.len(),
            body == s@.skip(from as int),
            leading_word(body) == word@ + leading_word(body.skip(i - from)),
        decreases s.len() - i,
    {
        let ghost rest = body.skip(i - from);
        assert(rest[0] == s@[i as int]);
        assert(rest.skip(1) =~= body.skip(i + 1 - from));
        word.push(s[i]);
        assert(leading_word(body) =~= word@ + leading_word(body.skip(i + 1 - from)));
        i = i + 1;
    }
    assert(leading_word(body.skip(i - from)) =~= Seq::empty()) by {
        if i < s.len() {
            assert(body.skip(i - from)[0] == s@[i as int]);
        }
    }
    assert(word@ =~= leading_word(body));
    word
}

/// The last place of a character: it stands there, and nowhere behind.
pub proof fn law_last_char(s: Seq<char>, c: char)
    ensures
        match last_char(s, c) {
            Some(i) => 0 <= i < s.len() && s[i] == c && forall|j: int| i < j < s.len() ==> s[j] != c,
            None => !s.contains(c),
        },
    decreases s.len(),
{
    if s.len() > 0 && s.last() != c {
        let rest = s.drop_last();
        law_last_char(rest, c);
        match last_char(rest, c) {
            Some(i) => {
                assert forall|j: int| i < j < s.len() implies s[j] != c by {
                    if j < rest.len() {
                        assert(rest[j] != c);
                    }
                }
            },
            None => {
                if s.contains(c) {
                    let k = choose|k: int| 0 <= k < s.len() && s[k] == c;
                    assert(rest[k] == c);
                }
            },
        }
    }
}

proof fn lemma_last_below(s: Seq<char>, p: Seq<char>, n: int, at: int)
    requires
        0 <= at < n,
        text::occurs_at(s, p, at),
        forall|j: int| at < j < n ==> !text::occurs_at(s, p, j),
    ensures
        last_below(s, p, n) == Some(at),
    decreases n,
{
    if at < n - 1 {
        assert(!text::occurs_at(s, p, n - 1));
        lemma_last_below(s, p, n - 1, at);
    }
}

proof fn lemma_none_below(s: Seq<char>, p: Seq<char>, n: int)
    requires
        forall|j: int| 0 <= j < n ==> !text::occurs_at(s, p, j),
    ensures
        last_below(s, p, n) is None,
    decreases n,
{
    if n > 0 {
        assert(!text::occurs_at(s, p, n - 1));
        lemma_none_below(s, p, n - 1);
    }
}

/// What stands behind the last of some marks is the text behind it up to the end,
/// and all of it where there is no mark.
pub proof fn law_after_last(s: Seq<char>, p: Seq<char>, at: int)
    requires
        p.len() > 0,
    ensures
        !text::has(s, p) ==> after_last(s, p) == s,
        text::occurs_at(s, p, at) && (forall|j: int| at < j ==> !text::occurs_at(s, p, j)) ==> after_last(s, p)
            == s.skip(at + p.len()),
{
    if !text::has(s, p) {
        lemma_none_below(s, p, s.len() as int);
    } else if text::occurs_at(s, p, at) && (forall|j: int| at < j ==> !text::occurs_at(s, p, j)) {
        lemma_last_below(s, p, s.len() as int, at);
    }
}

} // verus!
