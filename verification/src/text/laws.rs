//! What holds of every text.
use crate::scan;
use crate::search;
use crate::text;
use vstd::prelude::*;

verus! {

/// Every character is white space.
pub open spec fn all_space(s: Seq<char>) -> bool {
    forall|i: int| 0 <= i < s.len() ==> text::is_space(#[trigger] s[i])
}

/// Blanks, tabs and line ends are white space; what is printed in ASCII is not.
pub proof fn law_white_space(c: char)
    ensures
        c == ' ' || c == '\t' || c == '\n' || c == '\r' ==> text::is_space(c),
        33 <= c as u32 <= 126 ==> !text::is_space(c),
{
}

proof fn lemma_trim_start(s: Seq<char>)
    ensures
        ({
            let t = text::trim_start(s);
            &&& t.len() <= s.len()
            &&& t == s.skip(s.len() - t.len())
            &&& all_space(s.take(s.len() - t.len()))
            &&& t.len() > 0 ==> !text::is_space(t[0])
        }),
    decreases s.len(),
{
    if s.len() > 0 && text::is_space(s[0]) {
        lemma_trim_start(s.skip(1));
        let t = text::trim_start(s.skip(1));
        let n = s.len() - t.len();
        assert(t =~= s.skip(n));
        assert forall|i: int| 0 <= i < n implies text::is_space(#[trigger] s.take(n)[i]) by {
            if i > 0 {
                assert(s.skip(1).take(n - 1)[i - 1] == s[i]);
            }
        }
    } else {
        assert(s.skip(0) =~= s);
    }
}

proof fn lemma_trim_end(s: Seq<char>)
    ensures
        ({
            let t = text::trim_end(s);
            &&& t.len() <= s.len()
            &&& t == s.take(t.len() as int)
            &&& all_space(s.skip(t.len() as int))
            &&& t.len() > 0 ==> !text::is_space(t.last())
        }),
    decreases s.len(),
{
    if s.len() > 0 && text::is_space(s.last()) {
        lemma_trim_end(s.drop_last());
        let t = text::trim_end(s.drop_last());
        let n = t.len() as int;
        assert(t =~= s.take(n));
        assert forall|i: int| 0 <= i < s.skip(n).len() implies text::is_space(#[trigger] s.skip(n)[i]) by {
            if i < s.len() - 1 - n {
                assert(s.drop_last().skip(n)[i] == s[n + i]);
            }
        }
    } else {
        assert(s.take(s.len() as int) =~= s);
    }
}

/// Trimming takes white space off both ends and nothing else: what is left neither
/// starts nor ends with any.
pub proof fn law_trim(s: Seq<char>)
    ensures
        exists|a: Seq<char>, b: Seq<char>| all_space(a) && all_space(b) && s == #[trigger] (a + text::trim(s) + b),
        text::trim(s).len() > 0 ==> !text::is_space(text::trim(s)[0]) && !text::is_space(text::trim(s).last()),
        text::blank(s) <==> all_space(s),
{
    lemma_trim_start(s);
    let m = text::trim_start(s);
    lemma_trim_end(m);
    let t = text::trim(s);
    let a = s.take(s.len() - m.len());
    let b = m.skip(t.len() as int);
    assert(s =~= a + t + b);
    if t.len() > 0 {
        assert(t[0] == m[0]);
        let i = s.len() - m.len();
        assert(s[i] == m[0]);
    } else {
        assert forall|i: int| 0 <= i < s.len() implies text::is_space(#[trigger] s[i]) by {
            if i < a.len() {
                assert(a[i] == s[i]);
            } else {
                assert(b[i - a.len()] == s[i]);
            }
        }
    }
}

/// A number's digits give the number back: they are digits all, and the first of
/// several is no zero.
pub proof fn law_decimal(n: nat)
    ensures
        text::digits_value(text::decimal(n)) == n,
        text::decimal(n).len() > 0,
        forall|i: int| 0 <= i < text::decimal(n).len() ==> '0' <= #[trigger] text::decimal(n)[i] <= '9',
        n > 0 ==> text::decimal(n)[0] != '0',
    decreases n,
{
    if n < 10 {
        let s = seq![text::digit(n)];
        assert(text::decimal(n) == s);
        assert(s.drop_last() =~= Seq::<char>::empty());
        assert(text::digits_value(Seq::<char>::empty()) == 0);
        assert(s.last() as nat == 48 + n);
    } else {
        law_decimal(n / 10);
        let d = text::decimal(n / 10);
        let s = d.push(text::digit(n % 10));
        assert(text::decimal(n) == s);
        assert(s.drop_last() =~= d);
        assert(s.last() as nat == 48 + n % 10);
        assert(s[0] == d[0]);
        assert forall|i: int| 0 <= i < s.len() implies '0' <= #[trigger] s[i] <= '9' by {
            if i < d.len() {
                assert(s[i] == d[i]);
            }
        }
    }
}

/// A text holds another exactly if it can be cut before and behind it.
pub proof fn law_has(s: Seq<char>, p: Seq<char>)
    ensures
        text::has(s, p) <==> exists|a: Seq<char>, b: Seq<char>| s == #[trigger] (a + p + b),
        text::starts(s, p) <==> exists|b: Seq<char>| s == #[trigger] (p + b),
{
    if text::has(s, p) {
        let i = choose|i: int| text::occurs_at(s, p, i);
        assert(s =~= s.take(i) + p + s.skip(i + p.len()));
    }
    if exists|a: Seq<char>, b: Seq<char>| s == #[trigger] (a + p + b) {
        let (a, b) = choose|a: Seq<char>, b: Seq<char>| s == #[trigger] (a + p + b);
        assert(s.subrange(a.len() as int, a.len() as int + p.len()) =~= p);
        assert(text::occurs_at(s, p, a.len() as int));
    }
    if text::starts(s, p) {
        assert(s =~= p + s.skip(p.len() as int));
    }
    if exists|b: Seq<char>| s == #[trigger] (p + b) {
        let b = choose|b: Seq<char>| s == #[trigger] (p + b);
        assert(s.subrange(0, p.len() as int) =~= p);
    }
}

/// Capital letters of ASCII become small ones, and nothing else changes.
pub proof fn law_lower(s: Seq<char>, i: int)
    requires
        0 <= i < s.len(),
    ensures
        text::lower(s).len() == s.len(),
        'A' <= s[i] <= 'Z' ==> text::lower(s)[i] as u32 == s[i] as u32 + 32,
        !('A' <= s[i] <= 'Z') ==> text::lower(s)[i] == s[i],
{
}

proof fn lemma_split_none(s: Seq<char>, c: char)
    requires
        !s.contains(c),
    ensures
        text::split(s, c) == seq![s],
    decreases s.len(),
{
    if s.len() > 0 {
        assert(s[s.len() - 1] != c);
        assert forall|i: int| 0 <= i < s.len() - 1 implies s.drop_last()[i] != c by {
            assert(s[i] != c);
        }
        lemma_split_none(s.drop_last(), c);
        assert(text::split(s, c) =~= seq![s.drop_last().push(s.last())]);
        assert(s.drop_last().push(s.last()) =~= s);
    } else {
        assert(s =~= Seq::<char>::empty());
    }
}

/// A text is cut at every separator: what stands before the first is the first
/// part, and the rest is cut likewise. A text without one is a single part.
pub proof fn law_split(a: Seq<char>, c: char, b: Seq<char>)
    requires
        !a.contains(c),
    ensures
        text::split(a, c) == seq![a],
        text::split(a + seq![c] + b, c) == seq![a] + text::split(b, c),
        text::split(b, c).len() > 0,
    decreases b.len(),
{
    lemma_split_none(a, c);
    let s = a + seq![c] + b;
    if b.len() == 0 {
        assert(s.drop_last() =~= a);
        assert(text::split(s, c) =~= seq![a] + text::split(b, c));
    } else {
        law_split(a, c, b.drop_last());
        assert(s.drop_last() =~= a + seq![c] + b.drop_last());
        let rest = text::split(b.drop_last(), c);
        assert(text::split(s.drop_last(), c) == seq![a] + rest);
        assert((seq![a] + rest).last() == rest.last());
        assert((seq![a] + rest).drop_last() =~= seq![a] + rest.drop_last());
        assert(text::split(s, c) =~= seq![a] + text::split(b, c));
    }
}

/// Each line feed ends a line, which is taken without it and without a carriage
/// return before it; what is left is a line only if it is not empty.
pub proof fn law_lines(a: Seq<char>, b: Seq<char>)
    requires
        !a.contains('\n'),
    ensures
        a.len() == 0 ==> text::lines(a).len() == 0,
        a.len() > 0 ==> text::lines(a) == seq![a],
        a.len() == 0 || a.last() != '\r' ==> text::lines(a + seq!['\n'] + b) == seq![a] + text::lines(b),
        a.len() > 0 && a.last() == '\r' ==> text::lines(a + seq!['\n'] + b) == seq![a.drop_last()] + text::lines(b),
{
    law_split(a, '\n', b);
    let one = text::split(a, '\n');
    assert(one.drop_last() =~= Seq::empty());
    assert(text::lines(a) =~= (if a.len() == 0 {
        Seq::empty()
    } else {
        seq![a]
    }));
    let rest = text::split(b, '\n');
    let all = seq![a] + rest;
    assert(all.last() == rest.last());
    assert(all.drop_last() =~= seq![a] + rest.drop_last());
    let strip = |l: Seq<char>| text::strip_cr(l);
    assert(all.drop_last().map_values(strip) =~= seq![text::strip_cr(a)] + rest.drop_last().map_values(strip));
    assert(text::lines(a + seq!['\n'] + b) =~= seq![text::strip_cr(a)] + text::lines(b));
}

/// What is found is the first place, and nothing is found only where the text is
/// not held.
pub proof fn law_find(s: Seq<char>, p: Seq<char>)
    ensures
        match scan::find(s, p) {
            Some(i) => 0 <= i <= s.len() - p.len() && s.subrange(i, i + p.len()) == p && forall|j: int|
                0 <= j < i ==> !text::occurs_at(s, p, j),
            None => !text::has(s, p),
        },
{
    let q = |i: int| text::occurs_at(s, p, i);
    search::lemma_first_such_holds(s.len() - p.len() + 1, q);
    match scan::find(s, p) {
        Some(i) => {
            assert(q(i));
            assert forall|j: int| 0 <= j < i implies !text::occurs_at(s, p, j) by {
                assert(!q(j));
            }
        },
        None => {
            if text::has(s, p) {
                let i = choose|i: int| text::occurs_at(s, p, i);
                assert(!q(i));
            }
        },
    }
}

/// The part before the first of a character, all of a text without it.
pub proof fn law_before_first(a: Seq<char>, c: char, b: Seq<char>)
    requires
        !a.contains(c),
    ensures
        scan::before_first(a, c) == a,
        scan::before_first(a + seq![c] + b, c) == a,
{
    let s = a + seq![c] + b;
    text::law_find_char(a, c);
    text::law_find_char(s, c);
    assert(s[a.len() as int] == c);
    assert(s.contains(c));
    let i = text::find_char(s, c)->0;
    if i < a.len() {
        assert(a[i] == c);
    }
    assert(s.take(i) =~= a);
}

/// The first word: what stands between the white space in front and the next.
pub proof fn law_first_word(space: Seq<char>, word: Seq<char>, rest: Seq<char>)
    requires
        all_space(space),
        forall|i: int| 0 <= i < word.len() ==> !text::is_space(#[trigger] word[i]),
        word.len() > 0,
        rest.len() == 0 || text::is_space(rest[0]),
    ensures
        scan::first_word(space + word + rest) == word,
    decreases space.len(),
{
    let s = space + word + rest;
    if space.len() > 0 {
        assert(s[0] == space[0]);
        assert(s.skip(1) =~= space.skip(1) + word + rest);
        assert forall|i: int| 0 <= i < space.skip(1).len() implies text::is_space(#[trigger] space.skip(1)[i]) by {
            assert(space[i + 1] == space.skip(1)[i]);
        }
        law_first_word(space.skip(1), word, rest);
    } else {
        assert(s =~= word + rest);
        assert(s[0] == word[0]);
        lemma_leading_word(word, rest);
    }
}

proof fn lemma_leading_word(word: Seq<char>, rest: Seq<char>)
    requires
        forall|i: int| 0 <= i < word.len() ==> !text::is_space(#[trigger] word[i]),
        rest.len() == 0 || text::is_space(rest[0]),
    ensures
        scan::leading_word(word + rest) == word,
    decreases word.len(),
{
    let s = word + rest;
    if word.len() == 0 {
        assert(s =~= rest);
    } else {
        assert(s[0] == word[0]);
        assert(s.skip(1) =~= word.skip(1) + rest);
        assert forall|i: int| 0 <= i < word.skip(1).len() implies !text::is_space(#[trigger] word.skip(1)[i]) by {
            assert(word[i + 1] == word.skip(1)[i]);
        }
        lemma_leading_word(word.skip(1), rest);
        assert(seq![word[0]] + word.skip(1) =~= word);
    }
}

/// The order of texts: at the first place where two differ the smaller character
/// comes first, and a text comes before every longer one that starts with it.
pub proof fn law_order_of_texts(a: Seq<char>, b: Seq<char>)
    ensures
        text::lex_le(a, b) <==> {
            ||| a.len() <= b.len() && b.take(a.len() as int) == a
            ||| exists|k: int|
                0 <= k < a.len() && k < b.len() && a[k] < b[k] && #[trigger] a.take(k) == b.take(k)
        },
    decreases a.len(),
{
    if a.len() == 0 {
        assert(b.take(0) =~= a);
    } else if b.len() > 0 {
        let (x, y) = (a.skip(1), b.skip(1));
        if a[0] < b[0] {
            assert(a.take(0) =~= b.take(0));
        }
        if a[0] == b[0] {
            law_order_of_texts(x, y);
            if x.len() <= y.len() && y.take(x.len() as int) == x {
                assert forall|i: int| 0 <= i < a.len() implies b[i] == a[i] by {
                    if i > 0 {
                        assert(y.take(x.len() as int)[i - 1] == x[i - 1]);
                    }
                }
                assert(b.take(a.len() as int) =~= a);
            }
            if exists|k: int| 0 <= k < x.len() && k < y.len() && x[k] < y[k] && #[trigger] x.take(k) == y.take(k) {
                let k = choose|k: int|
                    0 <= k < x.len() && k < y.len() && x[k] < y[k] && #[trigger] x.take(k) == y.take(k);
                assert forall|i: int| 0 <= i < k + 1 implies a[i] == b[i] by {
                    if i > 0 {
                        assert(x.take(k)[i - 1] == y.take(k)[i - 1]);
                    }
                }
                assert(a.take(k + 1) =~= b.take(k + 1));
                assert(a[k + 1] < b[k + 1]);
            }
            if a.len() <= b.len() && b.take(a.len() as int) == a {
                assert forall|i: int| 0 <= i < x.len() implies y[i] == x[i] by {
                    assert(b.take(a.len() as int)[i + 1] == a[i + 1]);
                }
                assert(y.take(x.len() as int) =~= x);
            }
        }
        if exists|k: int| 0 <= k < a.len() && k < b.len() && a[k] < b[k] && #[trigger] a.take(k) == b.take(k) {
            let k = choose|k: int|
                0 <= k < a.len() && k < b.len() && a[k] < b[k] && #[trigger] a.take(k) == b.take(k);
            if k > 0 {
                assert(a.take(k)[0] == b.take(k)[0]);
                assert forall|i: int| 0 <= i < k - 1 implies x[i] == y[i] by {
                    assert(a.take(k)[i + 1] == b.take(k)[i + 1]);
                }
                assert(x.take(k - 1) =~= y.take(k - 1));
                assert(x[k - 1] < y[k - 1]);
            }
        }
        if a.len() <= b.len() && b.take(a.len() as int) == a {
            assert(b.take(a.len() as int)[0] == a[0]);
        }
    }
}

} // verus!
