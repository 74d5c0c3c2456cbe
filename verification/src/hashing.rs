//! Fingerprints of texts, ids and collections.
use std::collections::hash_map::DefaultHasher;
use std::hash::Hasher;

use vstd::prelude::*;
use vstd::string::*;

use crate::oid::Oid;

verus! {

/// The hash of some writes.
pub open spec fn hash(writes: Seq<Seq<u8>>) -> u64 {
    <DefaultHasher as vstd::std_specs::hash::DefaultHasherAdditionalSpecFns>::spec_finish(writes)
}

/// What a text writes into a hash: its bytes, then a byte that occurs in no
/// text.
pub open spec fn text_writes(s: Seq<char>) -> Seq<Seq<u8>> {
    seq![vstd::utf8::encode_utf8(s), seq![255u8]]
}

/// What an id writes into a hash: how many bytes it has, then the bytes.
pub open spec fn oid_writes(o: Oid) -> Seq<Seq<u8>> {
    seq![seq![20u8, 0, 0, 0, 0, 0, 0, 0], o.raw()]
}

/// Write a text into a hash.
pub fn write_text(h: &mut DefaultHasher, s: &str)
    ensures
        final(h)@ == old(h)@ + text_writes(s@),
{
    h.write(s.as_bytes());
    let mut end: Vec<u8> = Vec::new();
    end.push(255);
    assert(end@ =~= seq![255u8]);
    h.write(end.as_slice());
    assert(h@ =~= old(h)@ + text_writes(s@));
}

/// Write an id into a hash.
pub fn write_oid(h: &mut DefaultHasher, o: Oid)
    ensures
        final(h)@ == old(h)@ + oid_writes(o),
{
    let mut len: Vec<u8> = Vec::new();
    len.push(20);
    let mut i: usize = 0;
    while i < 7
        invariant
            i <= 7,
            len@.len() == i + 1,
            len@[0] == 20,
            forall|k: int| 1 <= k < len@.len() ==> len@[k] == 0,
        decreases 7 - i,
    {
        len.push(0);
        i = i + 1;
    }
    assert(len@ =~= seq![20u8, 0, 0, 0, 0, 0, 0, 0]);
    h.write(len.as_slice());
    let bytes = o.as_bytes();
    h.write(bytes.as_slice());
    assert(h@ =~= old(h)@ + oid_writes(o));
}

/// Write a truth value into a hash.
pub fn write_flag(h: &mut DefaultHasher, flag: bool)
    ensures
        final(h)@ == old(h)@.push(flag_write(flag)),
{
    let mut byte: Vec<u8> = Vec::new();
    if flag {
        byte.push(1);
    } else {
        byte.push(0);
    }
    assert(byte@ =~= flag_write(flag));
    h.write(byte.as_slice());
}

/// What a truth value writes into a hash.
pub open spec fn flag_write(flag: bool) -> Seq<u8> {
    if flag {
        seq![1u8]
    } else {
        seq![0u8]
    }
}

/// Write a number into a hash.
pub fn write_number(h: &mut DefaultHasher, n: u64)
    ensures
        final(h)@ == old(h)@.push(vstd::bytes::spec_u64_to_le_bytes(n)),
{
    let bytes = vstd::bytes::u64_to_le_bytes(n);
    h.write(bytes.as_slice());
}

/// Hashes combined so that their order does not matter.
pub open spec fn combined(hashes: Seq<u64>) -> u64
    decreases hashes.len(),
{
    if hashes.len() == 0 {
        0
    } else {
        combined(hashes.drop_last()) ^ hashes.last()
    }
}

proof fn lemma_combined_remove(hashes: Seq<u64>, i: int)
    requires
        0 <= i < hashes.len(),
    ensures
        combined(hashes) == combined(hashes.remove(i)) ^ hashes[i],
    decreases hashes.len(),
{
    let rest = hashes.drop_last();
    if i == hashes.len() - 1 {
        assert(hashes.remove(i) =~= rest);
    } else {
        lemma_combined_remove(rest, i);
        let without = hashes.remove(i);
        assert(without.drop_last() =~= rest.remove(i));
        assert(without.last() == hashes.last());
        let a = combined(rest.remove(i));
        let b = hashes[i];
        let c = hashes.last();
        assert((a ^ b) ^ c == (a ^ c) ^ b) by (bit_vector);
    }
}

/// Combining hashes does not depend on their order.
pub proof fn law_combining_ignores_order(a: Seq<u64>, b: Seq<u64>)
    requires
        a.to_multiset() == b.to_multiset(),
    ensures
        combined(a) == combined(b),
    decreases a.len(),
{
    broadcast use vstd::seq_lib::group_to_multiset_ensures;

    assert(a.len() == b.len()) by {
        assert(a.to_multiset().len() == a.len());
        assert(b.to_multiset().len() == b.len());
    }
    if a.len() > 0 {
        let x = a.last();
        assert(a.contains(x));
        crate::sorting::lemma_same_members(a, b, x);
        let i = choose|i: int| 0 <= i < b.len() && b[i] == x;
        lemma_combined_remove(b, i);
        assert(a =~= a.drop_last().push(x));
        assert(a.drop_last().to_multiset() =~= b.remove(i).to_multiset()) by {
            assert(a.to_multiset() =~= a.drop_last().to_multiset().insert(x));
            assert(b.remove(i).to_multiset() =~= b.to_multiset().remove(x));
            assert(a.drop_last().to_multiset().insert(x).remove(x) =~= a.drop_last().to_multiset());
        }
        law_combining_ignores_order(a.drop_last(), b.remove(i));
    }
}

/// The last `k` hexadecimal digits of a number.
pub open spec fn hex_tail(n: u64, k: nat) -> Seq<char>
    decreases k,
{
    if k == 0 {
        Seq::empty()
    } else {
        hex_tail((n / 16) as u64, (k - 1) as nat).push(crate::oid::hex_digit((n % 16) as u32))
    }
}

/// The hash of a text in sixteen hexadecimal digits.
pub open spec fn key(s: Seq<char>) -> Seq<char> {
    hex_tail(hash(text_writes(s)), 16)
}

fn push_hex(out: &mut String, n: u64, k: usize)
    ensures
        final(out)@ == old(out)@ + hex_tail(n, k as nat),
    decreases k,
{
    if k == 0 {
        assert(out@ =~= old(out)@ + Seq::empty());
        return;
    }
    push_hex(out, n / 16, k - 1);
    let d: u8 = (n % 16) as u8;
    let c: char = if d < 10 {
        (48 + d) as char
    } else {
        (87 + d) as char
    };
    out.push(c);
    assert(out@ =~= old(out)@ + hex_tail(n, k as nat));
}

/// The hash of a text in sixteen hexadecimal digits.
pub fn hex_key(s: &str) -> (k: String)
    ensures
        k@ == key(s@),
{
    let mut h = DefaultHasher::new();
    write_text(&mut h, s);
    assert(h@ =~= text_writes(s@));
    let mut k = String::new();
    push_hex(&mut k, h.finish(), 16);
    assert(k@ =~= key(s@));
    k
}

/// Every hash counts, and twice the same cancels out.
pub proof fn law_every_hash_counts(hashes: Seq<u64>, h: u64)
    ensures
        combined(Seq::<u64>::empty()) == 0,
        combined(hashes.push(h)) == combined(hashes) ^ h,
        combined(hashes.push(h).push(h)) == combined(hashes),
{
    assert(hashes.push(h).drop_last() =~= hashes);
    assert(hashes.push(h).push(h).drop_last() =~= hashes.push(h));
    let c = combined(hashes);
    assert(combined(hashes.push(h)) == c ^ h);
    assert((c ^ h) ^ h == c) by (bit_vector);
}

/// A number is written in as many digits as asked for, each from `0` to `9` or from
/// `a` to `f`: the last one is what is left of it divided by sixteen, and those before
/// it are the digits of the quotient.
pub proof fn law_keys(n: u64, k: nat)
    ensures
        hex_tail(n, k).len() == k,
        forall|i: int|
            0 <= i < k ==> '0' <= #[trigger] hex_tail(n, k)[i] <= '9' || 'a' <= hex_tail(n, k)[i] <= 'f',
        k > 0 && n % 16 < 10 ==> hex_tail(n, k).last() as u32 == 48 + n % 16,
        k > 0 && n % 16 >= 10 ==> hex_tail(n, k).last() as u32 == 87 + n % 16,
        k > 0 ==> hex_tail(n, k).drop_last() == hex_tail((n / 16) as u64, (k - 1) as nat),
    decreases k,
{
    if k > 0 {
        law_keys((n / 16) as u64, (k - 1) as nat);
        let rest = hex_tail((n / 16) as u64, (k - 1) as nat);
        let all = hex_tail(n, k);
        assert(all.drop_last() =~= rest);
        assert forall|i: int| 0 <= i < k implies '0' <= #[trigger] all[i] <= '9' || 'a' <= all[i] <= 'f' by {
            if i < k - 1 {
                assert(all[i] == rest[i]);
            }
        }
    }
}

} // verus!
