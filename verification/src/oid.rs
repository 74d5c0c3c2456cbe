//! Object ids, and the small collections keyed by them.
use vstd::prelude::*;

verus! {

/// A git object id: twenty bytes, held as five big-endian words.
#[derive(Clone, Copy, PartialEq, Eq, Structural, Debug, PartialOrd, Ord, Hash)]
pub struct Oid {
    pub w0: u32,
    pub w1: u32,
    pub w2: u32,
    pub w3: u32,
    pub w4: u32,
}

/// The `i`th of the five words of an id.
pub open spec fn word_at(o: Oid, i: int) -> u32 {
    if i == 0 {
        o.w0
    } else if i == 1 {
        o.w1
    } else if i == 2 {
        o.w2
    } else if i == 3 {
        o.w3
    } else {
        o.w4
    }
}

/// The `k`th byte of a word, most significant first.
pub open spec fn word_byte(w: u32, k: int) -> u8 {
    ((w >> ((24 - 8 * k) as u32)) & 0xff) as u8
}

/// The lowercase hexadecimal digit for a value below sixteen.
pub open spec fn hex_digit(n: u32) -> char {
    if n < 10 {
        (('0' as u32) + n) as char
    } else {
        (('a' as u32) + (n - 10)) as char
    }
}

/// The value of a hexadecimal digit of either case.
pub open spec fn hex_value(c: char) -> Option<u32> {
    if '0' <= c <= '9' {
        Some((c as u32 - '0' as u32) as u32)
    } else if 'a' <= c <= 'f' {
        Some((c as u32 - 'a' as u32 + 10) as u32)
    } else if 'A' <= c <= 'F' {
        Some((c as u32 - 'A' as u32 + 10) as u32)
    } else {
        None
    }
}

/// The hexadecimal digits of some bytes, two for each byte.
pub open spec fn hex_digits(bytes: Seq<u8>) -> Seq<u32> {
    Seq::new(
        2 * bytes.len(),
        |i: int|
            if i % 2 == 0 {
                (bytes[i / 2] / 16) as u32
            } else {
                (bytes[i / 2] % 16) as u32
            },
    )
}

/// Some bytes in lowercase hexadecimal.
pub open spec fn hex_text(bytes: Seq<u8>) -> Seq<char> {
    Seq::new(2 * bytes.len(), |i: int| hex_digit(hex_digits(bytes)[i]))
}

impl Oid {
    /// The forty-character hexadecimal form.
    pub open spec fn hex(self) -> Seq<char> {
        hex_text(self.raw())
    }

    /// The twenty bytes of the id.
    pub open spec fn raw(self) -> Seq<u8> {
        Seq::new(20, |i: int| word_byte(word_at(self, i / 4), i % 4))
    }

    /// The all-zero id.
    pub fn zero() -> (o: Oid)
        ensures
            o == (Oid { w0: 0, w1: 0, w2: 0, w3: 0, w4: 0 }),
    {
        Oid { w0: 0, w1: 0, w2: 0, w3: 0, w4: 0 }
    }

    /// The id made of exactly twenty bytes.
    pub fn from_bytes(bytes: &[u8]) -> (o: Option<Oid>)
        ensures
            o is Some <==> bytes@.len() == 20,
            o is Some ==> o->0.raw() == bytes@,
    {
        if bytes.len() != 20 {
            return None;
        }
        let o = Oid {
            w0: join_word(bytes[0], bytes[1], bytes[2], bytes[3]),
            w1: join_word(bytes[4], bytes[5], bytes[6], bytes[7]),
            w2: join_word(bytes[8], bytes[9], bytes[10], bytes[11]),
            w3: join_word(bytes[12], bytes[13], bytes[14], bytes[15]),
            w4: join_word(bytes[16], bytes[17], bytes[18], bytes[19]),
        };
        assert forall|i: int| 0 <= i < 20 implies o.raw()[i] == bytes@[i] by {
            assert(i == 4 * (i / 4) + i % 4);
            assert(word_at(o, i / 4) == joined(
                bytes@[4 * (i / 4)],
                bytes@[4 * (i / 4) + 1],
                bytes@[4 * (i / 4) + 2],
                bytes@[4 * (i / 4) + 3],
            ));
            lemma_join_word_bytes(
                bytes@[4 * (i / 4)],
                bytes@[4 * (i / 4) + 1],
                bytes@[4 * (i / 4) + 2],
                bytes@[4 * (i / 4) + 3],
            );
        }
        assert(o.raw() =~= bytes@);
        Some(o)
    }

    /// The twenty bytes of this id.
    pub fn as_bytes(&self) -> (bytes: Vec<u8>)
        ensures
            bytes@ == self.raw(),
    {
        let words: [u32; 5] = [self.w0, self.w1, self.w2, self.w3, self.w4];
        let mut out: Vec<u8> = Vec::new();
        let mut i: usize = 0;
        while i < 5
            invariant
                0 <= i <= 5,
                words@ == seq![self.w0, self.w1, self.w2, self.w3, self.w4],
                out@.len() == 4 * i,
                forall|k: int| 0 <= k < 4 * i ==> out@[k] == self.raw()[k],
            decreases 5 - i,
        {
            let w = words[i];
            assert(w == word_at(*self, i as int));
            proof {
                lemma_word_bytes(w);
            }
            let ghost before = out@;
            out.push(((w >> 24u32) & 0xff) as u8);
            out.push(((w >> 16u32) & 0xff) as u8);
            out.push(((w >> 8u32) & 0xff) as u8);
            out.push(((w >> 0u32) & 0xff) as u8);
            assert forall|k: int| 0 <= k < 4 * (i + 1) implies out@[k] == self.raw()[k] by {
                if k < 4 * i {
                    assert(out@[k] == before[k]);
                } else {
                    assert(k / 4 == i && k % 4 == k - 4 * i);
                }
            }
            i = i + 1;
        }
        assert(out@ =~= self.raw());
        out
    }
}

spec fn joined(a: u8, b: u8, c: u8, d: u8) -> u32 {
    ((a as u32) << 24u32) | ((b as u32) << 16u32) | ((c as u32) << 8u32) | (d as u32)
}

fn join_word(a: u8, b: u8, c: u8, d: u8) -> (w: u32)
    ensures
        w == joined(a, b, c, d),
{
    ((a as u32) << 24u32) | ((b as u32) << 16u32) | ((c as u32) << 8u32) | (d as u32)
}

proof fn lemma_join_word_bytes(a: u8, b: u8, c: u8, d: u8)
    ensures
        word_byte(joined(a, b, c, d), 0) == a,
        word_byte(joined(a, b, c, d), 1) == b,
        word_byte(joined(a, b, c, d), 2) == c,
        word_byte(joined(a, b, c, d), 3) == d,
{
    let w = joined(a, b, c, d);
    assert((((w >> 24u32) & 0xff) as u8) == a && (((w >> 16u32) & 0xff) as u8) == b && (((w
        >> 8u32) & 0xff) as u8) == c && (((w >> 0u32) & 0xff) as u8) == d) by (bit_vector)
        requires
            w == ((a as u32) << 24u32) | ((b as u32) << 16u32) | ((c as u32) << 8u32) | (d as u32),
    ;
}

proof fn lemma_word_bytes(w: u32)
    ensures
        word_byte(w, 0) == ((w >> 24u32) & 0xff) as u8,
        word_byte(w, 1) == ((w >> 16u32) & 0xff) as u8,
        word_byte(w, 2) == ((w >> 8u32) & 0xff) as u8,
        word_byte(w, 3) == ((w >> 0u32) & 0xff) as u8,
{
}

proof fn lemma_word_from_bytes(a: u32, b: u32)
    requires
        forall|k: int| 0 <= k < 4 ==> #[trigger] word_byte(a, k) == word_byte(b, k),
    ensures
        a == b,
{
    lemma_word_bytes(a);
    lemma_word_bytes(b);
    assert(word_byte(a, 0) == word_byte(b, 0));
    assert(word_byte(a, 1) == word_byte(b, 1));
    assert(word_byte(a, 2) == word_byte(b, 2));
    assert(word_byte(a, 3) == word_byte(b, 3));
    assert(a == b) by (bit_vector)
        requires
            ((a >> 24u32) & 0xff) as u8 == ((b >> 24u32) & 0xff) as u8,
            ((a >> 16u32) & 0xff) as u8 == ((b >> 16u32) & 0xff) as u8,
            ((a >> 8u32) & 0xff) as u8 == ((b >> 8u32) & 0xff) as u8,
            ((a >> 0u32) & 0xff) as u8 == ((b >> 0u32) & 0xff) as u8,
    ;
}

/// Two ids with the same twenty bytes are the same id.
pub proof fn lemma_raw_injective(a: Oid, b: Oid)
    requires
        a.raw() == b.raw(),
    ensures
        a == b,
{
    assert forall|j: int, k: int| 0 <= j < 5 && 0 <= k < 4 implies #[trigger] word_byte(
        word_at(a, j),
        k,
    ) == word_byte(word_at(b, j), k) by {
        let i = 4 * j + k;
        assert(i / 4 == j && i % 4 == k);
        assert(a.raw()[i] == word_byte(word_at(a, i / 4), i % 4));
        assert(b.raw()[i] == word_byte(word_at(b, i / 4), i % 4));
    }
    lemma_word_from_bytes(word_at(a, 0), word_at(b, 0));
    lemma_word_from_bytes(word_at(a, 1), word_at(b, 1));
    lemma_word_from_bytes(word_at(a, 2), word_at(b, 2));
    lemma_word_from_bytes(word_at(a, 3), word_at(b, 3));
    lemma_word_from_bytes(word_at(a, 4), word_at(b, 4));
}

proof fn lemma_bytes_from_digits(a: Seq<u8>, b: Seq<u8>)
    requires
        a.len() == b.len(),
        hex_digits(a) == hex_digits(b),
    ensures
        a == b,
{
    assert forall|i: int| 0 <= i < a.len() implies a[i] == b[i] by {
        assert((2 * i) / 2 == i && (2 * i) % 2 == 0);
        assert((2 * i + 1) / 2 == i && (2 * i + 1) % 2 == 1);
        assert(hex_digits(a)[2 * i] == (a[i] / 16) as u32);
        assert(hex_digits(b)[2 * i] == (b[i] / 16) as u32);
        assert(hex_digits(a)[2 * i + 1] == (a[i] % 16) as u32);
        assert(hex_digits(b)[2 * i + 1] == (b[i] % 16) as u32);
    }
    assert(a =~= b);
}

/// Whether `text` is accepted as an id: one to forty hexadecimal digits.
pub open spec fn is_hex_oid(text: Seq<char>) -> bool {
    &&& 1 <= text.len() <= 40
    &&& forall|i: int| 0 <= i < text.len() ==> (#[trigger] hex_value(text[i])) is Some
}

/// The twenty bytes that `text` names: its digits, then zeros up to forty.
pub open spec fn names_bytes(text: Seq<char>, bytes: Seq<u8>) -> bool {
    &&& bytes.len() == 20
    &&& forall|i: int|
        0 <= i < 40 ==> #[trigger] hex_digits(bytes)[i] == (if i < text.len() {
            hex_value(text[i])->0
        } else {
            0
        })
}

/// The id that `text` names, where it names one.
pub open spec fn read(text: Seq<char>) -> Option<Oid> {
    if is_hex_oid(text) {
        Some(choose|o: Oid| #[trigger] names_bytes(text, o.raw()))
    } else {
        None
    }
}

/// A text names one id at most.
pub proof fn lemma_read(text: Seq<char>, o: Oid)
    requires
        is_hex_oid(text),
        names_bytes(text, o.raw()),
    ensures
        read(text) == Some(o),
{
    let p = choose|p: Oid| #[trigger] names_bytes(text, p.raw());
    assert(names_bytes(text, p.raw()));
    assert forall|i: int| 0 <= i < 40 implies hex_digits(p.raw())[i] == hex_digits(o.raw())[i] by {}
    assert(hex_digits(p.raw()) =~= hex_digits(o.raw()));
    lemma_bytes_from_digits(p.raw(), o.raw());
    lemma_raw_injective(p, o);
}

/// Calls `git2::Oid::from_str`. It fails on an empty string, on more than
/// forty characters and on a character that is not a hexadecimal digit;
/// otherwise the digits fill the id from the front and the rest is zero.
#[verifier::external_body]
fn git2_parse_oid(text: &str) -> (bytes: Option<Vec<u8>>)
    ensures
        bytes is Some <==> is_hex_oid(text@),
        bytes is Some ==> names_bytes(text@, bytes->0@),
{
    match git2::Oid::from_str(text) {
        Ok(oid) => Some(oid.as_bytes().to_vec()),
        Err(_) => None,
    }
}

/// Calls `git2::Oid::from_bytes` and formats the id with its `Display`: forty
/// lowercase hexadecimal digits, two for each byte.
#[verifier::external_body]
fn git2_format_oid(bytes: &[u8]) -> (text: String)
    requires
        bytes@.len() == 20,
    ensures
        text@ == hex_text(bytes@),
{
    git2::Oid::from_bytes(bytes).unwrap().to_string()
}

impl Oid {
    /// Parse a hexadecimal id. A short form is completed with zeros.
    pub fn from_str(text: &str) -> (o: Option<Oid>)
        ensures
            o is Some <==> is_hex_oid(text@),
            o is Some ==> names_bytes(text@, o->0.raw()),
            o == read(text@),
    {
        match git2_parse_oid(text) {
            Some(bytes) => {
                let o = Oid::from_bytes(bytes.as_slice());
                proof {
                    lemma_read(text@, o->0);
                }
                o
            },
            None => None,
        }
    }

    /// The forty-character lowercase hexadecimal form.
    pub fn to_string(&self) -> (text: String)
        ensures
            text@ == self.hex(),
    {
        let bytes = self.as_bytes();
        git2_format_oid(bytes.as_slice())
    }
}

/// The hexadecimal form of an id names that id and no other: formatting an id
/// and parsing the result gives the id back.
pub proof fn law_hex_round_trip(o: Oid)
    ensures
        is_hex_oid(o.hex()),
        read(o.hex()) == Some(o),
        forall|p: Oid| #[trigger] names_bytes(o.hex(), p.raw()) <==> p == o,
{
    assert forall|i: int| 0 <= i < 40 implies (#[trigger] hex_value(o.hex()[i])) == Some(
        hex_digits(o.raw())[i],
    ) by {
        assert(hex_digits(o.raw())[i] < 16);
    }
    assert forall|p: Oid| #[trigger] names_bytes(o.hex(), p.raw()) implies p == o by {
        assert forall|i: int| 0 <= i < 40 implies hex_digits(p.raw())[i] == hex_digits(
            o.raw(),
        )[i] by {
            assert(hex_value(o.hex()[i]) == Some(hex_digits(o.raw())[i]));
        }
        assert(hex_digits(p.raw()) =~= hex_digits(o.raw()));
        lemma_bytes_from_digits(p.raw(), o.raw());
        lemma_raw_injective(p, o);
    }
    assert forall|i: int| 0 <= i < 40 implies #[trigger] hex_digits(o.raw())[i] == (if i
        < o.hex().len() {
        hex_value(o.hex()[i])->0
    } else {
        0
    }) by {
        assert(hex_value(o.hex()[i]) == Some(hex_digits(o.raw())[i]));
    }
    lemma_read(o.hex(), o);
}

/// A set of ids, in the order in which they were first inserted.
#[derive(Debug)]
pub struct OidSet {
    items: Vec<Oid>,
}

impl View for OidSet {
    type V = Set<Oid>;

    closed spec fn view(&self) -> Set<Oid> {
        self.items@.to_set()
    }
}

impl OidSet {
    #[verifier::type_invariant]
    spec fn distinct(self) -> bool {
        self.items@.no_duplicates()
    }

    /// The empty set.
    pub fn new() -> (s: OidSet)
        ensures
            s@ == Set::<Oid>::empty(),
    {
        let s = OidSet { items: Vec::new() };
        assert(s@ =~= Set::<Oid>::empty());
        s
    }

    /// The ids of a slice.
    pub fn from_slice(items: &[Oid]) -> (s: OidSet)
        ensures
            s@ == items@.to_set(),
    {
        let mut s = OidSet::new();
        let mut i: usize = 0;
        assert(s@ =~= items@.take(0).to_set());
        while i < items.len()
            invariant
                0 <= i <= items.len(),
                s@ == items@.take(i as int).to_set(),
            decreases items.len() - i,
        {
            s.insert(items[i]);
            proof {
                lemma_to_set_push(items@.take(i as int), items@[i as int]);
                assert(items@.take(i as int).push(items@[i as int]) =~= items@.take(i + 1));
            }
            i = i + 1;
        }
        assert(items@.take(i as int) =~= items@);
        s
    }

    /// Whether `oid` is in the set.
    pub fn contains(&self, oid: &Oid) -> (found: bool)
        ensures
            found == self@.contains(*oid),
    {
        let mut i: usize = 0;
        while i < self.items.len()
            invariant
                0 <= i <= self.items.len(),
                forall|j: int| 0 <= j < i ==> self.items@[j] != *oid,
            decreases self.items.len() - i,
        {
            if self.items[i] == *oid {
                assert(self.items@.contains(*oid));
                return true;
            }
            i = i + 1;
        }
        false
    }

    /// Add `oid`; whether it was new.
    pub fn insert(&mut self, oid: Oid) -> (new: bool)
        ensures
            new == !old(self)@.contains(oid),
            final(self)@ == old(self)@.insert(oid),
    {
        proof {
            use_type_invariant(&*self);
        }
        if self.contains(&oid) {
            assert(self@ =~= self@.insert(oid));
            return false;
        }
        let mut items: Vec<Oid> = Vec::new();
        std::mem::swap(&mut items, &mut self.items);
        proof {
            lemma_to_set_push(items@, oid);
            assert(!items@.contains(oid));
        }
        items.push(oid);
        self.items = items;
        true
    }

    /// How many ids the set holds.
    pub fn len(&self) -> (n: usize)
        ensures
            n == self@.len(),
            self@.finite(),
    {
        proof {
            use_type_invariant(self);
            self.items@.unique_seq_to_set();
            vstd::seq_lib::seq_to_set_is_finite(self.items@);
        }
        self.items.len()
    }

    /// Whether the set is empty.
    pub fn is_empty(&self) -> (empty: bool)
        ensures
            empty == (self@ == Set::<Oid>::empty()),
    {
        proof {
            if self.items@.len() > 0 {
                assert(self.items@.contains(self.items@[0]));
                assert(self@.contains(self.items@[0]));
            } else {
                assert(self@ =~= Set::<Oid>::empty());
            }
        }
        self.items.len() == 0
    }
}

impl Clone for OidSet {
    fn clone(&self) -> (s: OidSet)
        ensures
            s@ == self@,
    {
        OidSet::from_slice(self.items.as_slice())
    }
}

proof fn lemma_to_set_push(s: Seq<Oid>, o: Oid)
    ensures
        s.push(o).to_set() == s.to_set().insert(o),
{
    assert forall|x: Oid| s.push(o).to_set().contains(x) == s.to_set().insert(o).contains(x) by {
        if s.contains(x) {
            let i = choose|i: int| 0 <= i < s.len() && s[i] == x;
            assert(s.push(o)[i] == x);
        }
        assert(s.push(o)[s.len() as int] == o);
    }
    assert(s.push(o).to_set() =~= s.to_set().insert(o));
}

/// The map that a log of insertions builds: a later entry replaces an earlier
/// one with its key.
pub open spec fn log_map<K, V>(log: Seq<(K, V)>) -> Map<K, V>
    decreases log.len(),
{
    if log.len() == 0 {
        Map::empty()
    } else {
        log_map(log.drop_last()).insert(log.last().0, log.last().1)
    }
}

proof fn lemma_log_map_take<K, V>(log: Seq<(K, V)>, i: int)
    requires
        0 < i <= log.len(),
    ensures
        log_map(log.take(i)) == log_map(log.take(i - 1)).insert(log[i - 1].0, log[i - 1].1),
{
    assert(log.take(i).drop_last() =~= log.take(i - 1));
}

/// A map from ids to small values.
#[derive(Debug)]
pub struct OidMap<V> {
    log: Vec<(Oid, V)>,
}

impl<V> View for OidMap<V> {
    type V = Map<Oid, V>;

    closed spec fn view(&self) -> Map<Oid, V> {
        log_map(self.log@)
    }
}

impl<V: Copy> OidMap<V> {
    /// The empty map.
    pub fn new() -> (m: OidMap<V>)
        ensures
            m@ == Map::<Oid, V>::empty(),
    {
        OidMap { log: Vec::new() }
    }

    /// What `oid` is mapped to.
    pub fn get(&self, oid: &Oid) -> (v: Option<V>)
        ensures
            v == (if self@.dom().contains(*oid) {
                Some(self@[*oid])
            } else {
                None
            }),
    {
        let mut i: usize = self.log.len();
        assert(self.log@.take(i as int) =~= self.log@);
        while i > 0
            invariant
                0 <= i <= self.log.len(),
                self@.dom().contains(*oid) == log_map(self.log@.take(i as int)).dom().contains(
                    *oid,
                ),
                self@[*oid] == log_map(self.log@.take(i as int))[*oid],
            decreases i,
        {
            proof {
                lemma_log_map_take(self.log@, i as int);
            }
            i = i - 1;
            if self.log[i].0 == *oid {
                return Some(self.log[i].1);
            }
        }
        None
    }

    /// Whether `oid` has a value.
    pub fn contains_key(&self, oid: &Oid) -> (found: bool)
        ensures
            found == self@.dom().contains(*oid),
    {
        self.get(oid).is_some()
    }

    /// Map `oid` to `value`.
    pub fn insert(&mut self, oid: Oid, value: V)
        ensures
            final(self)@ == old(self)@.insert(oid, value),
    {
        self.log.push((oid, value));
        assert(self.log@.drop_last() =~= old(self).log@);
    }
}

/// A map from `(child, parent)` edges to ids.
#[derive(Debug)]
pub struct EdgeMap {
    log: Vec<((Oid, Oid), Oid)>,
}

impl View for EdgeMap {
    type V = Map<(Oid, Oid), Oid>;

    closed spec fn view(&self) -> Map<(Oid, Oid), Oid> {
        log_map(self.log@)
    }
}

impl EdgeMap {
    /// The empty map.
    pub fn new() -> (m: EdgeMap)
        ensures
            m@ == Map::<(Oid, Oid), Oid>::empty(),
    {
        EdgeMap { log: Vec::new() }
    }

    /// What `edge` is mapped to.
    pub fn get(&self, edge: &(Oid, Oid)) -> (v: Option<Oid>)
        ensures
            v == (if self@.dom().contains(*edge) {
                Some(self@[*edge])
            } else {
                None
            }),
    {
        let mut i: usize = self.log.len();
        assert(self.log@.take(i as int) =~= self.log@);
        while i > 0
            invariant
                0 <= i <= self.log.len(),
                self@.dom().contains(*edge) == log_map(self.log@.take(i as int)).dom().contains(
                    *edge,
                ),
                self@[*edge] == log_map(self.log@.take(i as int))[*edge],
            decreases i,
        {
            proof {
                lemma_log_map_take(self.log@, i as int);
            }
            i = i - 1;
            if self.log[i].0.0 == edge.0 && self.log[i].0.1 == edge.1 {
                return Some(self.log[i].1);
            }
        }
        None
    }

    /// Whether `edge` has a value.
    pub fn contains_key(&self, edge: &(Oid, Oid)) -> (found: bool)
        ensures
            found == self@.dom().contains(*edge),
    {
        self.get(edge).is_some()
    }

    /// Map `edge` to `value`.
    pub fn insert(&mut self, edge: (Oid, Oid), value: Oid)
        ensures
            final(self)@ == old(self)@.insert(edge, value),
    {
        self.log.push((edge, value));
        assert(self.log@.drop_last() =~= old(self).log@);
    }
}

/// Ids are written in lowercase: the sixteen digits by value.
pub proof fn law_hex_digits(n: u32, c: char)
    requires
        n < 16,
    ensures
        hex_digit(n) == seq![
            '0', '1', '2', '3', '4', '5', '6', '7', '8', '9', 'a', 'b', 'c', 'd', 'e', 'f',
        ][n as int],
        hex_value(hex_digit(n)) == Some(n),
        hex_value(c) is Some <==> ('0' <= c <= '9' || 'a' <= c <= 'f' || 'A' <= c <= 'F'),
        'A' <= c <= 'F' ==> hex_value(c) == hex_value((c as u32 + 32) as char),
{
}

/// The text of an id: forty digits, two to a byte, the higher half first.
pub proof fn law_text_of_an_id(o: Oid, i: int)
    requires
        0 <= i < 20,
    ensures
        o.hex().len() == 40,
        hex_value(o.hex()[2 * i]) == Some((o.raw()[i] / 16) as u32),
        hex_value(o.hex()[2 * i + 1]) == Some((o.raw()[i] % 16) as u32),
{
    let d = hex_digits(o.raw());
    assert(d[2 * i] == o.raw()[i] / 16);
    assert(d[2 * i + 1] == o.raw()[i] % 16);
    law_hex_digits(d[2 * i], '0');
    law_hex_digits(d[2 * i + 1], '0');
}

} // verus!
