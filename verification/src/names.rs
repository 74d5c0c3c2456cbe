//! Sets of names, and maps from names to ids.
use crate::oid::Oid;
use crate::text;
use vstd::prelude::*;
use vstd::string::*;

verus! {

/// A set of names, in the order in which they were first inserted.
#[derive(Debug)]
pub struct NameSet {
    names: Vec<String>,
}

impl View for NameSet {
    type V = Set<Seq<char>>;

    closed spec fn view(&self) -> Set<Seq<char>> {
        text::texts(self.names@).to_set()
    }
}

pub proof fn lemma_name_set_push(s: Seq<Seq<char>>, name: Seq<char>)
    ensures
        s.push(name).to_set() == s.to_set().insert(name),
{
    assert forall|x: Seq<char>| s.push(name).to_set().contains(x) == s.to_set().insert(
        name,
    ).contains(x) by {
        if s.contains(x) {
            let i = choose|i: int| 0 <= i < s.len() && s[i] == x;
            assert(s.push(name)[i] == x);
        }
        assert(s.push(name)[s.len() as int] == name);
    }
    assert(s.push(name).to_set() =~= s.to_set().insert(name));
}

impl NameSet {
    #[verifier::type_invariant]
    spec fn distinct(self) -> bool {
        text::texts(self.names@).no_duplicates()
    }

    /// The names in the order in which they were first inserted.
    pub closed spec fn list(&self) -> Seq<Seq<char>> {
        text::texts(self.names@)
    }

    /// The empty set.
    pub fn new() -> (s: NameSet)
        ensures
            s@ == Set::<Seq<char>>::empty(),
    {
        let s = NameSet { names: Vec::new() };
        assert(text::texts(s.names@) =~= Seq::<Seq<char>>::empty());
        assert(s@ =~= Set::<Seq<char>>::empty());
        s
    }

    /// Whether `name` is in the set.
    pub fn contains(&self, name: &str) -> (found: bool)
        ensures
            found == self@.contains(name@),
    {
        let mut i: usize = 0;
        while i < self.names.len()
            invariant
                0 <= i <= self.names.len(),
                forall|j: int| 0 <= j < i ==> text::texts(self.names@)[j] != name@,
            decreases self.names.len() - i,
        {
            assert(text::texts(self.names@)[i as int] == self.names@[i as int]@);
            if text::same_text(self.names[i].as_str(), name) {
                return true;
            }
            i = i + 1;
        }
        false
    }

    /// Add `name`; whether it was new.
    pub fn insert(&mut self, name: String) -> (new: bool)
        ensures
            new == !old(self)@.contains(name@),
            final(self)@ == old(self)@.insert(name@),
    {
        proof {
            use_type_invariant(&*self);
        }
        if self.contains(name.as_str()) {
            assert(self@ =~= self@.insert(name@));
            return false;
        }
        let mut names: Vec<String> = Vec::new();
        std::mem::swap(&mut names, &mut self.names);
        let ghost before = text::texts(names@);
        proof {
            lemma_name_set_push(before, name@);
            assert(!before.contains(name@));
        }
        names.push(name);
        assert(text::texts(names@) =~= before.push(name@));
        self.names = names;
        true
    }

    /// The names of a list.
    pub fn from_list(names: &[String]) -> (s: NameSet)
        ensures
            s@ == text::texts(names@).to_set(),
    {
        let ghost list = text::texts(names@);
        let mut s = NameSet::new();
        let mut i: usize = 0;
        assert(s@ =~= list.take(0).to_set());
        while i < names.len()
            invariant
                0 <= i <= names.len(),
                list == text::texts(names@),
                s@ == list.take(i as int).to_set(),
            decreases names.len() - i,
        {
            s.insert(names[i].clone());
            proof {
                lemma_name_set_push(list.take(i as int), list[i as int]);
                assert(list.take(i as int).push(list[i as int]) =~= list.take(i + 1));
            }
            i = i + 1;
        }
        assert(list.take(i as int) =~= list);
        s
    }

    /// How many names the set holds.
    pub fn len(&self) -> (n: usize)
        ensures
            n == self@.len(),
            self@.finite(),
    {
        proof {
            use_type_invariant(self);
            text::texts(self.names@).unique_seq_to_set();
            vstd::seq_lib::seq_to_set_is_finite(text::texts(self.names@));
        }
        self.names.len()
    }

    /// Whether the set is empty.
    pub fn is_empty(&self) -> (empty: bool)
        ensures
            empty == (self@ == Set::<Seq<char>>::empty()),
    {
        proof {
            let list = text::texts(self.names@);
            if list.len() > 0 {
                assert(list.contains(list[0]));
                assert(self@.contains(list[0]));
            } else {
                assert(self@ =~= Set::<Seq<char>>::empty());
            }
        }
        self.names.len() == 0
    }

    /// The names, each once.
    pub fn names(&self) -> (names: &[String])
        ensures
            text::texts(names@) == self.list(),
            self@ == self.list().to_set(),
            self.list().no_duplicates(),
    {
        proof {
            use_type_invariant(self);
        }
        self.names.as_slice()
    }
}

impl Clone for NameSet {
    fn clone(&self) -> (s: NameSet)
        ensures
            s@ == self@,
    {
        NameSet::from_list(self.names.as_slice())
    }
}

/// The map that pairs stand for.
pub open spec fn pair_map(pairs: Seq<(Seq<char>, Oid)>) -> Map<Seq<char>, Oid> {
    crate::oid::log_map(pairs)
}

/// Names with their ids as mathematical values.
pub open spec fn name_pairs(v: Seq<(String, Oid)>) -> Seq<(Seq<char>, Oid)> {
    v.map_values(|p: (String, Oid)| (p.0@, p.1))
}

/// A map from names to ids.
#[derive(Debug)]
pub struct NameMap {
    pairs: Vec<(String, Oid)>,
}

impl View for NameMap {
    type V = Map<Seq<char>, Oid>;

    closed spec fn view(&self) -> Map<Seq<char>, Oid> {
        pair_map(name_pairs(self.pairs@))
    }
}

/// Every name occurs once.
pub open spec fn distinct_names(pairs: Seq<(Seq<char>, Oid)>) -> bool {
    forall|i: int, j: int|
        0 <= i < pairs.len() && 0 <= j < pairs.len() && (#[trigger] pairs[i]).0 == (
        #[trigger] pairs[j]).0 ==> i == j
}

/// What a map of distinct names holds.
pub proof fn lemma_pair_map(pairs: Seq<(Seq<char>, Oid)>)
    requires
        distinct_names(pairs),
    ensures
        forall|k: Seq<char>| #[trigger]
            pair_map(pairs).dom().contains(k) <==> exists|i: int|
                0 <= i < pairs.len() && (#[trigger] pairs[i]).0 == k,
        forall|i: int|
            0 <= i < pairs.len() ==> pair_map(pairs)[(#[trigger] pairs[i]).0] == pairs[i].1,
    decreases pairs.len(),
{
    if pairs.len() > 0 {
        let rest = pairs.drop_last();
        assert(distinct_names(rest)) by {
            assert forall|i: int, j: int|
                0 <= i < rest.len() && 0 <= j < rest.len() && (#[trigger] rest[i]).0 == (
                #[trigger] rest[j]).0 implies i == j by {
                assert(pairs[i].0 == pairs[j].0);
            }
        }
        lemma_pair_map(rest);
        assert forall|k: Seq<char>| #[trigger] pair_map(pairs).dom().contains(k) == exists|i: int|
            0 <= i < pairs.len() && (#[trigger] pairs[i]).0 == k by {
            if pair_map(rest).dom().contains(k) {
                let i = choose|i: int| 0 <= i < rest.len() && (#[trigger] rest[i]).0 == k;
                assert(pairs[i].0 == k);
            }
            if k == pairs.last().0 {
                assert(pairs[pairs.len() - 1].0 == k);
            }
            if exists|i: int| 0 <= i < pairs.len() && (#[trigger] pairs[i]).0 == k {
                let i = choose|i: int| 0 <= i < pairs.len() && (#[trigger] pairs[i]).0 == k;
                if i < rest.len() {
                    assert(rest[i].0 == k);
                }
            }
        }
        assert forall|i: int| 0 <= i < pairs.len() implies pair_map(pairs)[(
        #[trigger] pairs[i]).0] == pairs[i].1 by {
            if i < rest.len() {
                assert(rest[i] == pairs[i]);
                assert(pairs[i].0 != pairs[pairs.len() - 1].0);
            }
        }
    }
}

impl NameMap {
    #[verifier::type_invariant]
    spec fn distinct(self) -> bool {
        distinct_names(name_pairs(self.pairs@))
    }

    /// The pairs in the order in which their names were first inserted.
    pub closed spec fn list(&self) -> Seq<(Seq<char>, Oid)> {
        name_pairs(self.pairs@)
    }

    /// The empty map.
    pub fn new() -> (m: NameMap)
        ensures
            m@ == Map::<Seq<char>, Oid>::empty(),
            m.list() == Seq::<(Seq<char>, Oid)>::empty(),
    {
        let m = NameMap { pairs: Vec::new() };
        assert(name_pairs(m.pairs@) =~= Seq::<(Seq<char>, Oid)>::empty());
        m
    }

    fn position(&self, name: &str) -> (at: Option<usize>)
        ensures
            at is Some ==> at->0 < self.pairs@.len() && self.list()[at->0 as int].0 == name@,
            at is None ==> forall|i: int|
                0 <= i < self.list().len() ==> (#[trigger] self.list()[i]).0 != name@,
    {
        let mut i: usize = 0;
        while i < self.pairs.len()
            invariant
                0 <= i <= self.pairs.len(),
                forall|j: int| 0 <= j < i ==> (#[trigger] self.list()[j]).0 != name@,
            decreases self.pairs.len() - i,
        {
            assert(self.list()[i as int].0 == self.pairs@[i as int].0@);
            if text::same_text(self.pairs[i].0.as_str(), name) {
                return Some(i);
            }
            i = i + 1;
        }
        None
    }

    /// What `name` is mapped to.
    pub fn get(&self, name: &str) -> (v: Option<Oid>)
        ensures
            v == (if self@.dom().contains(name@) {
                Some(self@[name@])
            } else {
                None
            }),
    {
        proof {
            use_type_invariant(self);
            lemma_pair_map(self.list());
        }
        match self.position(name) {
            Some(i) => {
                assert(self.list()[i as int] == (self.pairs@[i as int].0@, self.pairs@[i as int].1));
                Some(self.pairs[i].1)
            },
            None => None,
        }
    }

    /// Map `name` to `oid`.
    pub fn insert(&mut self, name: String, oid: Oid)
        ensures
            final(self)@ == old(self)@.insert(name@, oid),
    {
        proof {
            use_type_invariant(&*self);
            lemma_pair_map(self.list());
        }
        let ghost before = self.list();
        let ghost key = name@;
        let at = self.position(name.as_str());
        let mut pairs: Vec<(String, Oid)> = Vec::new();
        std::mem::swap(&mut pairs, &mut self.pairs);
        match at {
            Some(i) => {
                pairs.set(i, (name, oid));
                assert(name_pairs(pairs@) =~= before.update(i as int, (key, oid)));
            },
            None => {
                pairs.push((name, oid));
                assert(name_pairs(pairs@) =~= before.push((key, oid)));
            },
        }
        let ghost now = name_pairs(pairs@);
        proof {
            assert forall|i: int, j: int|
                0 <= i < now.len() && 0 <= j < now.len() && (#[trigger] now[i]).0 == (
                #[trigger] now[j]).0 implies i == j by {
                if i < before.len() && j < before.len() {
                    assert(before[i].0 == before[j].0);
                }
            }
            lemma_pair_map(now);
            assert forall|k: Seq<char>| pair_map(now).dom().contains(k) == pair_map(before).insert(
                key,
                oid,
            ).dom().contains(k) by {
                if pair_map(before).dom().contains(k) {
                    let i = choose|i: int| 0 <= i < before.len() && (#[trigger] before[i]).0 == k;
                    assert(now[i].0 == k);
                }
                if pair_map(now).dom().contains(k) && k != key {
                    let i = choose|i: int| 0 <= i < now.len() && (#[trigger] now[i]).0 == k;
                    assert(before[i].0 == k);
                }
                if k == key {
                    match at {
                        Some(i) => {
                            assert(now[i as int].0 == key);
                        },
                        None => {
                            assert(now[before.len() as int].0 == key);
                        },
                    }
                }
            }
            assert forall|k: Seq<char>| #[trigger]
                pair_map(now).dom().contains(k) implies pair_map(now)[k] == pair_map(
                before,
            ).insert(key, oid)[k] by {
                let i = choose|i: int| 0 <= i < now.len() && (#[trigger] now[i]).0 == k;
                assert(pair_map(now)[now[i].0] == now[i].1);
                if k != key {
                    assert(before[i] == now[i]);
                    assert(pair_map(before)[before[i].0] == before[i].1);
                } else {
                    match at {
                        Some(a) => {
                            assert(now[a as int].0 == now[i].0);
                        },
                        None => {
                            assert(now[before.len() as int].0 == now[i].0);
                        },
                    }
                }
            }
            assert(pair_map(now) =~= pair_map(before).insert(key, oid));
        }
        self.pairs = pairs;
    }

    /// How many names the map holds.
    pub fn len(&self) -> (n: usize)
        ensures
            n == self.list().len(),
    {
        self.pairs.len()
    }

    /// Whether the map is empty.
    pub fn is_empty(&self) -> (empty: bool)
        ensures
            empty == (self.list().len() == 0),
            empty ==> self@ == Map::<Seq<char>, Oid>::empty(),
    {
        self.pairs.len() == 0
    }

    /// The names with their ids, each name once.
    pub fn pairs(&self) -> (pairs: &[(String, Oid)])
        ensures
            name_pairs(pairs@) == self.list(),
            self@ == pair_map(self.list()),
            distinct_names(self.list()),
    {
        proof {
            use_type_invariant(self);
        }
        self.pairs.as_slice()
    }
}

impl NameSet {
    /// Whether another set holds every name of this one.
    fn within(&self, other: &NameSet) -> (yes: bool)
        ensures
            yes == self@.subset_of(other@),
    {
        let ghost list = text::texts(self.names@);
        let mut i: usize = 0;
        while i < self.names.len()
            invariant
                0 <= i <= self.names.len(),
                list == text::texts(self.names@),
                forall|j: int| 0 <= j < i ==> other@.contains(#[trigger] list[j]),
            decreases self.names.len() - i,
        {
            assert(list[i as int] == self.names@[i as int]@);
            if !other.contains(self.names[i].as_str()) {
                assert(self@.contains(list[i as int]));
                return false;
            }
            i = i + 1;
        }
        true
    }
}

/// Sets are equal when they hold the same names, in whatever order.
impl PartialEq for NameSet {
    fn eq(&self, other: &NameSet) -> (same: bool) {
        let same = self.within(other) && other.within(self);
        assert(same ==> self@ =~= other@);
        same
    }
}

impl Eq for NameSet {

}

impl vstd::std_specs::cmp::PartialEqSpecImpl for NameSet {
    open spec fn obeys_eq_spec() -> bool {
        true
    }

    open spec fn eq_spec(&self, other: &NameSet) -> bool {
        self@ == other@
    }
}

impl NameMap {
    /// Whether another map maps every name of this one as this one does.
    fn within(&self, other: &NameMap) -> (yes: bool)
        ensures
            yes == self@.submap_of(other@),
    {
        proof {
            use_type_invariant(self);
            lemma_pair_map(self.list());
        }
        let ghost list = self.list();
        let mut i: usize = 0;
        while i < self.pairs.len()
            invariant
                0 <= i <= self.pairs.len(),
                list == self.list(),
                self@ == pair_map(list),
                forall|k: int| 0 <= k < list.len() ==> self@.dom().contains((#[trigger] list[k]).0),
                forall|k: int| 0 <= k < list.len() ==> self@[(#[trigger] list[k]).0] == list[k].1,
                forall|j: int|
                    0 <= j < i ==> other@.dom().contains((#[trigger] list[j]).0) && other@[list[j].0]
                        == list[j].1,
            decreases self.pairs.len() - i,
        {
            assert(list[i as int] == (self.pairs@[i as int].0@, self.pairs@[i as int].1));
            let here = match other.get(self.pairs[i].0.as_str()) {
                Some(oid) => oid == self.pairs[i].1,
                None => false,
            };
            if !here {
                assert(self@.dom().contains(list[i as int].0));
                return false;
            }
            i = i + 1;
        }
        true
    }
}

/// Maps are equal when they map the same names to the same ids.
impl PartialEq for NameMap {
    fn eq(&self, other: &NameMap) -> (same: bool) {
        let same = self.within(other) && other.within(self);
        proof {
            if same {
                assert forall|k: Seq<char>| self@.dom().contains(k) == other@.dom().contains(k) by {}
                assert(self@.dom() =~= other@.dom());
                assert forall|k: Seq<char>| self@.dom().contains(k) implies self@[k] == other@[k] by {}
                assert(self@ =~= other@);
            }
        }
        same
    }
}

impl Eq for NameMap {

}

impl vstd::std_specs::cmp::PartialEqSpecImpl for NameMap {
    open spec fn obeys_eq_spec() -> bool {
        true
    }

    open spec fn eq_spec(&self, other: &NameMap) -> bool {
        self@ == other@
    }
}

impl Clone for NameMap {
    fn clone(&self) -> (m: NameMap)
        ensures
            m@ == self@,
    {
        let ghost list = self.list();
        let mut m = NameMap::new();
        let mut i: usize = 0;
        assert(m@ =~= pair_map(list.take(0)));
        while i < self.pairs.len()
            invariant
                0 <= i <= self.pairs.len(),
                list == self.list(),
                m@ == pair_map(list.take(i as int)),
            decreases self.pairs.len() - i,
        {
            assert(list[i as int] == (self.pairs@[i as int].0@, self.pairs@[i as int].1));
            assert(list.take(i + 1).drop_last() =~= list.take(i as int));
            m.insert(self.pairs[i].0.clone(), self.pairs[i].1);
            i = i + 1;
        }
        assert(list.take(i as int) =~= list);
        m
    }
}

} // verus!
