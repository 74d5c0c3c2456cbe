//! The stored form of a merged-branch classification.
//!
//! A classification is kept between sessions under a signature of its inputs,
//! so that a start with unchanged inputs need not classify again. A stored
//! form of another version, or a damaged part of one, counts as absent.
use vstd::prelude::*;
use vstd::string::*;

use crate::hashing;
use crate::names;
use crate::names::{NameMap, NameSet};
use crate::oid;
use crate::oid::Oid;
use crate::sorting;
use crate::sorting::Ranked;
use crate::text;

verus! {

/// The version of the stored form.
pub const CACHE_VERSION: u32 = 1;

/// A classification with the signature of the inputs it came from.
#[derive(Debug)]
pub struct MergedCache {
    pub signature: u64,
    /// The merged head branches that were among the inputs.
    pub gh_merged: NameSet,
    /// The branches classified as merged.
    pub merged: NameSet,
    /// Where squash-merged branches landed.
    pub squash_targets: NameMap,
}

/// A classification as a mathematical value.
#[verifier::ext_equal]
pub struct CacheView {
    pub signature: u64,
    pub gh_merged: Set<Seq<char>>,
    pub merged: Set<Seq<char>>,
    pub squash_targets: Map<Seq<char>, Oid>,
}

impl View for MergedCache {
    type V = CacheView;

    open spec fn view(&self) -> CacheView {
        CacheView {
            signature: self.signature,
            gh_merged: self.gh_merged@,
            merged: self.merged@,
            squash_targets: self.squash_targets@,
        }
    }
}

/// The stored form: lists in order, ids in hexadecimal.
#[derive(Debug)]
pub struct OnDisk {
    pub version: u32,
    pub signature: u64,
    pub gh_merged: Vec<String>,
    pub merged: Vec<String>,
    /// A branch and the id of the commit where it landed.
    pub squash_targets: Vec<(String, String)>,
}

/// A stored form as a mathematical value.
#[verifier::ext_equal]
pub struct DiskView {
    pub version: u32,
    pub signature: u64,
    pub gh_merged: Seq<Seq<char>>,
    pub merged: Seq<Seq<char>>,
    pub squash_targets: Seq<(Seq<char>, Seq<char>)>,
}

/// Pairs of texts.
pub open spec fn pairs(v: Seq<(String, String)>) -> Seq<(Seq<char>, Seq<char>)> {
    v.map_values(|p: (String, String)| (p.0@, p.1@))
}

impl View for OnDisk {
    type V = DiskView;

    open spec fn view(&self) -> DiskView {
        DiskView {
            version: self.version,
            signature: self.signature,
            gh_merged: text::texts(self.gh_merged@),
            merged: text::texts(self.merged@),
            squash_targets: pairs(self.squash_targets@),
        }
    }
}

impl Ranked for (String, String) {
    open spec fn le(a: (Seq<char>, Seq<char>), b: (Seq<char>, Seq<char>)) -> bool {
        if a.0 == b.0 {
            text::lex_le(a.1, b.1)
        } else {
            text::lex_le(a.0, b.0)
        }
    }

    proof fn le_total(a: (Seq<char>, Seq<char>), b: (Seq<char>, Seq<char>)) {
        text::lemma_lex_total(a.0, b.0);
        text::lemma_lex_total(a.1, b.1);
    }

    proof fn le_transitive(
        a: (Seq<char>, Seq<char>),
        b: (Seq<char>, Seq<char>),
        c: (Seq<char>, Seq<char>),
    ) {
        if a.0 == b.0 && b.0 == c.0 {
            text::lemma_lex_transitive(a.1, b.1, c.1);
        } else if a.0 != b.0 && b.0 != c.0 {
            text::lemma_lex_transitive(a.0, b.0, c.0);
            if a.0 == c.0 {
                text::lemma_lex_total(a.0, b.0);
            }
        }
    }

    fn not_after(&self, other: &(String, String)) -> (yes: bool) {
        if text::same_text(self.0.as_str(), other.0.as_str()) {
            text::text_le(self.1.as_str(), other.1.as_str())
        } else {
            text::text_le(self.0.as_str(), other.0.as_str())
        }
    }
}

/// A list holds the members of a set, each once and in order.
pub open spec fn lists(list: Seq<Seq<char>>, set: Set<Seq<char>>) -> bool {
    &&& sorting::ascending::<String>(list)
    &&& list.no_duplicates()
    &&& list.to_set() == set
}

/// Every name occurs once.
pub open spec fn distinct(list: Seq<(Seq<char>, Seq<char>)>) -> bool {
    forall|i: int, j: int|
        0 <= i < list.len() && 0 <= j < list.len() && (#[trigger] list[i]).0 == (#[trigger] list[j]).0 ==> i == j
}

/// A list holds the entries of a map, each once and in order, ids in
/// hexadecimal.
pub open spec fn lists_map(list: Seq<(Seq<char>, Seq<char>)>, map: Map<Seq<char>, Oid>) -> bool {
    &&& sorting::ascending::<(String, String)>(list)
    &&& distinct(list)
    &&& forall|i: int|
        0 <= i < list.len() ==> map.dom().contains((#[trigger] list[i]).0) && list[i].1 == map[list[i].0].hex()
    &&& forall|k: Seq<char>| #[trigger]
        map.dom().contains(k) ==> exists|i: int| 0 <= i < list.len() && (#[trigger] list[i]).0 == k
}

/// A stored form holds a classification.
pub open spec fn stores(d: DiskView, c: CacheView) -> bool {
    &&& d.version == CACHE_VERSION
    &&& d.signature == c.signature
    &&& lists(d.gh_merged, c.gh_merged)
    &&& lists(d.merged, c.merged)
    &&& lists_map(d.squash_targets, c.squash_targets)
}

/// The targets that stored pairs stand for: a later pair wins, and one whose
/// id cannot be read is left out.
pub open spec fn targets(list: Seq<(Seq<char>, Seq<char>)>) -> Map<Seq<char>, Oid>
    decreases list.len(),
{
    if list.len() == 0 {
        Map::empty()
    } else {
        let before = targets(list.drop_last());
        match oid::read(list.last().1) {
            Some(o) => before.insert(list.last().0, o),
            None => before,
        }
    }
}

/// The classification that a stored form holds, where its version is right.
pub open spec fn restored(d: DiskView) -> Option<CacheView> {
    if d.version != CACHE_VERSION {
        None
    } else {
        Some(
            CacheView {
                signature: d.signature,
                gh_merged: d.gh_merged.to_set(),
                merged: d.merged.to_set(),
                squash_targets: targets(d.squash_targets),
            },
        )
    }
}

proof fn lemma_sorted_lists(list: Seq<Seq<char>>, set: Set<Seq<char>>)
    requires
        list.no_duplicates(),
        list.to_set() == set,
    ensures
        lists(sorting::sorted::<String>(list), set),
{
    let s = sorting::sorted::<String>(list);
    sorting::law_sorting_orders_and_keeps_all::<String>(list);
    list.lemma_multiset_has_no_duplicates();
    s.lemma_multiset_has_no_duplicates_conv();
    assert forall|x: Seq<char>| s.to_set().contains(x) == list.to_set().contains(x) by {
        if s.contains(x) {
            sorting::lemma_same_members(s, list, x);
        }
        if list.contains(x) {
            sorting::lemma_same_members(list, s, x);
        }
    }
    assert(s.to_set() =~= set);
}

fn sorted_names(set: &NameSet) -> (v: Vec<String>)
    ensures
        lists(text::texts(v@), set@),
{
    let mut v = text::clone_texts(set.names());
    assert(text::texts(v@) =~= sorting::views(v@));
    proof {
        lemma_sorted_lists(set.list(), set@);
    }
    sorting::sort(&mut v);
    assert(text::texts(v@) =~= sorting::views(v@));
    v
}

proof fn lemma_targets(list: Seq<(Seq<char>, Seq<char>)>, map: Map<Seq<char>, Oid>)
    requires
        distinct(list),
        forall|i: int| 0 <= i < list.len() ==> (#[trigger] list[i]).1 == map[list[i].0].hex(),
    ensures
        forall|k: Seq<char>| #[trigger]
            targets(list).dom().contains(k) <==> exists|i: int| 0 <= i < list.len() && (#[trigger] list[i]).0 == k,
        forall|k: Seq<char>| #[trigger] targets(list).dom().contains(k) ==> targets(list)[k] == map[k],
    decreases list.len(),
{
    if list.len() > 0 {
        let rest = list.drop_last();
        let last = list.last();
        assert forall|i: int, j: int|
            0 <= i < rest.len() && 0 <= j < rest.len() && (#[trigger] rest[i]).0 == (#[trigger] rest[j]).0 implies i
            == j by {
            assert(list[i].0 == list[j].0);
        }
        assert forall|i: int| 0 <= i < rest.len() implies (#[trigger] rest[i]).1 == map[rest[i].0].hex() by {
            assert(list[i] == rest[i]);
        }
        lemma_targets(rest, map);
        assert(list[list.len() - 1] == last);
        oid::law_hex_round_trip(map[last.0]);
        assert(oid::read(last.1) == Some(map[last.0]));
        assert forall|k: Seq<char>| #[trigger] targets(list).dom().contains(k) implies targets(list)[k] == map[k] by {
            if k != last.0 {
                assert(targets(rest).dom().contains(k));
            }
        }
        assert forall|k: Seq<char>| #[trigger] targets(list).dom().contains(k) <==> exists|i: int|
            0 <= i < list.len() && (#[trigger] list[i]).0 == k by {
            if targets(rest).dom().contains(k) {
                let i = choose|i: int| 0 <= i < rest.len() && (#[trigger] rest[i]).0 == k;
                assert(list[i].0 == k);
            }
            if exists|i: int| 0 <= i < list.len() && (#[trigger] list[i]).0 == k {
                let i = choose|i: int| 0 <= i < list.len() && (#[trigger] list[i]).0 == k;
                if i < rest.len() {
                    assert(rest[i].0 == k);
                }
            }
        }
    }
}

/// Storing a classification and restoring it gives it back.
pub proof fn law_stored_form_restores(d: DiskView, c: CacheView)
    requires
        stores(d, c),
    ensures
        restored(d) == Some(c),
{
    lemma_targets(d.squash_targets, c.squash_targets);
    assert(targets(d.squash_targets) =~= c.squash_targets);
}

/// A stored form of another version is never used.
pub proof fn law_other_versions_are_ignored(d: DiskView)
    requires
        d.version != CACHE_VERSION,
    ensures
        restored(d) is None,
{
}

fn sorted_targets(map: &NameMap) -> (v: Vec<(String, String)>)
    ensures
        lists_map(pairs(v@), map@),
{
    let entries = map.pairs();
    let ghost all = map.list();
    let mut v: Vec<(String, String)> = Vec::new();
    let mut i: usize = 0;
    while i < entries.len()
        invariant
            0 <= i <= entries.len(),
            all == names::name_pairs(entries@),
            v@.len() == i,
            forall|k: int|
                0 <= k < i ==> (#[trigger] pairs(v@)[k]) == (all[k].0, all[k].1.hex()),
        decreases entries.len() - i,
    {
        let ghost before = v@;
        assert(all[i as int] == (entries@[i as int].0@, entries@[i as int].1));
        v.push((entries[i].0.clone(), entries[i].1.to_string()));
        assert forall|k: int| 0 <= k < i + 1 implies (#[trigger] pairs(v@)[k]) == (all[k].0, all[k].1.hex()) by {
            if k < i {
                assert(pairs(before)[k] == (all[k].0, all[k].1.hex()));
                assert(v@[k] == before[k]);
            }
        }
        i = i + 1;
    }
    let ghost list = pairs(v@);
    proof {
        names::lemma_pair_map(all);
        assert(list.len() == all.len());
        assert(list =~= sorting::views(v@));
        assert forall|i: int, j: int|
            0 <= i < list.len() && 0 <= j < list.len() && (#[trigger] list[i]).0 == (#[trigger] list[j]).0 implies i
            == j by {
            assert(all[i].0 == all[j].0);
        }
        assert forall|i: int| 0 <= i < list.len() implies map@.dom().contains((#[trigger] list[i]).0) && list[i].1
            == map@[list[i].0].hex() by {
            assert(all[i].0 == list[i].0);
        }
        assert forall|k: Seq<char>| #[trigger] map@.dom().contains(k) implies exists|i: int|
            0 <= i < list.len() && (#[trigger] list[i]).0 == k by {
            let i = choose|i: int| 0 <= i < all.len() && (#[trigger] all[i]).0 == k;
            assert(list[i].0 == k);
        }
        lemma_sorted_map(list, map@);
    }
    sorting::sort(&mut v);
    assert(pairs(v@) =~= sorting::views(v@));
    v
}

proof fn lemma_sorted_map(list: Seq<(Seq<char>, Seq<char>)>, map: Map<Seq<char>, Oid>)
    requires
        distinct(list),
        forall|i: int|
            0 <= i < list.len() ==> map.dom().contains((#[trigger] list[i]).0) && list[i].1 == map[list[i].0].hex(),
        forall|k: Seq<char>| #[trigger]
            map.dom().contains(k) ==> exists|i: int| 0 <= i < list.len() && (#[trigger] list[i]).0 == k,
    ensures
        lists_map(sorting::sorted::<(String, String)>(list), map),
{
    let s = sorting::sorted::<(String, String)>(list);
    sorting::law_sorting_orders_and_keeps_all::<(String, String)>(list);
    assert(list.no_duplicates()) by {
        assert forall|i: int, j: int| 0 <= i < list.len() && 0 <= j < list.len() && i != j implies list[i]
            != list[j] by {
            if list[i] == list[j] {
                assert(list[i].0 == list[j].0);
            }
        }
    }
    list.lemma_multiset_has_no_duplicates();
    s.lemma_multiset_has_no_duplicates_conv();
    assert forall|i: int| 0 <= i < s.len() implies map.dom().contains((#[trigger] s[i]).0) && s[i].1
        == map[s[i].0].hex() by {
        assert(s.contains(s[i]));
        sorting::lemma_same_members(s, list, s[i]);
        let k = choose|k: int| 0 <= k < list.len() && list[k] == s[i];
        assert(list[k].0 == s[i].0);
    }
    assert forall|i: int, j: int|
        0 <= i < s.len() && 0 <= j < s.len() && (#[trigger] s[i]).0 == (#[trigger] s[j]).0 implies i == j by {
        assert(s[i] == s[j]);
    }
    assert forall|k: Seq<char>| #[trigger] map.dom().contains(k) implies exists|i: int|
        0 <= i < s.len() && (#[trigger] s[i]).0 == k by {
        let i = choose|i: int| 0 <= i < list.len() && (#[trigger] list[i]).0 == k;
        assert(list.contains(list[i]));
        sorting::lemma_same_members(list, s, list[i]);
        let j = choose|j: int| 0 <= j < s.len() && s[j] == list[i];
        assert(s[j].0 == k);
    }
}

impl MergedCache {
    /// The stored form of a classification.
    pub fn to_disk(&self) -> (d: OnDisk)
        ensures
            stores(d@, self@),
    {
        OnDisk {
            version: CACHE_VERSION,
            signature: self.signature,
            gh_merged: sorted_names(&self.gh_merged),
            merged: sorted_names(&self.merged),
            squash_targets: sorted_targets(&self.squash_targets),
        }
    }

    /// The classification that a stored form holds; `None` where its version
    /// is another.
    pub fn from_disk(disk: &OnDisk) -> (c: Option<MergedCache>)
        ensures
            match c {
                Some(c) => restored(disk@) == Some(c@),
                None => restored(disk@) is None,
            },
    {
        if disk.version != CACHE_VERSION {
            return None;
        }
        let ghost all = pairs(disk.squash_targets@);
        let mut squash_targets = NameMap::new();
        let mut i: usize = 0;
        assert(all.take(0) =~= Seq::empty());
        while i < disk.squash_targets.len()
            invariant
                0 <= i <= disk.squash_targets.len(),
                all == pairs(disk.squash_targets@),
                squash_targets@ == targets(all.take(i as int)),
            decreases disk.squash_targets.len() - i,
        {
            assert(all.take(i + 1).drop_last() =~= all.take(i as int));
            assert(all.take(i + 1).last() == (disk.squash_targets@[i as int].0@, disk.squash_targets@[i as int].1@));
            if let Some(o) = Oid::from_str(disk.squash_targets[i].1.as_str()) {
                squash_targets.insert(disk.squash_targets[i].0.clone(), o);
            }
            i = i + 1;
        }
        assert(all.take(i as int) =~= all);
        Some(
            MergedCache {
                signature: disk.signature,
                gh_merged: NameSet::from_list(disk.gh_merged.as_slice()),
                merged: NameSet::from_list(disk.merged.as_slice()),
                squash_targets,
            },
        )
    }
}

/// The name of the stored form of a repository, without an extension: the hash
/// of its path, made canonical where possible.
pub fn repo_key(canonical_path: &str) -> (k: String)
    ensures
        k@ == hashing::key(canonical_path@),
{
    hashing::hex_key(canonical_path)
}

impl Clone for MergedCache {
    fn clone(&self) -> (c: MergedCache)
        ensures
            c@ == self@,
    {
        MergedCache {
            signature: self.signature,
            gh_merged: self.gh_merged.clone(),
            merged: self.merged.clone(),
            squash_targets: self.squash_targets.clone(),
        }
    }
}

impl PartialEq for MergedCache {
    fn eq(&self, other: &MergedCache) -> (same: bool) {
        self.signature == other.signature && self.gh_merged == other.gh_merged && self.merged == other.merged
            && self.squash_targets == other.squash_targets
    }
}

impl Eq for MergedCache {

}

impl vstd::std_specs::cmp::PartialEqSpecImpl for MergedCache {
    open spec fn obeys_eq_spec() -> bool {
        true
    }

    open spec fn eq_spec(&self, other: &MergedCache) -> bool {
        self@ == other@
    }
}

/// Of several stored targets of a branch the last that can be read counts; the
/// version is the first.
pub proof fn law_stored_targets(list: Seq<(Seq<char>, Seq<char>)>, name: Seq<char>, o: Oid, id: Seq<char>)
    ensures
        targets(Seq::<(Seq<char>, Seq<char>)>::empty()) == Map::<Seq<char>, Oid>::empty(),
        targets(list.push((name, o.hex()))) == targets(list).insert(name, o),
        !oid::is_hex_oid(id) ==> targets(list.push((name, id))) == targets(list),
        CACHE_VERSION == 1,
{
    oid::law_hex_round_trip(o);
    assert(list.push((name, o.hex())).drop_last() =~= list);
    assert(list.push((name, id)).drop_last() =~= list);
}

/// Stored pairs are ordered by name, and those of one name by target.
pub proof fn law_order_of_stored_pairs(a: (Seq<char>, Seq<char>), b: (Seq<char>, Seq<char>))
    ensures
        a.0 != b.0 ==> <(String, String) as sorting::Ranked>::le(a, b) == text::lex_le(a.0, b.0),
        a.0 == b.0 ==> <(String, String) as sorting::Ranked>::le(a, b) == text::lex_le(a.1, b.1),
{
}

/// A stored form lists names in order, each once, and the targets of branches in
/// order of the branches.
pub proof fn law_stored_lists_are_in_order(d: DiskView, c: CacheView, i: int, j: int)
    requires
        stores(d, c),
        0 <= i < j,
    ensures
        j < d.merged.len() ==> text::lex_le(d.merged[i], d.merged[j]) && d.merged[i] != d.merged[j],
        j < d.gh_merged.len() ==> text::lex_le(d.gh_merged[i], d.gh_merged[j]) && d.gh_merged[i]
            != d.gh_merged[j],
        j < d.squash_targets.len() ==> text::lex_le(d.squash_targets[i].0, d.squash_targets[j].0)
            && d.squash_targets[i].0 != d.squash_targets[j].0,
{
    if j < d.merged.len() {
        assert(<String as sorting::Ranked>::le(d.merged[i], d.merged[j]));
    }
    if j < d.gh_merged.len() {
        assert(<String as sorting::Ranked>::le(d.gh_merged[i], d.gh_merged[j]));
    }
    if j < d.squash_targets.len() {
        assert(<(String, String) as sorting::Ranked>::le(d.squash_targets[i], d.squash_targets[j]));
    }
}

} // verus!
