//! Merged branches: which ones GitHub names, and when the local ones are
//! classified again.
use std::collections::hash_map::DefaultHasher;
use std::hash::Hasher;

use vstd::prelude::*;
use vstd::string::*;

use crate::git::branch;
use crate::git::branch::{BranchInfo, BranchView};
use crate::hashing;
use crate::interval_fetch;
use crate::interval_fetch::{FetchEvent, FetchView, IntervalFetch};
use crate::names::NameSet;
use crate::oid::Oid;
use crate::text;

verus! {

/// The time between two fetches in nanoseconds, failed ones too.
pub const MERGED_FETCH_INTERVAL: u64 = 300_000_000_000;

/// The time after which a hung `gh` is ended, in nanoseconds.
pub const GH_TIMEOUT: u64 = 10_000_000_000;

/// The arguments of `gh` that list the merged pull requests.
pub fn merged_list_args() -> (args: Vec<&'static str>)
    ensures
        args@ == seq!["pr", "list", "--state", "merged", "--json", "headRefName", "--limit", "100"],
{
    let mut args: Vec<&'static str> = Vec::new();
    args.push("pr");
    args.push("list");
    args.push("--state");
    args.push("merged");
    args.push("--json");
    args.push("headRefName");
    args.push("--limit");
    args.push("100");
    args
}

/// One merged pull request.
#[derive(Debug)]
pub struct GhMergedPr {
    pub head_ref_name: String,
}

/// The head branches of merged pull requests: those with a name.
pub open spec fn merged_heads(records: Seq<GhMergedPr>) -> Set<Seq<char>> {
    Set::new(
        |n: Seq<char>|
            n.len() > 0 && exists|i: int| 0 <= i < records.len() && (#[trigger] records[i]).head_ref_name@ == n,
    )
}

/// The head branches of merged pull requests. `None` stands for a list that
/// could not be read, and yields no branch.
pub fn parse_merged_pr_list(records: Option<&[GhMergedPr]>) -> (names: NameSet)
    ensures
        names@ == match records {
            Some(r) => merged_heads(r@),
            None => Set::empty(),
        },
{
    let mut names = NameSet::new();
    let records = match records {
        None => {
            return names;
        },
        Some(r) => r,
    };
    let mut i: usize = 0;
    assert(names@ =~= merged_heads(records@.take(0)));
    while i < records.len()
        invariant
            0 <= i <= records.len(),
            names@ == merged_heads(records@.take(i as int)),
        decreases records.len() - i,
    {
        let ghost before = names@;
        let name = &records[i].head_ref_name;
        let chars = text::chars_of(name.as_str());
        if chars.len() > 0 {
            names.insert(name.clone());
        }
        assert forall|n: Seq<char>| names@.contains(n) == merged_heads(records@.take(i + 1)).contains(n) by {
            if before.contains(n) {
                let j = choose|j: int|
                    0 <= j < records@.take(i as int).len() && (#[trigger] records@.take(i as int)[j]).head_ref_name@
                        == n;
                assert(records@.take(i + 1)[j].head_ref_name@ == n);
            }
            if n == name@ {
                assert(records@.take(i + 1)[i as int].head_ref_name@ == n);
            }
            if merged_heads(records@.take(i + 1)).contains(n) && n != name@ {
                let j = choose|j: int|
                    0 <= j < records@.take(i + 1).len() && (#[trigger] records@.take(i + 1)[j]).head_ref_name@ == n;
                assert(records@.take(i as int)[j].head_ref_name@ == n);
            }
        }
        assert(names@ =~= merged_heads(records@.take(i + 1)));
        i = i + 1;
    }
    assert(records@.take(i as int) =~= records@);
    names
}

/// What `gh` left: `None` where it could not be run, failed, took too long or
/// printed no text.
pub fn fetch_merged_branches(output: Option<Option<&[GhMergedPr]>>) -> (names: Option<NameSet>)
    ensures
        match output {
            Some(records) => names matches Some(n) && n@ == (match records {
                Some(r) => merged_heads(r@),
                None => Set::empty(),
            }),
            None => names is None,
        },
{
    match output {
        Some(records) => Some(parse_merged_pr_list(records)),
        None => None,
    }
}

/// The fetch of merged head branches.
#[derive(Debug)]
pub struct MergedBranchFetch {
    fetch: IntervalFetch,
}

impl View for MergedBranchFetch {
    type V = FetchView;

    closed spec fn view(&self) -> FetchView {
        self.fetch@
    }
}

impl MergedBranchFetch {
    /// A fetch that has not started yet.
    pub fn new() -> (f: MergedBranchFetch)
        ensures
            f@ == (FetchView { interval: MERGED_FETCH_INTERVAL, in_flight: false, last_fetch: None }),
    {
        MergedBranchFetch { fetch: IntervalFetch::new(MERGED_FETCH_INTERVAL) }
    }

    /// Make the next fetch due at once. One in flight is not touched.
    pub fn force(&mut self)
        ensures
            final(self)@ == old(self)@.forced(),
    {
        self.fetch.force();
    }

    /// Whether a worker is to be started now.
    pub fn maybe_start(&mut self, now: u64) -> (start: bool)
        ensures
            start == old(self)@.starts(now),
            final(self)@ == old(self)@.offered(now),
    {
        self.fetch.maybe_start(now)
    }

    /// The merged head branches of a fetch that ended: none where it failed.
    /// A worker that died yields nothing. Either way the next fetch waits a
    /// full interval.
    pub fn poll(&mut self, event: FetchEvent<NameSet>, now: u64) -> (names: Option<NameSet>)
        ensures
            final(self)@ == old(self)@.polled(event, now),
            names is Some <==> old(self)@.in_flight && event is Done,
            names matches Some(n) ==> n@ == match event->Done_0 {
                Ok(set) => set@,
                Err(_) => Set::empty(),
            },
    {
        let died = match &event {
            FetchEvent::Died => true,
            _ => false,
        };
        match self.fetch.poll(event, now) {
            None => None,
            Some(Ok(set)) => Some(set),
            Some(Err(_)) => if died {
                None
            } else {
                Some(NameSet::new())
            },
        }
    }
}

/// Everything the local classification depends on.
#[derive(Debug, Clone)]
pub struct ClassifyInput {
    pub repo_path: String,
    pub branches: Vec<BranchInfo>,
    pub base_name: String,
    pub base_tip: Oid,
    pub gh_merged: NameSet,
}

/// The hash of a branch.
pub open spec fn branch_hash(b: BranchView) -> u64 {
    hashing::hash(
        hashing::text_writes(b.name) + hashing::oid_writes(b.tip) + seq![
            hashing::flag_write(b.is_remote),
            hashing::flag_write(b.is_head),
        ],
    )
}

/// The hashes of some branches.
pub open spec fn branch_hashes(branches: Seq<BranchView>) -> Seq<u64> {
    branches.map_values(|b: BranchView| branch_hash(b))
}

/// The hashes of some names.
pub open spec fn name_hashes(names: Seq<Seq<char>>) -> Seq<u64> {
    names.map_values(|n: Seq<char>| hashing::hash(hashing::text_writes(n)))
}

/// The fingerprint of a classification's inputs.
pub open spec fn fingerprint(
    base_name: Seq<char>,
    base_tip: Oid,
    branches: Seq<BranchView>,
    names: Seq<Seq<char>>,
) -> u64 {
    hashing::hash(
        hashing::text_writes(base_name) + hashing::oid_writes(base_tip) + seq![
            vstd::bytes::spec_u64_to_le_bytes(hashing::combined(branch_hashes(branches))),
            vstd::bytes::spec_u64_to_le_bytes(hashing::combined(name_hashes(names))),
        ],
    )
}

fn hash_branch(b: &BranchInfo) -> (n: u64)
    ensures
        n == branch_hash(b@),
{
    let mut h = DefaultHasher::new();
    hashing::write_text(&mut h, b.name.as_str());
    hashing::write_oid(&mut h, b.tip_oid);
    hashing::write_flag(&mut h, b.is_remote);
    hashing::write_flag(&mut h, b.is_head);
    assert(h@ =~= hashing::text_writes(b@.name) + hashing::oid_writes(b@.tip) + seq![
        hashing::flag_write(b@.is_remote),
        hashing::flag_write(b@.is_head),
    ]);
    h.finish()
}

fn combine_branches(branches: &Vec<BranchInfo>) -> (n: u64)
    ensures
        n == hashing::combined(branch_hashes(branch::branches_view(branches@))),
{
    let ghost all = branch_hashes(branch::branches_view(branches@));
    let mut n: u64 = 0;
    let mut i: usize = 0;
    assert(all.take(0) =~= Seq::empty());
    while i < branches.len()
        invariant
            0 <= i <= branches.len(),
            all == branch_hashes(branch::branches_view(branches@)),
            n == hashing::combined(all.take(i as int)),
        decreases branches.len() - i,
    {
        assert(all.take(i + 1).drop_last() =~= all.take(i as int));
        assert(all.take(i + 1).last() == branch_hash(branches@[i as int]@));
        n = n ^ hash_branch(&branches[i]);
        i = i + 1;
    }
    assert(all.take(i as int) =~= all);
    n
}

fn combine_names(names: &NameSet) -> (n: u64)
    ensures
        n == hashing::combined(name_hashes(names.list())),
{
    let list = names.names();
    let ghost all = name_hashes(names.list());
    let mut n: u64 = 0;
    let mut i: usize = 0;
    assert(all.take(0) =~= Seq::empty());
    while i < list.len()
        invariant
            0 <= i <= list.len(),
            all == name_hashes(text::texts(list@)),
            n == hashing::combined(all.take(i as int)),
        decreases list.len() - i,
    {
        assert(all.take(i + 1).drop_last() =~= all.take(i as int));
        assert(all.take(i + 1).last() == hashing::hash(hashing::text_writes(list@[i as int]@)));
        let mut h = DefaultHasher::new();
        hashing::write_text(&mut h, list[i].as_str());
        assert(h@ =~= hashing::text_writes(list@[i as int]@));
        n = n ^ h.finish();
        i = i + 1;
    }
    assert(all.take(i as int) =~= all);
    n
}

impl ClassifyInput {
    /// The fingerprint of these inputs. With the same one the result would be
    /// the same.
    pub fn signature(&self) -> (n: u64)
        ensures
            n == fingerprint(
                self.base_name@,
                self.base_tip,
                branch::branches_view(self.branches@),
                self.gh_merged.list(),
            ),
    {
        let mut h = DefaultHasher::new();
        hashing::write_text(&mut h, self.base_name.as_str());
        hashing::write_oid(&mut h, self.base_tip);
        hashing::write_number(&mut h, combine_branches(&self.branches));
        hashing::write_number(&mut h, combine_names(&self.gh_merged));
        assert(h@ =~= hashing::text_writes(self.base_name@) + hashing::oid_writes(self.base_tip) + seq![
            vstd::bytes::spec_u64_to_le_bytes(
                hashing::combined(branch_hashes(branch::branches_view(self.branches@))),
            ),
            vstd::bytes::spec_u64_to_le_bytes(hashing::combined(name_hashes(self.gh_merged.list()))),
        ]);
        h.finish()
    }
}

/// When the local branches are classified again: once for every change of the
/// inputs, one at a time.
#[derive(Debug, Clone, Copy, PartialEq, Eq, Structural)]
pub struct MergedClassifier {
    in_flight: bool,
    last_signature: Option<u64>,
}

/// The state of a classifier.
pub struct ClassifierView {
    pub in_flight: bool,
    /// The fingerprint of the inputs in flight, or last classified.
    pub last_signature: Option<u64>,
}

impl View for MergedClassifier {
    type V = ClassifierView;

    closed spec fn view(&self) -> ClassifierView {
        ClassifierView { in_flight: self.in_flight, last_signature: self.last_signature }
    }
}

impl ClassifierView {
    /// Inputs are classified when they changed and nothing is in flight.
    pub open spec fn starts(self, signature: u64) -> bool {
        !self.in_flight && self.last_signature != Some(signature)
    }

    /// The state after inputs were offered.
    pub open spec fn offered(self, signature: u64) -> ClassifierView {
        if self.starts(signature) {
            ClassifierView { in_flight: true, last_signature: Some(signature) }
        } else {
            self
        }
    }

    /// The state after a look at the worker: one that died makes the same
    /// inputs count as new.
    pub open spec fn polled<T>(self, event: FetchEvent<T>) -> ClassifierView {
        if !self.in_flight {
            self
        } else {
            match event {
                FetchEvent::Pending => self,
                FetchEvent::Done(_) => ClassifierView { in_flight: false, last_signature: self.last_signature },
                FetchEvent::Died => ClassifierView { in_flight: false, last_signature: None },
            }
        }
    }
}

impl MergedClassifier {
    /// A classifier that has seen no inputs yet.
    pub fn new() -> (c: MergedClassifier)
        ensures
            c@ == (ClassifierView { in_flight: false, last_signature: None }),
    {
        MergedClassifier { in_flight: false, last_signature: None }
    }

    /// Whether a worker is to classify these inputs now.
    pub fn maybe_start(&mut self, input: &ClassifyInput) -> (start: bool)
        ensures
            start == old(self)@.starts(
                fingerprint(
                    input.base_name@,
                    input.base_tip,
                    branch::branches_view(input.branches@),
                    input.gh_merged.list(),
                ),
            ),
            final(self)@ == old(self)@.offered(
                fingerprint(
                    input.base_name@,
                    input.base_tip,
                    branch::branches_view(input.branches@),
                    input.gh_merged.list(),
                ),
            ),
    {
        if self.in_flight {
            return false;
        }
        let signature: u64 = input.signature();
        let same = match self.last_signature {
            Some(s) => s == signature,
            None => false,
        };
        if same {
            return false;
        }
        self.last_signature = Some(signature);
        self.in_flight = true;
        true
    }

    /// The result of a classification that ended, given what the channel held.
    pub fn poll(&mut self, event: FetchEvent<NameSet>) -> (names: Option<NameSet>)
        ensures
            final(self)@ == old(self)@.polled(event),
            names is Some <==> old(self)@.in_flight && (event matches FetchEvent::Done(Ok(_))),
            names matches Some(n) ==> event == FetchEvent::Done(Ok(n)),
    {
        if !self.in_flight {
            return None;
        }
        match event {
            FetchEvent::Pending => None,
            FetchEvent::Done(result) => {
                self.in_flight = false;
                match result {
                    Ok(set) => Some(set),
                    Err(_) => None,
                }
            },
            FetchEvent::Died => {
                self.in_flight = false;
                self.last_signature = None;
                None
            },
        }
    }
}

/// The fingerprint does not depend on the order of the branches, nor on the
/// order in which merged heads were learned.
pub proof fn law_fingerprint_ignores_order(
    base_name: Seq<char>,
    base_tip: Oid,
    a: Seq<BranchView>,
    b: Seq<BranchView>,
    m: Seq<Seq<char>>,
    n: Seq<Seq<char>>,
)
    requires
        a.to_multiset() == b.to_multiset(),
        m.to_multiset() == n.to_multiset(),
    ensures
        fingerprint(base_name, base_tip, a, m) == fingerprint(base_name, base_tip, b, n),
{
    lemma_map_multiset(a, b, |x: BranchView| branch_hash(x));
    lemma_map_multiset(m, n, |x: Seq<char>| hashing::hash(hashing::text_writes(x)));
    hashing::law_combining_ignores_order(branch_hashes(a), branch_hashes(b));
    hashing::law_combining_ignores_order(name_hashes(m), name_hashes(n));
}

proof fn lemma_map_multiset<A>(a: Seq<A>, b: Seq<A>, f: spec_fn(A) -> u64)
    requires
        a.to_multiset() == b.to_multiset(),
    ensures
        a.map_values(f).to_multiset() == b.map_values(f).to_multiset(),
    decreases a.len(),
{
    broadcast use vstd::seq_lib::group_to_multiset_ensures;

    assert(a.len() == b.len()) by {
        assert(a.to_multiset().len() == a.len());
        assert(b.to_multiset().len() == b.len());
    }
    if a.len() == 0 {
        assert(a.map_values(f) =~= b.map_values(f));
    } else {
        let x = a.last();
        assert(a.contains(x));
        crate::sorting::lemma_same_members(a, b, x);
        let i = choose|i: int| 0 <= i < b.len() && b[i] == x;
        assert(a =~= a.drop_last().push(x));
        assert(a.drop_last().to_multiset() =~= b.remove(i).to_multiset()) by {
            assert(a.to_multiset() =~= a.drop_last().to_multiset().insert(x));
            assert(b.remove(i).to_multiset() =~= b.to_multiset().remove(x));
            assert(a.drop_last().to_multiset().insert(x).remove(x) =~= a.drop_last().to_multiset());
        }
        lemma_map_multiset(a.drop_last(), b.remove(i), f);
        assert(a.map_values(f) =~= a.drop_last().map_values(f).push(f(x)));
        assert(b.remove(i).map_values(f) =~= b.map_values(f).remove(i));
        assert(b.map_values(f).remove(i).to_multiset() =~= b.map_values(f).to_multiset().remove(f(x)));
        assert(b.map_values(f).contains(b.map_values(f)[i]));
        assert(b.map_values(f).to_multiset().count(f(x)) > 0);
        assert(b.map_values(f).to_multiset().remove(f(x)).insert(f(x)) =~= b.map_values(f).to_multiset());
    }
}

/// Unchanged inputs are not classified again.
pub proof fn law_unchanged_inputs_start_nothing<T>(c: ClassifierView, signature: u64, event: FetchEvent<T>)
    requires
        c.starts(signature),
        event is Done,
    ensures
        !c.offered(signature).polled(event).starts(signature),
{
}

/// A worker that died is made up for: the same inputs start another.
pub proof fn law_dead_worker_is_retried(c: ClassifierView, signature: u64)
    requires
        c.starts(signature),
    ensures
        c.offered(signature).polled(FetchEvent::<NameSet>::Died).starts(signature),
{
}

impl Default for MergedBranchFetch {
    fn default() -> (f: MergedBranchFetch)
        ensures
            f@ == (FetchView { interval: MERGED_FETCH_INTERVAL, in_flight: false, last_fetch: None }),
    {
        MergedBranchFetch::new()
    }
}

impl Default for MergedClassifier {
    fn default() -> (c: MergedClassifier)
        ensures
            c@ == (ClassifierView { in_flight: false, last_signature: None }),
    {
        MergedClassifier::new()
    }
}

/// Merged pull requests are asked for every five minutes, and `gh` gets ten
/// seconds.
pub proof fn law_merged_requests_are_asked_for_every_five_minutes()
    ensures
        MERGED_FETCH_INTERVAL == 300_000_000_000,
        GH_TIMEOUT == 10_000_000_000,
{
}

/// The merged heads are the head branches of the requests that name one.
pub proof fn law_merged_heads(records: Seq<GhMergedPr>, name: Seq<char>)
    ensures
        merged_heads(records).contains(name) <==> name.len() > 0 && exists|i: int|
            0 <= i < records.len() && (#[trigger] records[i]).head_ref_name@ == name,
{
}

/// The fingerprint of a classification covers the trunk by name and tip, of every
/// branch its name, its tip, whether it is remote and whether it is HEAD's, and
/// every merged head.
pub proof fn law_fingerprint_covers_every_input(
    base_name: Seq<char>,
    base_tip: Oid,
    branches: Seq<BranchView>,
    names: Seq<Seq<char>>,
    i: int,
)
    ensures
        ({
            let end = seq![255u8];
            let len = seq![20u8, 0, 0, 0, 0, 0, 0, 0];
            let yes = seq![1u8];
            let no = seq![0u8];
            &&& fingerprint(base_name, base_tip, branches, names) == hashing::hash(
                seq![
                    vstd::utf8::encode_utf8(base_name),
                    end,
                    len,
                    base_tip.raw(),
                    vstd::bytes::spec_u64_to_le_bytes(hashing::combined(branch_hashes(branches))),
                    vstd::bytes::spec_u64_to_le_bytes(hashing::combined(name_hashes(names))),
                ],
            )
            &&& branch_hashes(branches).len() == branches.len()
            &&& name_hashes(names).len() == names.len()
            &&& 0 <= i < branches.len() ==> branch_hashes(branches)[i] == hashing::hash(
                seq![
                    vstd::utf8::encode_utf8(branches[i].name),
                    end,
                    len,
                    branches[i].tip.raw(),
                    if branches[i].is_remote {
                        yes
                    } else {
                        no
                    },
                    if branches[i].is_head {
                        yes
                    } else {
                        no
                    },
                ],
            )
            &&& 0 <= i < names.len() ==> name_hashes(names)[i] == hashing::hash(
                seq![vstd::utf8::encode_utf8(names[i]), end],
            )
        }),
{
    let end = seq![255u8];
    let len = seq![20u8, 0, 0, 0, 0, 0, 0, 0];
    let yes = seq![1u8];
    let no = seq![0u8];
    let numbers = seq![
        vstd::bytes::spec_u64_to_le_bytes(hashing::combined(branch_hashes(branches))),
        vstd::bytes::spec_u64_to_le_bytes(hashing::combined(name_hashes(names))),
    ];
    assert(hashing::text_writes(base_name) + hashing::oid_writes(base_tip) + numbers =~= seq![
        vstd::utf8::encode_utf8(base_name),
        end,
        len,
        base_tip.raw(),
        numbers[0],
        numbers[1],
    ]);
    if 0 <= i < branches.len() {
        let b = branches[i];
        assert(branch_hashes(branches)[i] == branch_hash(b));
        assert(hashing::text_writes(b.name) + hashing::oid_writes(b.tip) + seq![
            hashing::flag_write(b.is_remote),
            hashing::flag_write(b.is_head),
        ] =~= seq![
            vstd::utf8::encode_utf8(b.name),
            end,
            len,
            b.tip.raw(),
            if b.is_remote {
                yes
            } else {
                no
            },
            if b.is_head {
                yes
            } else {
                no
            },
        ]);
    }
}

/// Inputs are classified exactly if they are new and nothing is being classified;
/// they then count as seen until a worker dies over them.
pub proof fn law_states_of_a_classifier<T>(c: ClassifierView, signature: u64, event: FetchEvent<T>)
    ensures
        c.starts(signature) <==> !c.in_flight && c.last_signature != Some(signature),
        c.starts(signature) ==> c.offered(signature).in_flight && c.offered(signature).last_signature == Some(
            signature,
        ),
        !c.starts(signature) ==> c.offered(signature) == c,
        !c.in_flight || event is Pending ==> c.polled(event) == c,
        c.in_flight && event is Done ==> !c.polled(event).in_flight && c.polled(event).last_signature
            == c.last_signature,
        c.in_flight && event is Died ==> !c.polled(event).in_flight && c.polled(event).last_signature is None,
{
}

} // verus!
