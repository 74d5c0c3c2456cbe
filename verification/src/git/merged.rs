//! Merged-branch classification: has this branch already landed on the trunk?
//!
//! Two shapes of "merged" are recognised. A merge commit or a fast-forward makes
//! the branch tip an ancestor of the base. A squash merge shares no commit, but
//! the branch's cumulative diff since the fork point carries the same patch-id
//! as one commit of the base.
//!
//! What the repository says about a branch and a trunk tip is gathered
//! beforehand as [`TipEvidence`]; the functions here decide. The merged-PR
//! signal of a forge is layered on top and always cross-checked against the
//! branch's content.
pub mod laws;

use crate::git::branch;
use crate::git::branch::{BranchInfo, BranchView};
use crate::git::commit::short_hash;
use crate::names::{NameMap, NameSet};
use crate::oid::{Oid, OidSet};
use crate::search;
use crate::text;
use vstd::prelude::*;
use vstd::string::*;

verus! {

/// How many base commits are scanned when hunting for a squash commit.
pub const SQUASH_SCAN_LIMIT: usize = 400;

/// How many commits of a PR branch are scanned for base-update merges.
pub const BASE_UPDATE_SCAN_LIMIT: usize = 400;

/// A commit of the base met on the walk from its tip back to the fork point.
#[derive(Debug, Clone, Copy, PartialEq, Eq, Structural)]
pub struct ScannedCommit {
    pub oid: Oid,
    /// How many parents it has; zero when it could not be read.
    pub parent_count: usize,
    /// The zero-context patch-id of its diff against its parent.
    pub patch_id: Option<Oid>,
    /// Whether a three-way merge of the branch into this commit adds nothing.
    pub contains_branch: bool,
}

/// The outcome of merging a branch into a base, with the fork point as their
/// ancestor.
#[derive(Debug, Clone, Copy, PartialEq, Eq, Structural)]
pub struct TrialMerge {
    pub conflicts: bool,
    /// The merged tree, when it could be written.
    pub merged_tree: Option<Oid>,
    pub base_tree: Oid,
}

/// What the repository says about a branch tip and one trunk tip.
#[derive(Debug)]
pub struct TipEvidence {
    /// The merge base; `None` for unrelated histories.
    pub fork: Option<Oid>,
    /// Whether the trunk tip descends from the branch tip.
    pub descends: bool,
    /// The patch-id of the branch's cumulative diff since the fork point.
    pub branch_patch: Option<Oid>,
    /// The trunk's commits from its tip back to the fork point, newest first.
    pub walk: Vec<ScannedCommit>,
    /// How many commits that walk met, counted to one past the scan limit;
    /// `None` when it could not be made.
    pub distance: Option<usize>,
    /// The three-way merge of the branch into the trunk tip; `None` when it
    /// could not be made.
    pub trial: Option<TrialMerge>,
}

/// What the repository says about a branch.
#[derive(Debug)]
pub struct BranchEvidence {
    /// The evidence against each trunk tip, in their order.
    pub tips: Vec<TipEvidence>,
    /// For each branch of the list, whether its tip descends from this one's.
    pub descends: Vec<bool>,
}

/// Evidence as a mathematical value.
pub struct TipView {
    pub fork: Option<Oid>,
    pub descends: bool,
    pub branch_patch: Option<Oid>,
    pub walk: Seq<ScannedCommit>,
    pub distance: Option<usize>,
    pub trial: Option<TrialMerge>,
}

impl View for TipEvidence {
    type V = TipView;

    open spec fn view(&self) -> TipView {
        TipView {
            fork: self.fork,
            descends: self.descends,
            branch_patch: self.branch_patch,
            walk: self.walk@,
            distance: self.distance,
            trial: self.trial,
        }
    }
}

/// Evidence about a branch as a mathematical value.
pub struct EvidenceView {
    pub tips: Seq<TipView>,
    pub descends: Seq<bool>,
}

impl View for BranchEvidence {
    type V = EvidenceView;

    open spec fn view(&self) -> EvidenceView {
        EvidenceView {
            tips: self.tips@.map_values(|t: TipEvidence| t@),
            descends: self.descends@,
        }
    }
}

/// Whether a scanned commit carries the branch's diff wholesale: an ordinary
/// commit with the same patch-id, at which the branch's work is contained.
pub open spec fn is_squash_commit(c: ScannedCommit, patch: Oid) -> bool {
    c.parent_count == 1 && c.patch_id == Some(patch) && c.contains_branch
}

impl TipView {
    /// How many commits of the walk are looked at.
    pub open spec fn scanned(self) -> int {
        if self.walk.len() <= SQUASH_SCAN_LIMIT {
            self.walk.len() as int
        } else {
            SQUASH_SCAN_LIMIT as int
        }
    }

    /// The first scanned commit that carries the branch's diff.
    pub open spec fn landing(self) -> Option<Oid> {
        match self.branch_patch {
            Some(patch) => match search::first_such(
                self.scanned(),
                |i: int| is_squash_commit(self.walk[i], patch),
            ) {
                Some(i) => Some(self.walk[i].oid),
                None => None,
            },
            None => None,
        }
    }

    /// The squash commit that landed the branch `tip`: none for unrelated
    /// histories, nor for a branch that the trunk contains anyway.
    pub open spec fn squash_target(self, tip: Oid) -> Option<Oid> {
        if self.fork is Some && self.fork != Some(tip) {
            self.landing()
        } else {
            None
        }
    }

    /// Whether the branch `tip` was squashed into the trunk or is contained in
    /// it.
    pub open spec fn squashed(self, tip: Oid) -> bool {
        self.fork is Some && (self.fork == Some(tip) || self.landing() is Some)
    }

    /// Whether merging the branch into the trunk tip adds nothing.
    pub open spec fn contained(self) -> bool {
        trial_adds_nothing(self.trial)
    }
}

/// A clean merge whose tree is the base's.
pub open spec fn trial_adds_nothing(trial: Option<TrialMerge>) -> bool {
    trial is Some && !(trial->0).conflicts && (trial->0).merged_tree == Some((trial->0).base_tree)
}

/// Whether the work on `branch_tip` is already present in `base_tip`: merged by
/// a merge commit, a fast-forward, or a squash.
pub fn is_merged_into(evidence: &TipEvidence, branch_tip: Oid, base_tip: Oid) -> (merged: bool)
    ensures
        merged == (branch_tip == base_tip || evidence@.descends || evidence@.squashed(branch_tip)),
{
    if branch_tip == base_tip {
        return true;
    }
    is_ancestor_merged(evidence) || is_squash_merged(evidence, branch_tip)
}

/// Ancestry: the branch tip is contained in the trunk tip's history.
pub fn is_ancestor_merged(evidence: &TipEvidence) -> (merged: bool)
    ensures
        merged == evidence@.descends,
{
    evidence.descends
}

/// Patch-id test for squash merges: the branch's whole diff since the fork point
/// is that of one ordinary commit on the trunk. A branch that the trunk contains
/// counts too.
pub fn is_squash_merged(evidence: &TipEvidence, branch_tip: Oid) -> (merged: bool)
    ensures
        merged == evidence@.squashed(branch_tip),
{
    match evidence.fork {
        None => false,
        Some(fork) => fork == branch_tip || squash_target_from_fork(evidence).is_some(),
    }
}

/// The squash commit on the trunk that landed `branch_tip`'s work.
pub fn squash_merge_target(evidence: &TipEvidence, branch_tip: Oid) -> (target: Option<Oid>)
    ensures
        target == evidence@.squash_target(branch_tip),
{
    match evidence.fork {
        None => None,
        Some(fork) => if fork == branch_tip {
            None
        } else {
            squash_target_from_fork(evidence)
        },
    }
}

/// Whether a scanned commit is worth the containment check: an ordinary commit
/// whose patch-id is the branch's.
pub fn is_squash_candidate(parent_count: usize, patch_id: Option<Oid>, branch_patch: Oid) -> (
    candidate: bool)
    ensures
        candidate == (parent_count == 1 && patch_id == Some(branch_patch)),
{
    parent_count == 1 && patch_id == Some(branch_patch)
}

/// The first commit of the scanned walk that carries the branch's diff. A match
/// of patch-ids is a candidate only; it counts when the branch's work is
/// contained at that commit, and the scan goes on past a collision.
fn squash_target_from_fork(evidence: &TipEvidence) -> (target: Option<Oid>)
    ensures
        target == evidence@.landing(),
{
    let patch = match evidence.branch_patch {
        Some(p) => p,
        None => {
            return None;
        },
    };
    let ghost p = |i: int| is_squash_commit(evidence@.walk[i], patch);
    let limit: usize = if evidence.walk.len() <= SQUASH_SCAN_LIMIT {
        evidence.walk.len()
    } else {
        SQUASH_SCAN_LIMIT
    };
    let mut i: usize = 0;
    while i < limit
        invariant
            0 <= i <= limit <= evidence.walk.len(),
            limit == evidence@.scanned(),
            evidence@.branch_patch == Some(patch),
            p == (|i: int| is_squash_commit(evidence@.walk[i], patch)),
            forall|j: int| 0 <= j < i ==> !#[trigger] p(j),
        decreases limit - i,
    {
        let c = evidence.walk[i];
        if is_squash_candidate(c.parent_count, c.patch_id, patch) && c.contains_branch {
            proof {
                assert(p(i as int));
                search::lemma_first_such(limit as int, p, i as int);
            }
            return Some(c.oid);
        }
        assert(!p(i as int));
        i = i + 1;
    }
    proof {
        search::lemma_no_such(limit as int, p);
    }
    None
}

/// Whether every change the branch introduced since it forked is already in the
/// base: merging it there is clean and changes nothing. A conflict, or any
/// failure to merge, says no.
pub fn branch_content_in_base(trial: &Option<TrialMerge>) -> (contained: bool)
    ensures
        contained == trial_adds_nothing(*trial),
{
    match trial {
        Some(t) => !t.conflicts && t.merged_tree == Some(t.base_tree),
        None => false,
    }
}

/// The first branch on the given side with the given name.
pub open spec fn named(bs: Seq<BranchView>, remote: bool, name: Seq<char>) -> Option<int> {
    search::first_such(
        bs.len() as int,
        |i: int| bs[i].is_remote == remote && bs[i].name == name,
    )
}

fn find_named(branches: &[BranchInfo], remote: bool, name: &str) -> (at: Option<usize>)
    ensures
        at is Some <==> named(branch::branches_view(branches@), remote, name@) is Some,
        at is Some ==> at->0 < branches@.len() && named(
            branch::branches_view(branches@),
            remote,
            name@,
        ) == Some(at->0 as int),
{
    let ghost bs = branch::branches_view(branches@);
    let ghost p = |i: int| bs[i].is_remote == remote && bs[i].name == name@;
    let mut i: usize = 0;
    while i < branches.len()
        invariant
            0 <= i <= branches.len(),
            bs == branch::branches_view(branches@),
            p == (|i: int| bs[i].is_remote == remote && bs[i].name == name@),
            forall|j: int| 0 <= j < i ==> !#[trigger] p(j),
        decreases branches.len() - i,
    {
        assert(bs[i as int] == branches@[i as int]@);
        if branches[i].is_remote == remote && text::same_text(branches[i].name.as_str(), name) {
            proof {
                assert(p(i as int));
                search::lemma_first_such(bs.len() as int, p, i as int);
            }
            return Some(i);
        }
        assert(!p(i as int));
        i = i + 1;
    }
    proof {
        search::lemma_no_such(bs.len() as int, p);
    }
    None
}

/// The checked-out branch.
pub open spec fn head_branch(bs: Seq<BranchView>) -> Option<int> {
    search::first_such(bs.len() as int, |i: int| bs[i].is_head)
}

fn find_head(branches: &[BranchInfo]) -> (at: Option<usize>)
    ensures
        at is Some <==> head_branch(branch::branches_view(branches@)) is Some,
        at is Some ==> at->0 < branches@.len() && head_branch(branch::branches_view(branches@))
            == Some(at->0 as int),
{
    let ghost bs = branch::branches_view(branches@);
    let ghost p = |i: int| bs[i].is_head;
    let mut i: usize = 0;
    while i < branches.len()
        invariant
            0 <= i <= branches.len(),
            bs == branch::branches_view(branches@),
            p == (|i: int| bs[i].is_head),
            forall|j: int| 0 <= j < i ==> !#[trigger] p(j),
        decreases branches.len() - i,
    {
        assert(bs[i as int] == branches@[i as int]@);
        if branches[i].is_head {
            proof {
                assert(p(i as int));
                search::lemma_first_such(bs.len() as int, p, i as int);
            }
            return Some(i);
        }
        assert(!p(i as int));
        i = i + 1;
    }
    proof {
        search::lemma_no_such(bs.len() as int, p);
    }
    None
}

/// The trunk: a local `main`, else `master`, else their `origin/` copies, else
/// the checked-out branch.
pub open spec fn base_index(bs: Seq<BranchView>) -> Option<int> {
    if named(bs, false, "main"@) is Some {
        named(bs, false, "main"@)
    } else if named(bs, false, "master"@) is Some {
        named(bs, false, "master"@)
    } else if named(bs, true, "origin/main"@) is Some {
        named(bs, true, "origin/main"@)
    } else if named(bs, true, "origin/master"@) is Some {
        named(bs, true, "origin/master"@)
    } else {
        head_branch(bs)
    }
}

/// The trunk branch to measure "merged into" against.
pub fn base_branch(branches: &[BranchInfo]) -> (base: Option<&BranchInfo>)
    ensures
        base is Some <==> base_index(branch::branches_view(branches@)) is Some,
        base is Some ==> 0 <= base_index(branch::branches_view(branches@))->0 < branches@.len()
            && *(base->0) == branches@[base_index(branch::branches_view(branches@))->0],
{
    if let Some(i) = find_named(branches, false, "main") {
        return Some(&branches[i]);
    }
    if let Some(i) = find_named(branches, false, "master") {
        return Some(&branches[i]);
    }
    if let Some(i) = find_named(branches, true, "origin/main") {
        return Some(&branches[i]);
    }
    if let Some(i) = find_named(branches, true, "origin/master") {
        return Some(&branches[i]);
    }
    match find_head(branches) {
        Some(i) => Some(&branches[i]),
        None => None,
    }
}

/// The first remote branch with a name whose tip is not among `tips`.
pub open spec fn new_remote(bs: Seq<BranchView>, name: Seq<char>, tips: Seq<Oid>) -> Option<int> {
    search::first_such(
        bs.len() as int,
        |i: int| bs[i].is_remote && bs[i].name == name && !tips.contains(bs[i].tip),
    )
}

/// Whether `tip` is one of `tips`.
fn has_tip(tips: &[Oid], tip: Oid) -> (yes: bool)
    ensures
        yes == tips@.contains(tip),
{
    let mut i: usize = 0;
    while i < tips.len()
        invariant
            0 <= i <= tips.len(),
            forall|j: int| 0 <= j < i ==> tips@[j] != tip,
        decreases tips.len() - i,
    {
        if tips[i] == tip {
            return true;
        }
        i = i + 1;
    }
    false
}

fn find_new_remote(branches: &[BranchInfo], name: &str, tips: &[Oid]) -> (at: Option<usize>)
    ensures
        at is Some <==> new_remote(branch::branches_view(branches@), name@, tips@) is Some,
        at is Some ==> at->0 < branches@.len() && new_remote(
            branch::branches_view(branches@),
            name@,
            tips@,
        ) == Some(at->0 as int),
{
    let ghost bs = branch::branches_view(branches@);
    let ghost p = |i: int| bs[i].is_remote && bs[i].name == name@ && !tips@.contains(bs[i].tip);
    let mut i: usize = 0;
    while i < branches.len()
        invariant
            0 <= i <= branches.len(),
            bs == branch::branches_view(branches@),
            p == (|i: int|
                bs[i].is_remote && bs[i].name == name@ && !tips@.contains(bs[i].tip)),
            forall|j: int| 0 <= j < i ==> !#[trigger] p(j),
        decreases branches.len() - i,
    {
        assert(bs[i as int] == branches@[i as int]@);
        if branches[i].is_remote && text::same_text(branches[i].name.as_str(), name) && !has_tip(
            tips,
            branches[i].tip_oid,
        ) {
            proof {
                assert(p(i as int));
                search::lemma_first_such(bs.len() as int, p, i as int);
            }
            return Some(i);
        }
        assert(!p(i as int));
        i = i + 1;
    }
    proof {
        search::lemma_no_such(bs.len() as int, p);
    }
    None
}

/// `tips` with the first remote copy of `name` that is elsewhere.
pub open spec fn with_remote(bs: Seq<BranchView>, name: Seq<char>, tips: Seq<Oid>) -> Seq<Oid> {
    match new_remote(bs, name, tips) {
        Some(i) => tips.push(bs[i].tip),
        None => tips,
    }
}

/// The upstream of a branch: the configured one, else `origin/` and its name.
pub open spec fn upstream_of(b: BranchView) -> Seq<char> {
    match b.upstream {
        Some(u) => u,
        None => "origin/"@ + b.name,
    }
}

/// The trunk tips: the base, its `origin/` copy when that is elsewhere, the
/// checked-out branch, and that one's upstream.
pub open spec fn trunk_tips(bs: Seq<BranchView>, base_tip: Oid, base_name: Seq<char>) -> Seq<Oid> {
    let first = if text::find_char(base_name, '/') is None {
        with_remote(bs, "origin/"@ + base_name, seq![base_tip])
    } else {
        seq![base_tip]
    };
    match head_branch(bs) {
        Some(h) => {
            let second = if first.contains(bs[h].tip) {
                first
            } else {
                first.push(bs[h].tip)
            };
            with_remote(bs, upstream_of(bs[h]), second)
        },
        None => first,
    }
}

/// The trunk tips to measure "merged" against. A squash lands on the remote
/// branch first, and the local trunk lags until the next pull, so the remote
/// copies of the trunk and of the checked-out line count too.
pub fn base_tips(branches: &[BranchInfo], base_tip: Oid, base_name: &str) -> (tips: Vec<Oid>)
    ensures
        tips@ == trunk_tips(branch::branches_view(branches@), base_tip, base_name@),
{
    let ghost bs = branch::branches_view(branches@);
    let mut tips: Vec<Oid> = Vec::new();
    tips.push(base_tip);
    assert(tips@ =~= seq![base_tip]);
    let name = text::chars_of(base_name);
    if text::char_position(name.as_slice(), '/').is_none() {
        let mut remote = String::new();
        remote.append("origin/");
        remote.append(base_name);
        assert(remote@ =~= "origin/"@ + base_name@);
        if let Some(i) = find_new_remote(branches, remote.as_str(), tips.as_slice()) {
            tips.push(branches[i].tip_oid);
        }
    }
    if let Some(h) = find_head(branches) {
        let head = &branches[h];
        assert(bs[h as int] == head@);
        if !has_tip(tips.as_slice(), head.tip_oid) {
            tips.push(head.tip_oid);
        }
        let upstream = match &head.upstream {
            Some(u) => u.clone(),
            None => {
                let mut u = String::new();
                u.append("origin/");
                u.append(head.name.as_str());
                assert(u@ =~= "origin/"@ + head.name@);
                u
            },
        };
        if let Some(r) = find_new_remote(branches, upstream.as_str(), tips.as_slice()) {
            tips.push(branches[r].tip_oid);
        }
    }
    tips
}

/// The name that a forge knows a branch by: without the remote's prefix.
pub open spec fn forge_name(b: BranchView) -> Seq<char> {
    if b.is_remote {
        text::after_first(b.name, '/')
    } else {
        b.name
    }
}

/// The head-branch name to look up among merged PRs.
pub fn gh_key(b: &BranchInfo) -> (key: String)
    ensures
        key@ == forge_name(b@),
{
    if b.is_remote {
        text::text_after_first(b.name.as_str(), '/')
    } else {
        b.name.clone()
    }
}

/// Whether a branch is a trunk in its own right, or the line you are on: never
/// classified as merged.
pub open spec fn protected(b: BranchView, tips: Seq<Oid>, base_name: Seq<char>) -> bool {
    ||| b.is_head
    ||| b.name == base_name
    ||| tips.contains(b.tip)
    ||| b.is_remote && forge_name(b) == text::after_first(base_name, '/')
    ||| !b.is_remote && (b.name == "main"@ || b.name == "master"@)
}

/// Whether a branch merely lags the live copy of its own line: a local one
/// behind its upstream, or a remote one that a local branch of its name
/// descends from.
pub open spec fn lags(b: BranchView, bs: Seq<BranchView>, descends: Seq<bool>) -> bool {
    if b.is_remote {
        exists|i: int|
            0 <= i < bs.len() && i < descends.len() && !(#[trigger] bs[i]).is_remote && bs[i].name
                == forge_name(b) && bs[i].tip != b.tip && descends[i]
    } else {
        b.ahead == 0 && b.behind > 0
    }
}

/// Whether the evidence against one trunk tip says that the branch landed. For
/// a branch that lags, only a concrete squash commit does.
pub open spec fn landed_on(e: TipView, tip: Oid, stale: bool) -> bool {
    if stale {
        e.squash_target(tip) is Some
    } else {
        e.descends || e.squashed(tip)
    }
}

/// Whether a branch counts as merged into the trunk: it is not
/// [`protected`], and it landed on some trunk tip, or the forge says that a PR
/// of this name merged and some trunk tip contains the branch's content.
pub open spec fn merged_branch(
    b: BranchView,
    bs: Seq<BranchView>,
    e: EvidenceView,
    tips: Seq<Oid>,
    base_name: Seq<char>,
    gh: Set<Seq<char>>,
) -> bool {
    &&& !protected(b, tips, base_name)
    &&& {
        ||| exists|i: int|
            0 <= i < e.tips.len() && landed_on(
                #[trigger] e.tips[i],
                b.tip,
                lags(b, bs, e.descends),
            )
        ||| gh.contains(forge_name(b)) && exists|i: int|
            0 <= i < e.tips.len() && (#[trigger] e.tips[i]).contained()
    }
}

/// Whether a branch is never classified; evidence about it is not needed.
pub fn is_protected(b: &BranchInfo, base_tips: &[Oid], base_name: &str) -> (yes: bool)
    ensures
        yes == protected(b@, base_tips@, base_name@),
{
    if b.is_head || text::same_text(b.name.as_str(), base_name) || has_tip(base_tips, b.tip_oid) {
        return true;
    }
    if b.is_remote {
        let key = gh_key(b);
        let base_short = text::text_after_first(base_name, '/');
        text::same_text(key.as_str(), base_short.as_str())
    } else {
        text::same_text(b.name.as_str(), "main") || text::same_text(b.name.as_str(), "master")
    }
}

/// Whether a branch merely lags the live copy of its own line.
fn is_stale(b: &BranchInfo, branches: &[BranchInfo], descends: &[bool]) -> (stale: bool)
    ensures
        stale == lags(b@, branch::branches_view(branches@), descends@),
{
    if !b.is_remote {
        return b.ahead == 0 && b.behind > 0;
    }
    let ghost bs = branch::branches_view(branches@);
    let key = gh_key(b);
    let mut i: usize = 0;
    while i < branches.len() && i < descends.len()
        invariant
            0 <= i <= branches.len(),
            bs == branch::branches_view(branches@),
            key@ == forge_name(b@),
            b.is_remote,
            forall|j: int|
                0 <= j < i && j < descends@.len() ==> !(!(#[trigger] bs[j]).is_remote && bs[j].name
                    == forge_name(b@) && bs[j].tip != b@.tip && descends@[j]),
        decreases branches.len() - i,
    {
        let l = &branches[i];
        assert(bs[i as int] == l@);
        if !l.is_remote && text::same_text(l.name.as_str(), key.as_str()) && l.tip_oid != b.tip_oid
            && descends[i] {
            return true;
        }
        i = i + 1;
    }
    false
}

/// Whether a single branch counts as merged into the trunk.
///
/// `base_tips` are the trunk tips, `evidence` what the repository says about
/// the branch and each of them.
pub fn branch_is_merged(
    b: &BranchInfo,
    branches: &[BranchInfo],
    evidence: &BranchEvidence,
    base_tips: &[Oid],
    base_name: &str,
    gh_merged: &NameSet,
) -> (merged: bool)
    ensures
        merged == merged_branch(
            b@,
            branch::branches_view(branches@),
            evidence@,
            base_tips@,
            base_name@,
            gh_merged@,
        ),
{
    if is_protected(b, base_tips, base_name) {
        return false;
    }
    let stale = is_stale(b, branches, evidence.descends.as_slice());
    let ghost tips = evidence@.tips;
    let mut i: usize = 0;
    while i < evidence.tips.len()
        invariant
            0 <= i <= evidence.tips.len(),
            tips == evidence@.tips,
            stale == lags(b@, branch::branches_view(branches@), evidence@.descends),
            !protected(b@, base_tips@, base_name@),
            forall|j: int| 0 <= j < i ==> !landed_on(#[trigger] tips[j], b@.tip, stale),
        decreases evidence.tips.len() - i,
    {
        let e = &evidence.tips[i];
        assert(tips[i as int] == e@);
        let landed = if stale {
            squash_merge_target(e, b.tip_oid).is_some()
        } else {
            is_ancestor_merged(e) || is_squash_merged(e, b.tip_oid)
        };
        if landed {
            assert(landed_on(tips[i as int], b@.tip, stale));
            return true;
        }
        i = i + 1;
    }
    let key = gh_key(b);
    if !gh_merged.contains(key.as_str()) {
        return false;
    }
    let mut i: usize = 0;
    while i < evidence.tips.len()
        invariant
            0 <= i <= evidence.tips.len(),
            tips == evidence@.tips,
            gh_merged@.contains(forge_name(b@)),
            !protected(b@, base_tips@, base_name@),
            forall|j: int| 0 <= j < i ==> !(#[trigger] tips[j]).contained(),
        decreases evidence.tips.len() - i,
    {
        assert(tips[i as int] == evidence.tips@[i as int]@);
        if branch_content_in_base(&evidence.tips[i].trial) {
            assert(tips[i as int].contained());
            return true;
        }
        i = i + 1;
    }
    false
}

/// The first trunk tip whose evidence names a squash commit.
pub open spec fn first_target(e: EvidenceView, tip: Oid) -> Option<Oid> {
    match search::first_such(
        e.tips.len() as int,
        |i: int| e.tips[i].squash_target(tip) is Some,
    ) {
        Some(i) => e.tips[i].squash_target(tip),
        None => None,
    }
}

fn find_target(evidence: &BranchEvidence, tip: Oid) -> (target: Option<Oid>)
    ensures
        target == first_target(evidence@, tip),
{
    let ghost e = evidence@;
    let ghost p = |i: int| e.tips[i].squash_target(tip) is Some;
    let mut i: usize = 0;
    while i < evidence.tips.len()
        invariant
            0 <= i <= evidence.tips.len(),
            e == evidence@,
            p == (|i: int| e.tips[i].squash_target(tip) is Some),
            forall|j: int| 0 <= j < i ==> !#[trigger] p(j),
        decreases evidence.tips.len() - i,
    {
        assert(e.tips[i as int] == evidence.tips@[i as int]@);
        let t = squash_merge_target(&evidence.tips[i], tip);
        if t.is_some() {
            proof {
                assert(p(i as int));
                search::lemma_first_such(e.tips.len() as int, p, i as int);
            }
            return t;
        }
        assert(!p(i as int));
        i = i + 1;
    }
    proof {
        search::lemma_no_such(e.tips.len() as int, p);
    }
    None
}

/// A list of evidence as mathematical values.
pub open spec fn evidence_view(evidence: Seq<BranchEvidence>) -> Seq<EvidenceView> {
    evidence.map_values(|e: BranchEvidence| e@)
}

/// Branch `i` counts as merged; a branch without evidence does not.
pub open spec fn merged_at(
    bs: Seq<BranchView>,
    es: Seq<EvidenceView>,
    tips: Seq<Oid>,
    base_name: Seq<char>,
    gh: Set<Seq<char>>,
    i: int,
) -> bool {
    0 <= i < bs.len() && i < es.len() && merged_branch(bs[i], bs, es[i], tips, base_name, gh)
}

/// The names of the merged ones among the first `n` branches.
pub open spec fn merged_names(
    bs: Seq<BranchView>,
    es: Seq<EvidenceView>,
    tips: Seq<Oid>,
    base_name: Seq<char>,
    gh: Set<Seq<char>>,
    n: nat,
) -> Set<Seq<char>>
    decreases n,
{
    if n == 0 {
        Set::empty()
    } else {
        let rest = merged_names(bs, es, tips, base_name, gh, (n - 1) as nat);
        if merged_at(bs, es, tips, base_name, gh, n - 1) {
            rest.insert(bs[n - 1].name)
        } else {
            rest
        }
    }
}

/// The squash commits of the merged ones among the first `n` branches.
pub open spec fn merged_targets(
    bs: Seq<BranchView>,
    es: Seq<EvidenceView>,
    tips: Seq<Oid>,
    base_name: Seq<char>,
    gh: Set<Seq<char>>,
    n: nat,
) -> Map<Seq<char>, Oid>
    decreases n,
{
    if n == 0 {
        Map::empty()
    } else {
        let rest = merged_targets(bs, es, tips, base_name, gh, (n - 1) as nat);
        let b = bs[n - 1];
        if merged_at(bs, es, tips, base_name, gh, n - 1) && first_target(es[n - 1], b.tip) is Some {
            rest.insert(b.name, first_target(es[n - 1], b.tip)->0)
        } else {
            rest
        }
    }
}

/// The names of the branches, local or remote, that are merged into the base,
/// and the squash commit that landed each squash-merged one. An ancestry merge
/// has no distinct landing commit, so it is in the set but not in the map.
///
/// `evidence` is parallel to `branches`.
pub fn classify_merged_branches_with_targets(
    branches: &[BranchInfo],
    evidence: &[BranchEvidence],
    base_tip: Oid,
    base_name: &str,
    gh_merged: &NameSet,
) -> (classified: (NameSet, NameMap))
    ensures
        ({
            let bs = branch::branches_view(branches@);
            let es = evidence_view(evidence@);
            let tips = trunk_tips(bs, base_tip, base_name@);
            &&& classified.0@ == merged_names(bs, es, tips, base_name@, gh_merged@, bs.len())
            &&& classified.1@ == merged_targets(bs, es, tips, base_name@, gh_merged@, bs.len())
        }),
{
    let ghost bs = branch::branches_view(branches@);
    let ghost es = evidence_view(evidence@);
    let tips = base_tips(branches, base_tip, base_name);
    let mut merged = NameSet::new();
    let mut targets = NameMap::new();
    let mut n: usize = 0;
    while n < branches.len()
        invariant
            0 <= n <= branches.len(),
            bs == branch::branches_view(branches@),
            es == evidence_view(evidence@),
            tips@ == trunk_tips(bs, base_tip, base_name@),
            merged@ == merged_names(bs, es, tips@, base_name@, gh_merged@, n as nat),
            targets@ == merged_targets(bs, es, tips@, base_name@, gh_merged@, n as nat),
        decreases branches.len() - n,
    {
        let b = &branches[n];
        assert(bs[n as int] == b@);
        if n < evidence.len() {
            assert(es[n as int] == evidence@[n as int]@);
            if branch_is_merged(
                b,
                branches,
                &evidence[n],
                tips.as_slice(),
                base_name,
                gh_merged,
            ) {
                merged.insert(b.name.clone());
                if let Some(target) = find_target(&evidence[n], b.tip_oid) {
                    targets.insert(b.name.clone(), target);
                }
            }
        }
        n = n + 1;
    }
    (merged, targets)
}

/// The names of the branches, local or remote, that are merged into the base.
pub fn classify_merged_branches(
    branches: &[BranchInfo],
    evidence: &[BranchEvidence],
    base_tip: Oid,
    base_name: &str,
    gh_merged: &NameSet,
) -> (merged: NameSet)
    ensures
        ({
            let bs = branch::branches_view(branches@);
            let tips = trunk_tips(bs, base_tip, base_name@);
            merged@ == merged_names(
                bs,
                evidence_view(evidence@),
                tips,
                base_name@,
                gh_merged@,
                bs.len(),
            )
        }),
{
    classify_merged_branches_with_targets(branches, evidence, base_tip, base_name, gh_merged).0
}

/// Classification by ancestry and squash detection alone, without a forge's
/// signal.
pub fn merged_local_branches(
    branches: &[BranchInfo],
    evidence: &[BranchEvidence],
    base_tip: Oid,
    base_name: &str,
) -> (merged: NameSet)
    ensures
        ({
            let bs = branch::branches_view(branches@);
            let tips = trunk_tips(bs, base_tip, base_name@);
            merged@ == merged_names(
                bs,
                evidence_view(evidence@),
                tips,
                base_name@,
                Set::empty(),
                bs.len(),
            )
        }),
{
    let none = NameSet::new();
    classify_merged_branches(branches, evidence, base_tip, base_name, &none)
}

/// A commit met on the walk from a PR head to the base.
#[derive(Debug, Clone, Copy, PartialEq, Eq, Structural)]
pub struct PrCommit {
    pub oid: Oid,
    /// How many parents it has; zero when it could not be read.
    pub parent_count: usize,
    pub second_parent: Option<Oid>,
    /// Whether the base tip descends from the second parent.
    pub second_on_base: bool,
}

/// Whether a commit of a PR branch merged the base into it: a merge whose
/// second parent is on the base.
pub open spec fn is_base_update(c: PrCommit, base_tip: Oid) -> bool {
    c.parent_count >= 2 && c.second_parent is Some && (c.second_parent == Some(base_tip)
        || c.second_on_base)
}

/// One of the PR walks meets, within the scan limit, a base-update merge `oid`.
pub open spec fn updates_base(walks: Seq<Seq<PrCommit>>, base_tip: Oid, oid: Oid) -> bool {
    exists|i: int, k: int|
        0 <= i < walks.len() && 0 <= k < walks[i].len() && k < BASE_UPDATE_SCAN_LIMIT
            && (#[trigger] walks[i][k]).oid == oid && is_base_update(walks[i][k], base_tip)
}

/// The walks as mathematical values.
pub open spec fn walks_view(walks: Seq<Vec<PrCommit>>) -> Seq<Seq<PrCommit>> {
    walks.map_values(|w: Vec<PrCommit>| w@)
}

/// The base-update merges among the commits of open PRs: each walk lists the
/// commits that a PR head has and the base has not, so a landing, which sits on
/// the base, is never among them.
pub fn classify_base_update_merges(walks: &[Vec<PrCommit>], base_tip: Oid) -> (out: OidSet)
    ensures
        forall|o: Oid| #[trigger]
            out@.contains(o) <==> updates_base(walks_view(walks@), base_tip, o),
{
    let ghost ws = walks_view(walks@);
    let mut out = OidSet::new();
    let mut i: usize = 0;
    while i < walks.len()
        invariant
            0 <= i <= walks.len(),
            ws == walks_view(walks@),
            forall|o: Oid| #[trigger]
                out@.contains(o) <==> updates_base(ws.take(i as int), base_tip, o),
        decreases walks.len() - i,
    {
        let w = &walks[i];
        assert(ws[i as int] == w@);
        let ghost before = out@;
        let ghost done = ws.take(i as int);
        let ghost next = ws.take(i + 1);
        let mut k: usize = 0;
        while k < w.len() && k < BASE_UPDATE_SCAN_LIMIT
            invariant
                0 <= k <= w.len(),
                k <= BASE_UPDATE_SCAN_LIMIT,
                forall|o: Oid| #[trigger]
                    out@.contains(o) <==> before.contains(o) || exists|j: int|
                        0 <= j < k && (#[trigger] w@[j]).oid == o && is_base_update(w@[j], base_tip),
            decreases w.len() - k,
        {
            let c = w[k];
            let update = c.parent_count >= 2 && (match c.second_parent {
                Some(second) => second == base_tip || c.second_on_base,
                None => false,
            });
            assert(update == is_base_update(w@[k as int], base_tip));
            let ghost had = out@;
            if update {
                out.insert(c.oid);
            }
            assert forall|o: Oid| #[trigger] out@.contains(o) <==> before.contains(o) || exists|
                j: int,
            |
                0 <= j < k + 1 && (#[trigger] w@[j]).oid == o && is_base_update(w@[j], base_tip) by {
                if had.contains(o) && !before.contains(o) {
                    let j = choose|j: int|
                        0 <= j < k && (#[trigger] w@[j]).oid == o && is_base_update(
                            w@[j],
                            base_tip,
                        );
                    assert(0 <= j < k + 1 && w@[j].oid == o);
                }
                if update && o == c.oid {
                    assert(w@[k as int].oid == o);
                }
            }
            k = k + 1;
        }
        proof {
            assert forall|o: Oid| #[trigger] out@.contains(o) <==> updates_base(
                next,
                base_tip,
                o,
            ) by {
                if updates_base(done, base_tip, o) {
                    let (a, b) = choose|a: int, b: int|
                        0 <= a < done.len() && 0 <= b < done[a].len() && b < BASE_UPDATE_SCAN_LIMIT
                            && (#[trigger] done[a][b]).oid == o && is_base_update(
                            done[a][b],
                            base_tip,
                        );
                    assert(next[a][b] == done[a][b]);
                }
                if exists|j: int|
                    0 <= j < k && (#[trigger] w@[j]).oid == o && is_base_update(w@[j], base_tip) {
                    let j = choose|j: int|
                        0 <= j < k && (#[trigger] w@[j]).oid == o && is_base_update(
                            w@[j],
                            base_tip,
                        );
                    assert(next[i as int][j].oid == o);
                }
                if updates_base(next, base_tip, o) {
                    let (a, b) = choose|a: int, b: int|
                        0 <= a < next.len() && 0 <= b < next[a].len() && b < BASE_UPDATE_SCAN_LIMIT
                            && (#[trigger] next[a][b]).oid == o && is_base_update(
                            next[a][b],
                            base_tip,
                        );
                    if a < i {
                        assert(done[a][b].oid == o);
                    } else {
                        assert(w@[b].oid == o);
                    }
                }
            }
        }
        i = i + 1;
    }
    assert(ws.take(i as int) =~= ws);
    out
}

/// The abbreviated form of an id.
pub open spec fn short(o: Oid) -> Seq<char> {
    o.hex().take(7)
}

pub open spec fn yes_no(b: bool) -> Seq<char> {
    if b {
        "true"@
    } else {
        "false"@
    }
}

fn push_bool(out: &mut String, b: bool)
    ensures
        final(out)@ == old(out)@ + yes_no(b),
{
    if b {
        out.append("true");
    } else {
        out.append("false");
    }
}

/// The first `n` ids, separated by commas.
pub open spec fn listed(tips: Seq<Oid>, n: nat) -> Seq<char>
    decreases n,
{
    if n == 0 {
        Seq::empty()
    } else if n == 1 {
        short(tips[0])
    } else {
        listed(tips, (n - 1) as nat) + ", "@ + short(tips[n - 1])
    }
}

fn push_tips(out: &mut String, tips: &[Oid])
    ensures
        final(out)@ == old(out)@ + listed(tips@, tips@.len()),
{
    let ghost start = out@;
    let mut n: usize = 0;
    assert(out@ =~= start + listed(tips@, 0));
    while n < tips.len()
        invariant
            0 <= n <= tips.len(),
            out@ == start + listed(tips@, n as nat),
        decreases tips.len() - n,
    {
        if n > 0 {
            out.append(", ");
        }
        let s = short_hash(tips[n]);
        out.append(s.as_str());
        assert(out@ =~= start + listed(tips@, (n + 1) as nat));
        n = n + 1;
    }
}

/// How far a trunk tip is from the fork point, as the trace shows it.
pub open spec fn distance_text(e: TipView) -> Seq<char> {
    if e.fork is None {
        "-"@
    } else {
        match e.distance {
            None => "?"@,
            Some(n) => if n > SQUASH_SCAN_LIMIT {
                ">400 (CAP!)"@
            } else {
                text::decimal(n as nat)
            },
        }
    }
}

fn push_distance(out: &mut String, e: &TipEvidence)
    ensures
        final(out)@ == old(out)@ + distance_text(e@),
{
    if e.fork.is_none() {
        out.append("-");
    } else {
        match e.distance {
            None => {
                out.append("?");
            },
            Some(n) => {
                if n > SQUASH_SCAN_LIMIT {
                    out.append(">400 (CAP!)");
                } else {
                    text::push_decimal(out, n as u64);
                }
            },
        }
    }
}

pub open spec fn short_or(o: Option<Oid>, none: Seq<char>) -> Seq<char> {
    match o {
        Some(o) => short(o),
        None => none,
    }
}

fn push_short_or(out: &mut String, o: Option<Oid>, none: &str)
    ensures
        final(out)@ == old(out)@ + short_or(o, none@),
{
    match o {
        Some(o) => {
            let s = short_hash(o);
            out.append(s.as_str());
        },
        None => {
            out.append(none);
        },
    }
}

/// The trace's line about one trunk tip.
pub open spec fn tip_line(out: Seq<char>, t: Oid, e: TipView, branch_tip: Oid) -> Seq<char> {
    out + "  vs "@ + short(t) + ": fork="@ + short_or(e.fork, "none(unrelated)"@) + " dist="@
        + distance_text(e) + " ancestry="@ + yes_no(e.descends) + " squash="@ + short_or(
        e.squash_target(branch_tip),
        "miss"@,
    ) + " contained="@ + yes_no(e.contained()) + "\n"@
}

/// What one trunk tip says about a branch, if it says that it landed.
pub open spec fn tip_verdict(t: Oid, e: TipView, branch_tip: Oid, stale: bool) -> Option<
    Seq<char>,
> {
    if e.descends && !stale {
        Some("MERGED (ancestry into "@ + short(t) + ")"@)
    } else {
        match e.squash_target(branch_tip) {
            Some(s) => Some("MERGED (squash target "@ + short(s) + ")"@),
            None => None,
        }
    }
}

/// The trace after the first `n` trunk tips, and the first verdict.
pub open spec fn tip_lines(
    out: Seq<char>,
    tips: Seq<Oid>,
    e: EvidenceView,
    branch_tip: Oid,
    stale: bool,
    n: nat,
) -> (Seq<char>, Option<Seq<char>>)
    decreases n,
{
    if n == 0 {
        (out, None)
    } else {
        let (o, v) = tip_lines(out, tips, e, branch_tip, stale, (n - 1) as nat);
        let t = tips[n - 1];
        (
            tip_line(o, t, e.tips[n - 1], branch_tip),
            if v is Some {
                v
            } else {
                tip_verdict(t, e.tips[n - 1], branch_tip, stale)
            },
        )
    }
}

/// How many trunk tips there is evidence about.
pub open spec fn judged(tips: Seq<Oid>, e: EvidenceView) -> nat {
    if tips.len() <= e.tips.len() {
        tips.len()
    } else {
        e.tips.len()
    }
}

/// The content of the branch is in the trunk, as far as there is evidence.
pub open spec fn contained_somewhere(tips: Seq<Oid>, e: EvidenceView) -> bool {
    exists|i: int| 0 <= i < judged(tips, e) && (#[trigger] e.tips[i]).contained()
}

/// The verdict on a branch that is not protected.
pub open spec fn verdict(
    b: BranchView,
    bs: Seq<BranchView>,
    e: EvidenceView,
    tips: Seq<Oid>,
    gh: Set<Seq<char>>,
) -> Option<Seq<char>> {
    let landed = tip_lines(
        Seq::empty(),
        tips,
        e,
        b.tip,
        lags(b, bs, e.descends),
        judged(tips, e),
    ).1;
    if landed is Some {
        landed
    } else if gh.contains(forge_name(b)) && contained_somewhere(tips, e) {
        Some("MERGED (gh signal + content contained)"@)
    } else {
        None
    }
}

/// The trace of one branch.
pub open spec fn branch_trace(
    out: Seq<char>,
    b: BranchView,
    bs: Seq<BranchView>,
    e: EvidenceView,
    tips: Seq<Oid>,
    base_name: Seq<char>,
    gh: Set<Seq<char>>,
) -> Seq<char> {
    let kind = if b.is_remote {
        "remote"@
    } else {
        "local "@
    };
    let title = out + "\n"@ + kind + " "@ + b.name + " @ "@ + short(b.tip) + "\n"@;
    if b.is_head {
        title + "  guard: checked-out HEAD — never classified\n"@
    } else if b.name == base_name || tips.contains(b.tip) {
        title + "  guard: trunk / trunk tip — never classified\n"@
    } else if b.is_remote && forge_name(b) == text::after_first(base_name, '/') {
        title + "  guard: trunk mirror on another remote — never classified\n"@
    } else if !b.is_remote && (b.name == "main"@ || b.name == "master"@) {
        title + "  guard: trunk by name — never classified\n"@
    } else {
        let stale = lags(b, bs, e.descends);
        let noted = if stale {
            title
                + "  lags the live copy of its own line — stale tracking ref, ancestry signal disabled (#105/#107)\n"@
        } else {
            title
        };
        let (tried, landed) = tip_lines(noted, tips, e, b.tip, stale, judged(tips, e));
        let in_gh = gh.contains(forge_name(b));
        let asked = tried + "  gh: key '"@ + forge_name(b) + "' in merged-PR set: "@ + yes_no(in_gh)
            + "\n"@;
        let judged_text = if landed is None && in_gh && !contained_somewhere(tips, e) {
            asked
                + "  gh signal present but content NOT contained (conflict-resolved landing, or novel work)\n"@
        } else {
            asked
        };
        judged_text + "  => "@ + (match verdict(b, bs, e, tips, gh) {
            Some(v) => v,
            None => "visible (not classified merged)"@,
        }) + "\n"@
    }
}

/// The trace of the first `n` branches.
pub open spec fn branch_traces(
    out: Seq<char>,
    bs: Seq<BranchView>,
    es: Seq<EvidenceView>,
    tips: Seq<Oid>,
    base_name: Seq<char>,
    gh: Set<Seq<char>>,
    n: nat,
) -> Seq<char>
    decreases n,
{
    if n == 0 {
        out
    } else {
        branch_trace(
            branch_traces(out, bs, es, tips, base_name, gh, (n - 1) as nat),
            bs[n - 1],
            bs,
            es[n - 1],
            tips,
            base_name,
            gh,
        )
    }
}

/// The whole trace.
pub open spec fn trace_text(
    bs: Seq<BranchView>,
    es: Seq<EvidenceView>,
    gh: Set<Seq<char>>,
) -> Seq<char> {
    match base_index(bs) {
        None =>
            "no base branch (no local/origin main or master, no HEAD) — nothing can be classified\n"@,
        Some(i) => {
            let base = bs[i];
            let tips = trunk_tips(bs, base.tip, base.name);
            let head = Seq::<char>::empty() + "base: "@ + base.name + " @ "@ + short(base.tip)
                + "\n"@ + "trunk tips tested: "@ + listed(tips, tips.len()) + "\n"@
                + "gh merged-PR heads known: "@ + text::decimal(gh.len()) + "\n"@;
            branch_traces(head, bs, es, tips, base.name, gh, bs.len())
        },
    }
}

proof fn lemma_verdict_ignores_text(
    a: Seq<char>,
    b: Seq<char>,
    tips: Seq<Oid>,
    e: EvidenceView,
    branch_tip: Oid,
    stale: bool,
    n: nat,
)
    ensures
        tip_lines(a, tips, e, branch_tip, stale, n).1 == tip_lines(
            b,
            tips,
            e,
            branch_tip,
            stale,
            n,
        ).1,
    decreases n,
{
    if n > 0 {
        lemma_verdict_ignores_text(a, b, tips, e, branch_tip, stale, (n - 1) as nat);
    }
}

/// Write the lines about every trunk tip; the first verdict.
fn write_tips(
    out: &mut String,
    tips: &[Oid],
    evidence: &BranchEvidence,
    branch_tip: Oid,
    stale: bool,
) -> (verdict: Option<String>)
    ensures
        (final(out)@, text::opt_text(verdict)) == tip_lines(
            old(out)@,
            tips@,
            evidence@,
            branch_tip,
            stale,
            judged(tips@, evidence@),
        ),
{
    let ghost start = out@;
    let ghost e = evidence@;
    let mut verdict: Option<String> = None;
    let mut n: usize = 0;
    while n < tips.len() && n < evidence.tips.len()
        invariant
            0 <= n <= tips.len(),
            n <= evidence.tips.len(),
            e == evidence@,
            (out@, text::opt_text(verdict)) == tip_lines(
                start,
                tips@,
                e,
                branch_tip,
                stale,
                n as nat,
            ),
        decreases tips.len() - n,
    {
        let t = tips[n];
        let ev = &evidence.tips[n];
        assert(e.tips[n as int] == ev@);
        let ghost before = out@;
        let squash = squash_merge_target(ev, branch_tip);
        let contained = branch_content_in_base(&ev.trial);
        let ts = short_hash(t);
        out.append("  vs ");
        out.append(ts.as_str());
        out.append(": fork=");
        push_short_or(out, ev.fork, "none(unrelated)");
        out.append(" dist=");
        push_distance(out, ev);
        out.append(" ancestry=");
        push_bool(out, ev.descends);
        out.append(" squash=");
        push_short_or(out, squash, "miss");
        out.append(" contained=");
        push_bool(out, contained);
        out.append("\n");
        assert(out@ == tip_line(before, t, e.tips[n as int], branch_tip));
        if verdict.is_none() {
            if ev.descends && !stale {
                let mut v = String::new();
                v.append("MERGED (ancestry into ");
                v.append(ts.as_str());
                v.append(")");
                assert(v@ =~= "MERGED (ancestry into "@ + short(t) + ")"@);
                verdict = Some(v);
            } else if let Some(s) = squash {
                let ss = short_hash(s);
                let mut v = String::new();
                v.append("MERGED (squash target ");
                v.append(ss.as_str());
                v.append(")");
                assert(v@ =~= "MERGED (squash target "@ + short(s) + ")"@);
                verdict = Some(v);
            }
        }
        n = n + 1;
    }
    verdict
}

/// Whether the trunk contains the branch's content, as far as there is evidence.
fn is_contained(tips: &[Oid], evidence: &BranchEvidence) -> (yes: bool)
    ensures
        yes == contained_somewhere(tips@, evidence@),
{
    let ghost e = evidence@;
    let mut i: usize = 0;
    while i < tips.len() && i < evidence.tips.len()
        invariant
            0 <= i <= tips.len(),
            i <= evidence.tips.len(),
            e == evidence@,
            forall|j: int| 0 <= j < i ==> !(#[trigger] e.tips[j]).contained(),
        decreases tips.len() - i,
    {
        assert(e.tips[i as int] == evidence.tips@[i as int]@);
        if branch_content_in_base(&evidence.tips[i].trial) {
            assert(e.tips[i as int].contained());
            return true;
        }
        i = i + 1;
    }
    false
}

/// Write the trace of one branch.
fn write_branch(
    out: &mut String,
    b: &BranchInfo,
    branches: &[BranchInfo],
    evidence: &BranchEvidence,
    tips: &[Oid],
    base_name: &str,
    gh_merged: &NameSet,
)
    ensures
        final(out)@ == branch_trace(
            old(out)@,
            b@,
            branch::branches_view(branches@),
            evidence@,
            tips@,
            base_name@,
            gh_merged@,
        ),
{
    let tip = short_hash(b.tip_oid);
    out.append("\n");
    out.append(
        if b.is_remote {
            "remote"
        } else {
            "local "
        },
    );
    out.append(" ");
    out.append(b.name.as_str());
    out.append(" @ ");
    out.append(tip.as_str());
    out.append("\n");
    if b.is_head {
        out.append("  guard: checked-out HEAD — never classified\n");
        return;
    }
    if text::same_text(b.name.as_str(), base_name) || has_tip(tips, b.tip_oid) {
        out.append("  guard: trunk / trunk tip — never classified\n");
        return;
    }
    let key = gh_key(b);
    let base_short = text::text_after_first(base_name, '/');
    if b.is_remote && text::same_text(key.as_str(), base_short.as_str()) {
        out.append("  guard: trunk mirror on another remote — never classified\n");
        return;
    }
    if !b.is_remote && (text::same_text(b.name.as_str(), "main") || text::same_text(
        b.name.as_str(),
        "master",
    )) {
        out.append("  guard: trunk by name — never classified\n");
        return;
    }
    let stale = is_stale(b, branches, evidence.descends.as_slice());
    if stale {
        out.append(
            "  lags the live copy of its own line — stale tracking ref, ancestry signal disabled (#105/#107)\n",
        );
    }
    let ghost noted = out@;
    let landed = write_tips(out, tips, evidence, b.tip_oid, stale);
    proof {
        lemma_verdict_ignores_text(
            noted,
            Seq::empty(),
            tips@,
            evidence@,
            b@.tip,
            stale,
            judged(tips@, evidence@),
        );
    }
    let in_gh = gh_merged.contains(key.as_str());
    out.append("  gh: key '");
    out.append(key.as_str());
    out.append("' in merged-PR set: ");
    push_bool(out, in_gh);
    out.append("\n");
    match landed {
        Some(v) => {
            out.append("  => ");
            out.append(v.as_str());
        },
        None => {
            if in_gh {
                if is_contained(tips, evidence) {
                    out.append("  => ");
                    out.append("MERGED (gh signal + content contained)");
                } else {
                    out.append(
                        "  gh signal present but content NOT contained (conflict-resolved landing, or novel work)\n",
                    );
                    out.append("  => ");
                    out.append("visible (not classified merged)");
                }
            } else {
                out.append("  => ");
                out.append("visible (not classified merged)");
            }
        },
    }
    out.append("\n");
}

/// Plain-text trace of every decision that [`classify_merged_branches`] makes:
/// the base, the trunk tips, and for each branch each guard and signal with the
/// ids involved.
///
/// `evidence` is parallel to `branches`.
pub fn explain_classification(
    branches: &[BranchInfo],
    evidence: &[BranchEvidence],
    gh_merged: &NameSet,
) -> (out: String)
    requires
        evidence@.len() == branches@.len(),
    ensures
        out@ == trace_text(
            branch::branches_view(branches@),
            evidence_view(evidence@),
            gh_merged@,
        ),
{
    let ghost bs = branch::branches_view(branches@);
    let ghost es = evidence_view(evidence@);
    let mut out = String::new();
    let base = match base_branch(branches) {
        Some(b) => b,
        None => {
            out.append(
                "no base branch (no local/origin main or master, no HEAD) — nothing can be classified\n",
            );
            assert(out@ =~=
                "no base branch (no local/origin main or master, no HEAD) — nothing can be classified\n"@);
            return out;
        },
    };
    let ghost bi = base_index(bs)->0;
    assert(bs[bi] == base@);
    let tips = base_tips(branches, base.tip_oid, base.name.as_str());
    let base_short = short_hash(base.tip_oid);
    out.append("base: ");
    out.append(base.name.as_str());
    out.append(" @ ");
    out.append(base_short.as_str());
    out.append("\n");
    out.append("trunk tips tested: ");
    push_tips(&mut out, tips.as_slice());
    out.append("\n");
    out.append("gh merged-PR heads known: ");
    text::push_decimal(&mut out, gh_merged.len() as u64);
    out.append("\n");
    let ghost head = out@;
    let mut n: usize = 0;
    while n < branches.len()
        invariant
            0 <= n <= branches.len(),
            evidence@.len() == branches@.len(),
            bs == branch::branches_view(branches@),
            es == evidence_view(evidence@),
            out@ == branch_traces(head, bs, es, tips@, base.name@, gh_merged@, n as nat),
        decreases branches.len() - n,
    {
        assert(bs[n as int] == branches@[n as int]@);
        assert(es[n as int] == evidence@[n as int]@);
        write_branch(
            &mut out,
            &branches[n],
            branches,
            &evidence[n],
            tips.as_slice(),
            base.name.as_str(),
            gh_merged,
        );
        n = n + 1;
    }
    out
}

/// A branch you are on, a trunk, and every copy of the trunk are never
/// classified, whatever the evidence says.
pub proof fn law_protected_branches_stay_visible(
    bs: Seq<BranchView>,
    e: EvidenceView,
    tips: Seq<Oid>,
    base_name: Seq<char>,
    gh: Set<Seq<char>>,
    b: BranchView,
)
    requires
        b.is_head || b.name == base_name || tips.contains(b.tip) || (b.is_remote && forge_name(b)
            == text::after_first(base_name, '/')) || (!b.is_remote && (b.name == "main"@ || b.name
            == "master"@)),
    ensures
        !merged_branch(b, bs, e, tips, base_name, gh),
{
}

/// A branch is in the merged set exactly if a branch of that name counts as
/// merged.
pub proof fn law_merged_names(
    bs: Seq<BranchView>,
    es: Seq<EvidenceView>,
    tips: Seq<Oid>,
    base_name: Seq<char>,
    gh: Set<Seq<char>>,
    n: nat,
    name: Seq<char>,
)
    requires
        n <= bs.len(),
    ensures
        merged_names(bs, es, tips, base_name, gh, n).contains(name) <==> exists|i: int|
            0 <= i < n && (#[trigger] bs[i]).name == name && merged_at(
                bs,
                es,
                tips,
                base_name,
                gh,
                i,
            ),
    decreases n,
{
    if n > 0 {
        law_merged_names(bs, es, tips, base_name, gh, (n - 1) as nat, name);
        if merged_at(bs, es, tips, base_name, gh, n - 1) && bs[n - 1].name == name {
            assert(0 <= n - 1 < n && bs[n - 1].name == name);
        }
    }
}

/// Only merged branches have a squash commit to link to.
pub proof fn law_targets_are_merged(
    bs: Seq<BranchView>,
    es: Seq<EvidenceView>,
    tips: Seq<Oid>,
    base_name: Seq<char>,
    gh: Set<Seq<char>>,
    n: nat,
)
    ensures
        merged_targets(bs, es, tips, base_name, gh, n).dom().subset_of(
            merged_names(bs, es, tips, base_name, gh, n),
        ),
    decreases n,
{
    if n > 0 {
        law_targets_are_merged(bs, es, tips, base_name, gh, (n - 1) as nat);
    }
}

/// The name of a merged PR alone never hides a branch: without a landing in git
/// and without its content in a trunk tip, a branch that reuses the name stays
/// visible.
pub proof fn law_pr_name_alone_hides_nothing(
    bs: Seq<BranchView>,
    e: EvidenceView,
    tips: Seq<Oid>,
    base_name: Seq<char>,
    gh: Set<Seq<char>>,
    b: BranchView,
)
    requires
        forall|i: int|
            0 <= i < e.tips.len() ==> !landed_on(
                #[trigger] e.tips[i],
                b.tip,
                lags(b, bs, e.descends),
            ) && !e.tips[i].contained(),
    ensures
        !merged_branch(b, bs, e, tips, base_name, gh),
{
}

proof fn lemma_tip_verdicts(
    tips: Seq<Oid>,
    e: EvidenceView,
    branch_tip: Oid,
    stale: bool,
    n: nat,
)
    requires
        n <= e.tips.len(),
        forall|i: int|
            0 <= i < e.tips.len() && (#[trigger] e.tips[i]).fork == Some(branch_tip)
                ==> e.tips[i].descends,
    ensures
        tip_lines(Seq::empty(), tips, e, branch_tip, stale, n).1 is Some <==> exists|i: int|
            0 <= i < n && landed_on(#[trigger] e.tips[i], branch_tip, stale),
    decreases n,
{
    if n > 0 {
        lemma_tip_verdicts(tips, e, branch_tip, stale, (n - 1) as nat);
        let x = e.tips[n - 1];
        assert(tip_verdict(tips[n - 1], x, branch_tip, stale) is Some <==> landed_on(
            x,
            branch_tip,
            stale,
        ));
        if landed_on(x, branch_tip, stale) {
            assert(0 <= n - 1 < n && landed_on(e.tips[n - 1], branch_tip, stale));
        }
    }
}

/// The trace tells the truth: it calls an unprotected branch merged exactly if
/// the classification does. (A trunk whose fork point from the branch is the
/// branch's own tip descends from it.)
pub proof fn law_trace_agrees_with_classification(
    bs: Seq<BranchView>,
    e: EvidenceView,
    tips: Seq<Oid>,
    base_name: Seq<char>,
    gh: Set<Seq<char>>,
    b: BranchView,
)
    requires
        !protected(b, tips, base_name),
        e.tips.len() == tips.len(),
        forall|i: int|
            0 <= i < e.tips.len() && (#[trigger] e.tips[i]).fork == Some(b.tip)
                ==> e.tips[i].descends,
    ensures
        verdict(b, bs, e, tips, gh) is Some <==> merged_branch(b, bs, e, tips, base_name, gh),
{
    lemma_tip_verdicts(tips, e, b.tip, lags(b, bs, e.descends), e.tips.len());
}

} // verus!
