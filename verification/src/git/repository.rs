//! What a repository is read into.
use crate::git::branch::BranchInfo;
use crate::git::commit;
use crate::git::commit::{CommitInfo, CommitRecord, CommitView};
use crate::oid::{Oid, OidSet};
use crate::paths;
use crate::sorting;
use vstd::prelude::*;

verus! {

/// An entry of the stash.
#[derive(Debug, Clone)]
pub struct StashInfo {
    pub index: usize,
    pub message: String,
    pub oid: Oid,
    pub base_oid: Oid,
}

/// A tag pointing at a commit. Annotated tags are peeled, so `target_oid` is
/// always a commit.
#[derive(Debug, Clone)]
pub struct TagInfo {
    pub name: String,
    pub target_oid: Oid,
}

/// What the repository says it is in the middle of.
#[derive(Debug, Clone, Copy, PartialEq, Eq, Structural)]
pub enum RepositoryState {
    Clean,
    Merge,
    Revert,
    RevertSequence,
    CherryPick,
    CherryPickSequence,
    Bisect,
    Rebase,
    RebaseInteractive,
    RebaseMerge,
    ApplyMailbox,
    ApplyMailboxOrRebase,
}

/// The operation in progress, as far as conflicts can be resolved in it.
#[derive(Debug, Clone, Copy, PartialEq, Eq, Structural)]
pub enum OperationState {
    Clean,
    Merge,
    Rebase,
    CherryPick,
    Revert,
}

impl OperationState {
    /// The operation a repository state belongs to. States that the conflict
    /// views do not cover count as clean.
    pub open spec fn of(state: RepositoryState) -> OperationState {
        match state {
            RepositoryState::Merge => OperationState::Merge,
            RepositoryState::Revert => OperationState::Revert,
            RepositoryState::RevertSequence => OperationState::Revert,
            RepositoryState::CherryPick => OperationState::CherryPick,
            RepositoryState::CherryPickSequence => OperationState::CherryPick,
            RepositoryState::Rebase => OperationState::Rebase,
            RepositoryState::RebaseInteractive => OperationState::Rebase,
            RepositoryState::RebaseMerge => OperationState::Rebase,
            _ => OperationState::Clean,
        }
    }

    /// The operation a repository state belongs to.
    pub fn from_repo_state(state: RepositoryState) -> (op: OperationState)
        ensures
            op == OperationState::of(state),
    {
        match state {
            RepositoryState::Merge => OperationState::Merge,
            RepositoryState::Revert | RepositoryState::RevertSequence => OperationState::Revert,
            RepositoryState::CherryPick | RepositoryState::CherryPickSequence => OperationState::CherryPick,
            RepositoryState::Rebase | RepositoryState::RebaseInteractive | RepositoryState::RebaseMerge =>
                OperationState::Rebase,
            _ => OperationState::Clean,
        }
    }

    /// Whether an operation is in progress.
    pub fn is_in_progress(self) -> (yes: bool)
        ensures
            yes == (self != OperationState::Clean),
    {
        match self {
            OperationState::Clean => false,
            _ => true,
        }
    }

    /// The label in the status bar.
    pub open spec fn label_text(self) -> Seq<char> {
        match self {
            OperationState::Clean => ""@,
            OperationState::Merge => "MERGING"@,
            OperationState::Rebase => "REBASING"@,
            OperationState::CherryPick => "CHERRY-PICKING"@,
            OperationState::Revert => "REVERTING"@,
        }
    }

    /// The label in the status bar.
    pub fn label(self) -> (s: &'static str)
        ensures
            s@ == self.label_text(),
    {
        match self {
            OperationState::Clean => "",
            OperationState::Merge => "MERGING",
            OperationState::Rebase => "REBASING",
            OperationState::CherryPick => "CHERRY-PICKING",
            OperationState::Revert => "REVERTING",
        }
    }

    /// The `git` subcommand that aborts or continues the operation.
    pub open spec fn subcommand(self) -> Option<Seq<char>> {
        match self {
            OperationState::Clean => None,
            OperationState::Merge => Some("merge"@),
            OperationState::Rebase => Some("rebase"@),
            OperationState::CherryPick => Some("cherry-pick"@),
            OperationState::Revert => Some("revert"@),
        }
    }

    /// The `git` subcommand that aborts or continues the operation.
    pub fn git_subcommand(self) -> (s: Option<&'static str>)
        ensures
            match s {
                Some(name) => self.subcommand() == Some(name@),
                None => self.subcommand() is None,
            },
    {
        match self {
            OperationState::Clean => None,
            OperationState::Merge => Some("merge"),
            OperationState::Rebase => Some("rebase"),
            OperationState::CherryPick => Some("cherry-pick"),
            OperationState::Revert => Some("revert"),
        }
    }

    /// The operation's name in messages.
    pub fn verb(self) -> (s: &'static str)
        ensures
            s@ == match self.subcommand() {
                Some(name) => name,
                None => "operation"@,
            },
    {
        match self.git_subcommand() {
            Some(name) => name,
            None => "operation",
        }
    }
}

/// The commits that a walk of the history starts from: the tips of the visible
/// branches, HEAD, and the stash entries, in this order.
pub open spec fn tips(branches: Seq<BranchInfo>, head: Option<Oid>, stashes: Seq<StashInfo>) -> Seq<Oid> {
    branches.map_values(|b: BranchInfo| b.tip_oid) + (match head {
        Some(h) => seq![h],
        None => Seq::empty(),
    }) + stashes.map_values(|s: StashInfo| s.oid)
}

/// The commits that a walk of the history starts from. HEAD is always one, so
/// that it stays in the graph when detached or when its branch is hidden.
pub fn walk_tips(branches: &[BranchInfo], head: Option<Oid>, stashes: &[StashInfo]) -> (out: Vec<Oid>)
    ensures
        out@ == tips(branches@, head, stashes@),
{
    let mut out: Vec<Oid> = Vec::new();
    let ghost b = branches@.map_values(|b: BranchInfo| b.tip_oid);
    let ghost s = stashes@.map_values(|s: StashInfo| s.oid);
    let mut i: usize = 0;
    assert(out@ =~= b.take(0));
    while i < branches.len()
        invariant
            0 <= i <= branches.len(),
            b == branches@.map_values(|b: BranchInfo| b.tip_oid),
            out@ == b.take(i as int),
        decreases branches.len() - i,
    {
        out.push(branches[i].tip_oid);
        assert(out@ =~= b.take(i + 1));
        i = i + 1;
    }
    assert(b.take(i as int) =~= b);
    if let Some(h) = head {
        out.push(h);
    }
    let ghost front = out@;
    let mut k: usize = 0;
    assert(out@ =~= front + s.take(0));
    while k < stashes.len()
        invariant
            0 <= k <= stashes.len(),
            s == stashes@.map_values(|s: StashInfo| s.oid),
            out@ == front + s.take(k as int),
        decreases stashes.len() - k,
    {
        out.push(stashes[k].oid);
        assert(out@ =~= front + s.take(k + 1));
        k = k + 1;
    }
    assert(s.take(k as int) =~= s);
    assert(out@ =~= tips(branches@, head, stashes@));
    out
}

/// Whether a commit belongs to the inside of a stash entry: it is a parent of
/// the entry beyond the first. `parents[i]` are the parents of the entry
/// `stashes[i]`, none where it could not be read.
pub open spec fn is_stash_internal(parents: Seq<Vec<Oid>>, oid: Oid) -> bool {
    exists|i: int, k: int| 0 <= i < parents.len() && 1 <= k < parents[i]@.len() && #[trigger] parents[i]@[k] == oid
}

/// Whether a commit is a stash entry.
pub open spec fn is_stash(stashes: Seq<StashInfo>, oid: Oid) -> bool {
    exists|i: int| 0 <= i < stashes.len() && (#[trigger] stashes[i]).oid == oid
}

/// The commits shown for the first `n` that were walked: stash internals are
/// left out, and a stash entry keeps only its base as a parent, so that it is
/// not drawn as a merge.
pub open spec fn shown(
    walked: Seq<CommitRecord>,
    stashes: Seq<StashInfo>,
    parents: Seq<Vec<Oid>>,
    n: int,
) -> Seq<CommitView>
    decreases n,
{
    if n <= 0 {
        Seq::empty()
    } else {
        let before = shown(walked, stashes, parents, n - 1);
        let c = commit::described(walked[n - 1]);
        if is_stash_internal(parents, c.oid) {
            before
        } else if is_stash(stashes, c.oid) && c.parents.len() > 1 {
            before.push(CommitView { parents: c.parents.take(1), ..c })
        } else {
            before.push(c)
        }
    }
}

fn internal_oids(parents: &[Vec<Oid>]) -> (set: OidSet)
    ensures
        forall|o: Oid| #[trigger] set@.contains(o) <==> is_stash_internal(parents@, o),
{
    let mut set = OidSet::new();
    let mut i: usize = 0;
    while i < parents.len()
        invariant
            0 <= i <= parents.len(),
            forall|o: Oid| #[trigger]
                set@.contains(o) <==> exists|j: int, k: int|
                    0 <= j < i && 1 <= k < parents@[j]@.len() && #[trigger] parents@[j]@[k] == o,
        decreases parents.len() - i,
    {
        let mut m: usize = 1;
        while m < parents[i].len()
            invariant
                0 <= i < parents.len(),
                1 <= m,
                m <= parents@[i as int]@.len() || m == 1,
                forall|o: Oid| #[trigger]
                    set@.contains(o) <==> exists|j: int, k: int|
                        (0 <= j < i || (j == i && k < m)) && 1 <= k < parents@[j]@.len()
                            && #[trigger] parents@[j]@[k] == o,
            decreases parents@[i as int]@.len() - m,
        {
            let ghost before = set@;
            let oid = parents[i][m];
            set.insert(oid);
            assert forall|o: Oid| #[trigger] set@.contains(o) <==> exists|j: int, k: int|
                (0 <= j < i || (j == i && k < m + 1)) && 1 <= k < parents@[j]@.len()
                    && #[trigger] parents@[j]@[k] == o by {
                if set@.contains(o) {
                    if before.contains(o) {
                        let (j, k) = choose|j: int, k: int|
                            (0 <= j < i || (j == i && k < m)) && 1 <= k < parents@[j]@.len()
                                && #[trigger] parents@[j]@[k] == o;
                        assert(parents@[j]@[k] == o);
                    } else {
                        assert(parents@[i as int]@[m as int] == o);
                    }
                }
            }
            m = m + 1;
        }
        i = i + 1;
    }
    set
}

fn stash_oids(stashes: &[StashInfo]) -> (set: OidSet)
    ensures
        forall|o: Oid| #[trigger] set@.contains(o) <==> is_stash(stashes@, o),
{
    let mut set = OidSet::new();
    let mut i: usize = 0;
    while i < stashes.len()
        invariant
            0 <= i <= stashes.len(),
            forall|o: Oid| #[trigger]
                set@.contains(o) <==> exists|j: int| 0 <= j < i && (#[trigger] stashes@[j]).oid == o,
        decreases stashes.len() - i,
    {
        let ghost before = set@;
        set.insert(stashes[i].oid);
        assert forall|o: Oid| #[trigger] set@.contains(o) <==> exists|j: int|
            0 <= j < i + 1 && (#[trigger] stashes@[j]).oid == o by {
            if set@.contains(o) {
                if before.contains(o) {
                    let j = choose|j: int| 0 <= j < i && (#[trigger] stashes@[j]).oid == o;
                    assert(stashes@[j].oid == o);
                } else {
                    assert(stashes@[i as int].oid == o);
                }
            }
        }
        i = i + 1;
    }
    set
}

/// The commits of the graph, newest first, out of at most `max_count` that
/// were walked.
pub fn get_commits(
    max_count: usize,
    walked: &[CommitRecord],
    stashes: &[StashInfo],
    stash_parents: &[Vec<Oid>],
) -> (commits: Vec<CommitInfo>)
    ensures
        commit::commits_view(commits@) == shown(
            walked@,
            stashes@,
            stash_parents@,
            if walked@.len() < max_count {
                walked@.len() as int
            } else {
                max_count as int
            },
        ),
{
    let internal = internal_oids(stash_parents);
    let entries = stash_oids(stashes);
    let n: usize = if walked.len() < max_count {
        walked.len()
    } else {
        max_count
    };
    let mut commits: Vec<CommitInfo> = Vec::new();
    let mut i: usize = 0;
    assert(commit::commits_view(commits@) =~= Seq::empty());
    while i < n
        invariant
            0 <= i <= n,
            n <= walked.len(),
            forall|o: Oid| #[trigger] internal@.contains(o) <==> is_stash_internal(stash_parents@, o),
            forall|o: Oid| #[trigger] entries@.contains(o) <==> is_stash(stashes@, o),
            commit::commits_view(commits@) == shown(walked@, stashes@, stash_parents@, i as int),
        decreases n - i,
    {
        let oid = walked[i].oid;
        if !internal.contains(&oid) {
            let mut info = CommitInfo::from_git2_commit(&walked[i]);
            let ghost c = info@;
            if entries.contains(&oid) && info.parent_oids.len() > 1 {
                info.parent_oids.truncate(1);
                assert(info.parent_oids@ =~= c.parents.take(1));
            }
            let ghost before = commits@;
            commits.push(info);
            assert(commit::commits_view(commits@) =~= commit::commits_view(before).push(info@));
        }
        i = i + 1;
    }
    commits
}

/// A stash entry as it was read: its parents are `None` where its commit could
/// not be read.
#[derive(Debug)]
pub struct StashRecord {
    pub index: usize,
    pub message: String,
    pub oid: Oid,
    pub parents: Option<Vec<Oid>>,
}

/// A stash entry as a mathematical value: index, message, commit, base.
pub open spec fn stash_view(s: StashInfo) -> (usize, Seq<char>, Oid, Oid) {
    (s.index, s.message@, s.oid, s.base_oid)
}

/// The stash entries with a base commit.
pub open spec fn stashes_of(records: Seq<StashRecord>) -> Seq<(usize, Seq<char>, Oid, Oid)>
    decreases records.len(),
{
    if records.len() == 0 {
        Seq::empty()
    } else {
        let before = stashes_of(records.drop_last());
        let r = records.last();
        match r.parents {
            Some(p) => if p@.len() > 0 {
                before.push((r.index, r.message@, r.oid, p@[0]))
            } else {
                before
            },
            None => before,
        }
    }
}

/// The stash entries; one whose base cannot be read is left out.
pub fn get_stashes(records: &[StashRecord]) -> (stashes: Vec<StashInfo>)
    ensures
        stashes@.map_values(|s: StashInfo| stash_view(s)) == stashes_of(records@),
{
    let mut stashes: Vec<StashInfo> = Vec::new();
    let mut i: usize = 0;
    assert(records@.take(0) =~= Seq::empty());
    assert(stashes@.map_values(|s: StashInfo| stash_view(s)) =~= Seq::empty());
    while i < records.len()
        invariant
            0 <= i <= records.len(),
            stashes@.map_values(|s: StashInfo| stash_view(s)) == stashes_of(records@.take(i as int)),
        decreases records.len() - i,
    {
        assert(records@.take(i + 1).drop_last() =~= records@.take(i as int));
        assert(records@.take(i + 1).last() == records@[i as int]);
        let r = &records[i];
        if let Some(parents) = &r.parents {
            if parents.len() > 0 {
                let ghost before = stashes@;
                let s = StashInfo {
                    index: r.index,
                    message: r.message.clone(),
                    oid: r.oid,
                    base_oid: parents[0],
                };
                stashes.push(s);
                assert(stashes@.map_values(|s: StashInfo| stash_view(s)) =~= before.map_values(
                    |s: StashInfo| stash_view(s),
                ).push(stash_view(s)));
            }
        }
        i = i + 1;
    }
    assert(records@.take(i as int) =~= records@);
    stashes
}

/// A path of the working tree's status.
#[derive(Debug)]
pub struct StatusEntry {
    pub path: Vec<u8>,
    /// Changed between HEAD and the index.
    pub is_staged: bool,
    /// Changed between the index and the working tree, or untracked.
    pub has_worktree_changes: bool,
    pub is_conflicted: bool,
    /// Untracked.
    pub is_new: bool,
    /// Whether the path is a plain directory.
    pub is_directory: bool,
    /// When the file was last modified, in milliseconds since the epoch, where
    /// that can be read.
    pub modified_millis: Option<u128>,
}

/// Whether a status entry is a change to show. A conflicted path counts even
/// though it is neither staged nor changed.
pub open spec fn is_change(e: StatusEntry) -> bool {
    e.is_staged || e.has_worktree_changes || e.is_conflicted
}

/// The paths of the changes among the first `n` entries.
pub open spec fn changed_paths(entries: Seq<StatusEntry>, n: int) -> Seq<Seq<u8>>
    decreases n,
{
    if n <= 0 {
        Seq::empty()
    } else if is_change(entries[n - 1]) {
        changed_paths(entries, n - 1).push(entries[n - 1].path@)
    } else {
        changed_paths(entries, n - 1)
    }
}

/// The sum of the modification times of the changes among the first `n`
/// entries.
pub open spec fn mtime_sum(entries: Seq<StatusEntry>, n: int) -> nat
    decreases n,
{
    if n <= 0 {
        0
    } else {
        mtime_sum(entries, n - 1) + (match entries[n - 1].modified_millis {
            Some(t) => if is_change(entries[n - 1]) {
                t as nat
            } else {
                0
            },
            None => 0,
        })
    }
}

/// The changes in the working tree.
#[derive(Debug, Clone)]
pub struct WorkingTreeStatus {
    /// The changed paths in order.
    pub file_paths: Vec<Vec<u8>>,
    /// The sum of their modification times.
    pub mtime_hash: u128,
    /// Whether an untracked directory stands for the files in it. The sum of
    /// times is then not precise enough to tell whether anything changed.
    pub has_collapsed_untracked_dirs: bool,
}

proof fn lemma_mtime_sum_grows(entries: Seq<StatusEntry>, i: int, n: int)
    requires
        0 <= i <= n,
    ensures
        mtime_sum(entries, i) <= mtime_sum(entries, n),
    decreases n - i,
{
    if i < n {
        lemma_mtime_sum_grows(entries, i, n - 1);
    }
}

/// The changes in the working tree; `None` where there are none or the
/// repository is bare.
pub fn get_working_tree_status(is_bare: bool, entries: &[StatusEntry]) -> (status: Option<WorkingTreeStatus>)
    requires
        mtime_sum(entries@, entries@.len() as int) <= u128::MAX,
    ensures
        status is Some <==> !is_bare && changed_paths(entries@, entries@.len() as int).len() > 0,
        status matches Some(s) ==> {
            &&& paths::path_list(s.file_paths@) == sorting::sorted::<Vec<u8>>(
                changed_paths(entries@, entries@.len() as int),
            )
            &&& s.mtime_hash == mtime_sum(entries@, entries@.len() as int)
            &&& s.has_collapsed_untracked_dirs == exists|i: int|
                0 <= i < entries@.len() && is_change(#[trigger] entries@[i]) && entries@[i].is_new
                    && entries@[i].is_directory
        },
{
    if is_bare {
        return None;
    }
    let ghost n = entries@.len() as int;
    let mut file_paths: Vec<Vec<u8>> = Vec::new();
    let mut mtime_hash: u128 = 0;
    let mut collapsed = false;
    let mut i: usize = 0;
    assert(paths::path_list(file_paths@) =~= Seq::empty());
    while i < entries.len()
        invariant
            0 <= i <= entries.len(),
            n == entries@.len(),
            mtime_sum(entries@, n) <= u128::MAX,
            paths::path_list(file_paths@) == changed_paths(entries@, i as int),
            mtime_hash == mtime_sum(entries@, i as int),
            collapsed == exists|j: int|
                0 <= j < i && is_change(#[trigger] entries@[j]) && entries@[j].is_new
                    && entries@[j].is_directory,
        decreases entries.len() - i,
    {
        let e = &entries[i];
        proof {
            lemma_mtime_sum_grows(entries@, i + 1, n);
        }
        if e.is_staged || e.has_worktree_changes || e.is_conflicted {
            assert(is_change(entries@[i as int]));
            if e.is_new && e.is_directory {
                collapsed = true;
            }
            let ghost before = file_paths@;
            let path = paths::clone_path(e.path.as_slice());
            file_paths.push(path);
            assert(paths::path_list(file_paths@) =~= paths::path_list(before).push(e.path@));
            if let Some(t) = e.modified_millis {
                mtime_hash = mtime_hash + t;
            }
        }
        i = i + 1;
    }
    if file_paths.len() == 0 {
        assert(paths::path_list(file_paths@).len() == 0);
        None
    } else {
        assert(paths::path_list(file_paths@).len() > 0);
        assert(paths::path_list(file_paths@) =~= sorting::views(file_paths@));
        sorting::sort(&mut file_paths);
        assert(paths::path_list(file_paths@) =~= sorting::views(file_paths@));
        Some(WorkingTreeStatus { file_paths, mtime_hash, has_collapsed_untracked_dirs: collapsed })
    }
}

impl WorkingTreeStatus {
    /// How many paths changed, a collapsed directory counting as one.
    pub fn file_count(&self) -> (n: usize)
        ensures
            n == self.file_paths@.len(),
    {
        self.file_paths.len()
    }

    /// How many files changed, where that is known.
    pub fn accurate_file_count(&self) -> (n: Option<usize>)
        ensures
            n == (if self.has_collapsed_untracked_dirs {
                None
            } else {
                Some(self.file_paths@.len() as usize)
            }),
    {
        if self.has_collapsed_untracked_dirs {
            None
        } else {
            Some(self.file_paths.len())
        }
    }

    /// Whether the status tells precisely if anything changed since.
    pub fn is_precise_cache_key(&self) -> (yes: bool)
        ensures
            yes == !self.has_collapsed_untracked_dirs,
    {
        !self.has_collapsed_untracked_dirs
    }
}

/// How many paths are conflicted.
pub open spec fn conflicts(entries: Seq<StatusEntry>, n: int) -> nat
    decreases n,
{
    if n <= 0 {
        0
    } else {
        conflicts(entries, n - 1) + (if entries[n - 1].is_conflicted {
            1nat
        } else {
            0
        })
    }
}

/// How many paths are conflicted.
pub fn conflicted_count(entries: &[StatusEntry]) -> (n: usize)
    ensures
        n == conflicts(entries@, entries@.len() as int),
{
    let mut n: usize = 0;
    let mut i: usize = 0;
    while i < entries.len()
        invariant
            0 <= i <= entries.len(),
            n <= i,
            n == conflicts(entries@, i as int),
        decreases entries.len() - i,
    {
        if entries[i].is_conflicted {
            n = n + 1;
        }
        i = i + 1;
    }
    n
}

/// HEAD's commit is always among those a walk starts from.
pub proof fn law_walk_starts_from_head(branches: Seq<BranchInfo>, head: Oid, stashes: Seq<StashInfo>)
    ensures
        tips(branches, Some(head), stashes).contains(head),
{
    assert(tips(branches, Some(head), stashes)[branches.len() as int] == head);
}

/// No stash entry is shown as a merge.
pub proof fn law_stashes_have_one_parent(
    walked: Seq<CommitRecord>,
    stashes: Seq<StashInfo>,
    parents: Seq<Vec<Oid>>,
    n: int,
    k: int,
)
    requires
        0 <= n <= walked.len(),
        0 <= k < shown(walked, stashes, parents, n).len(),
        is_stash(stashes, shown(walked, stashes, parents, n)[k].oid),
    ensures
        shown(walked, stashes, parents, n)[k].parents.len() <= 1,
    decreases n,
{
    if n > 0 {
        let before = shown(walked, stashes, parents, n - 1);
        if k < before.len() {
            law_stashes_have_one_parent(walked, stashes, parents, n - 1, k);
        }
    }
}

/// Nothing from the inside of a stash entry is shown.
pub proof fn law_stash_internals_are_hidden(
    walked: Seq<CommitRecord>,
    stashes: Seq<StashInfo>,
    parents: Seq<Vec<Oid>>,
    n: int,
    k: int,
)
    requires
        0 <= n <= walked.len(),
        0 <= k < shown(walked, stashes, parents, n).len(),
    ensures
        !is_stash_internal(parents, shown(walked, stashes, parents, n)[k].oid),
    decreases n,
{
    if n > 0 {
        let before = shown(walked, stashes, parents, n - 1);
        if k < before.len() {
            law_stash_internals_are_hidden(walked, stashes, parents, n - 1, k);
        }
    }
}

/// What the paths of a list are compared by.
pub open spec fn path_ranks(list: Seq<Vec<u8>>) -> Seq<Seq<u16>> {
    list.map_values(|p: Vec<u8>| paths::path_rank(p@))
}

fn same_paths(a: &[Vec<u8>], b: &[Vec<u8>]) -> (same: bool)
    ensures
        same == (path_ranks(a@) == path_ranks(b@)),
{
    let ghost ra = path_ranks(a@);
    let ghost rb = path_ranks(b@);
    if a.len() != b.len() {
        assert(ra.len() != rb.len());
        return false;
    }
    let mut i: usize = 0;
    while i < a.len()
        invariant
            0 <= i <= a.len(),
            a.len() == b.len(),
            ra == path_ranks(a@),
            rb == path_ranks(b@),
            forall|j: int| 0 <= j < i ==> ra[j] == rb[j],
        decreases a.len() - i,
    {
        assert(ra[i as int] == paths::path_rank(a@[i as int]@));
        assert(rb[i as int] == paths::path_rank(b@[i as int]@));
        if !paths::same_path(a[i].as_slice(), b[i].as_slice()) {
            return false;
        }
        i = i + 1;
    }
    assert(ra =~= rb);
    true
}

/// Two statuses are equal when their paths are the same part by part and the
/// rest is equal.
impl PartialEq for WorkingTreeStatus {
    fn eq(&self, other: &WorkingTreeStatus) -> (same: bool) {
        same_paths(self.file_paths.as_slice(), other.file_paths.as_slice()) && self.mtime_hash
            == other.mtime_hash && self.has_collapsed_untracked_dirs == other.has_collapsed_untracked_dirs
    }
}

impl Eq for WorkingTreeStatus {

}

impl vstd::std_specs::cmp::PartialEqSpecImpl for WorkingTreeStatus {
    open spec fn obeys_eq_spec() -> bool {
        true
    }

    open spec fn eq_spec(&self, other: &WorkingTreeStatus) -> bool {
        &&& path_ranks(self.file_paths@) == path_ranks(other.file_paths@)
        &&& self.mtime_hash == other.mtime_hash
        &&& self.has_collapsed_untracked_dirs == other.has_collapsed_untracked_dirs
    }
}

/// What counts as an operation in progress: merges, reverts, cherry-picks and
/// rebases, single or in a row; nothing else does.
pub proof fn law_states_and_operations(state: RepositoryState)
    ensures
        match state {
            RepositoryState::Merge => OperationState::of(state) == OperationState::Merge,
            RepositoryState::Revert => OperationState::of(state) == OperationState::Revert,
            RepositoryState::RevertSequence => OperationState::of(state) == OperationState::Revert,
            RepositoryState::CherryPick => OperationState::of(state) == OperationState::CherryPick,
            RepositoryState::CherryPickSequence => OperationState::of(state) == OperationState::CherryPick,
            RepositoryState::Rebase => OperationState::of(state) == OperationState::Rebase,
            RepositoryState::RebaseInteractive => OperationState::of(state) == OperationState::Rebase,
            RepositoryState::RebaseMerge => OperationState::of(state) == OperationState::Rebase,
            RepositoryState::Clean => OperationState::of(state) == OperationState::Clean,
            RepositoryState::Bisect => OperationState::of(state) == OperationState::Clean,
            RepositoryState::ApplyMailbox => OperationState::of(state) == OperationState::Clean,
            RepositoryState::ApplyMailboxOrRebase => OperationState::of(state) == OperationState::Clean,
        },
{
}

/// The status bar says what is in progress.
pub proof fn law_operation_labels(op: OperationState)
    ensures
        match op {
            OperationState::Clean => op.label_text() == ""@,
            OperationState::Merge => op.label_text() == "MERGING"@,
            OperationState::Rebase => op.label_text() == "REBASING"@,
            OperationState::CherryPick => op.label_text() == "CHERRY-PICKING"@,
            OperationState::Revert => op.label_text() == "REVERTING"@,
        },
{
}

/// A walk starts from every visible branch, from HEAD and from every stash entry,
/// and from nothing else.
pub proof fn law_walk_starts(branches: Seq<BranchInfo>, head: Option<Oid>, stashes: Seq<StashInfo>, oid: Oid)
    ensures
        tips(branches, head, stashes).contains(oid) <==> {
            ||| exists|i: int| 0 <= i < branches.len() && (#[trigger] branches[i]).tip_oid == oid
            ||| head == Some(oid)
            ||| exists|i: int| 0 <= i < stashes.len() && (#[trigger] stashes[i]).oid == oid
        },
{
    let all = tips(branches, head, stashes);
    let h: int = if head is Some {
        1
    } else {
        0
    };
    if exists|i: int| 0 <= i < branches.len() && (#[trigger] branches[i]).tip_oid == oid {
        let i = choose|i: int| 0 <= i < branches.len() && (#[trigger] branches[i]).tip_oid == oid;
        assert(all[i] == oid);
    }
    if head == Some(oid) {
        assert(all[branches.len() as int] == oid);
    }
    if exists|i: int| 0 <= i < stashes.len() && (#[trigger] stashes[i]).oid == oid {
        let i = choose|i: int| 0 <= i < stashes.len() && (#[trigger] stashes[i]).oid == oid;
        assert(all[branches.len() + h + i] == oid);
    }
    if all.contains(oid) {
        let k = choose|k: int| 0 <= k < all.len() && all[k] == oid;
        if k < branches.len() {
            assert(branches[k].tip_oid == oid);
        } else if k < branches.len() + h {
        } else {
            assert(stashes[k - branches.len() - h].oid == oid);
        }
    }
}

/// Each commit that was walked is shown once, in its order, with its own id and
/// parents. Only the second and later parents of stash entries are left out, and
/// only a stash entry shows fewer parents than it has: its first.
pub proof fn law_walked_commits_are_shown(
    walked: Seq<CommitRecord>,
    stashes: Seq<StashInfo>,
    parents: Seq<Vec<Oid>>,
    n: int,
)
    requires
        0 <= n < walked.len(),
    ensures
        ({
            let oid = walked[n].oid;
            let before = shown(walked, stashes, parents, n);
            let after = shown(walked, stashes, parents, n + 1);
            let inside = exists|i: int, k: int|
                0 <= i < parents.len() && 1 <= k < parents[i]@.len() && #[trigger] parents[i]@[k] == oid;
            let entry = exists|i: int| 0 <= i < stashes.len() && (#[trigger] stashes[i]).oid == oid;
            &&& shown(walked, stashes, parents, 0).len() == 0
            &&& inside ==> after == before
            &&& !inside ==> {
                &&& after.len() == before.len() + 1
                &&& after.drop_last() == before
                &&& after.last().oid == oid
                &&& after.last().timestamp == walked[n].seconds
                &&& !entry || walked[n].parents@.len() <= 1 ==> after.last().parents == walked[n].parents@
                &&& entry && walked[n].parents@.len() > 1 ==> after.last().parents == seq![walked[n].parents@[0]]
            }
        }),
{
    let before = shown(walked, stashes, parents, n);
    let after = shown(walked, stashes, parents, n + 1);
    if !is_stash_internal(parents, walked[n].oid) {
        assert(after.drop_last() =~= before);
        if walked[n].parents@.len() > 1 {
            assert(walked[n].parents@.take(1) =~= seq![walked[n].parents@[0]]);
        }
    }
}

/// A stash entry is listed with its first parent as its base; without a parent, or
/// unread, it is not.
pub proof fn law_stashes_and_their_bases(records: Seq<StashRecord>, r: StashRecord)
    ensures
        stashes_of(Seq::<StashRecord>::empty()).len() == 0,
        r.parents is Some && (r.parents->0)@.len() > 0 ==> stashes_of(records.push(r)) == stashes_of(records).push(
            (r.index, r.message@, r.oid, (r.parents->0)@[0]),
        ),
        r.parents is None || (r.parents->0)@.len() == 0 ==> stashes_of(records.push(r)) == stashes_of(records),
{
    assert(records.push(r).drop_last() =~= records);
}

/// A path counts as changed exactly if it is staged, changed in the working tree or
/// conflicted, and the modification times of exactly these paths are summed.
pub proof fn law_changes_of_the_working_tree(entries: Seq<StatusEntry>, n: int)
    requires
        0 <= n < entries.len(),
    ensures
        ({
            let e = entries[n];
            let counts = e.is_staged || e.has_worktree_changes || e.is_conflicted;
            &&& changed_paths(entries, 0).len() == 0
            &&& mtime_sum(entries, 0) == 0
            &&& counts ==> changed_paths(entries, n + 1) == changed_paths(entries, n).push(e.path@)
            &&& !counts ==> changed_paths(entries, n + 1) == changed_paths(entries, n)
            &&& counts && e.modified_millis is Some ==> mtime_sum(entries, n + 1) == mtime_sum(entries, n)
                + e.modified_millis->0
            &&& !counts || e.modified_millis is None ==> mtime_sum(entries, n + 1) == mtime_sum(entries, n)
        }),
{
}

/// Every conflicted path counts once.
pub proof fn law_conflicts_are_counted(entries: Seq<StatusEntry>, n: int)
    requires
        0 <= n < entries.len(),
    ensures
        conflicts(entries, 0) == 0,
        entries[n].is_conflicted ==> conflicts(entries, n + 1) == conflicts(entries, n) + 1,
        !entries[n].is_conflicted ==> conflicts(entries, n + 1) == conflicts(entries, n),
{
}

/// Two states of the working tree are the same if they list the same paths in the
/// same order, with the same sum of times and the same folded directories.
pub proof fn law_equal_states_of_the_working_tree(a: WorkingTreeStatus, b: WorkingTreeStatus)
    ensures
        vstd::std_specs::cmp::PartialEqSpec::eq_spec(&a, &b) <==> {
            &&& a.file_paths@.len() == b.file_paths@.len()
            &&& forall|i: int|
                0 <= i < a.file_paths@.len() ==> paths::path_rank(#[trigger] a.file_paths@[i]@)
                    == paths::path_rank(b.file_paths@[i]@)
            &&& a.mtime_hash == b.mtime_hash
            &&& a.has_collapsed_untracked_dirs == b.has_collapsed_untracked_dirs
        },
{
    let x = path_ranks(a.file_paths@);
    let y = path_ranks(b.file_paths@);
    assert(x.len() == a.file_paths@.len() && y.len() == b.file_paths@.len());
    if x == y {
        assert forall|i: int| 0 <= i < a.file_paths@.len() implies paths::path_rank(
            #[trigger] a.file_paths@[i]@,
        ) == paths::path_rank(b.file_paths@[i]@) by {
            assert(x[i] == paths::path_rank(a.file_paths@[i]@));
            assert(y[i] == paths::path_rank(b.file_paths@[i]@));
        }
    }
    if a.file_paths@.len() == b.file_paths@.len() && (forall|i: int|
        0 <= i < a.file_paths@.len() ==> paths::path_rank(#[trigger] a.file_paths@[i]@) == paths::path_rank(
            b.file_paths@[i]@,
        )) {
        assert(x =~= y);
    }
}

} // verus!
