//! Changed files of commits and of the working tree.
//!
//! The deltas of a diff and the status entries of the working tree are read
//! beforehand into [`DeltaRecord`]s and [`StatusRecord`]s; what is shown of them
//! is decided here.
pub mod laws;

use crate::paths;
use crate::paths::PathSet;
use crate::search;
use crate::text;
use vstd::prelude::*;
use vstd::string::*;

verus! {

/// Maximum number of files to display.
pub const MAX_FILES_TO_DISPLAY: usize = 50;

/// Maximum file size (bytes) to read for line counting; larger files are
/// treated as binary.
pub const MAX_TEXT_FILE_SIZE: u64 = 10 * 1024 * 1024;

/// File change kind.
#[derive(Debug, Clone, Copy, PartialEq, Eq, Structural)]
pub enum FileChangeKind {
    Added,
    Modified,
    Deleted,
    Renamed,
    Copied,
}

/// Per-file diff info.
#[derive(Debug, Clone)]
pub struct FileDiffInfo {
    pub path: Vec<u8>,
    pub kind: FileChangeKind,
    pub is_binary: bool,
    pub insertions: usize,
    pub deletions: usize,
}

/// A changed file as a mathematical value.
#[verifier::ext_equal]
pub struct FileView {
    pub path: Seq<u8>,
    pub kind: FileChangeKind,
    pub is_binary: bool,
    pub insertions: usize,
    pub deletions: usize,
}

impl View for FileDiffInfo {
    type V = FileView;

    open spec fn view(&self) -> FileView {
        FileView {
            path: self.path@,
            kind: self.kind,
            is_binary: self.is_binary,
            insertions: self.insertions,
            deletions: self.deletions,
        }
    }
}

/// A list of changed files as mathematical values.
pub open spec fn files_view(files: Seq<FileDiffInfo>) -> Seq<FileView> {
    files.map_values(|f: FileDiffInfo| f@)
}

/// Diff info of a commit or of the working tree.
#[derive(Debug, Clone)]
pub struct CommitDiffInfo {
    /// Changed files (up to [`MAX_FILES_TO_DISPLAY`]).
    pub files: Vec<FileDiffInfo>,
    pub total_insertions: usize,
    pub total_deletions: usize,
    pub total_files: usize,
    pub truncated: bool,
}

impl Default for CommitDiffInfo {
    fn default() -> (info: CommitDiffInfo)
        ensures
            files_view(info.files@) == Seq::<FileView>::empty(),
            info.total_insertions == 0,
            info.total_deletions == 0,
            info.total_files == 0,
            !info.truncated,
    {
        let info = CommitDiffInfo {
            files: Vec::new(),
            total_insertions: 0,
            total_deletions: 0,
            total_files: 0,
            truncated: false,
        };
        assert(files_view(info.files@) =~= Seq::<FileView>::empty());
        info
    }
}

/// What a delta of a diff is about.
#[derive(Debug, Clone, Copy, PartialEq, Eq, Structural)]
pub enum DeltaStatus {
    Unmodified,
    Added,
    Deleted,
    Modified,
    Renamed,
    Copied,
    Ignored,
    Untracked,
    Typechange,
    Unreadable,
    Conflicted,
}

/// A delta of a diff.
#[derive(Debug)]
pub struct DeltaRecord {
    pub status: DeltaStatus,
    pub old_path: Option<Vec<u8>>,
    pub new_path: Option<Vec<u8>>,
    pub is_binary: bool,
    /// Inserted and deleted lines of its patch; zeros when it has none.
    pub insertions: usize,
    pub deletions: usize,
}

/// A delta as a mathematical value.
pub struct DeltaView {
    pub status: DeltaStatus,
    pub old_path: Option<Seq<u8>>,
    pub new_path: Option<Seq<u8>>,
    pub is_binary: bool,
    pub insertions: usize,
    pub deletions: usize,
}

pub open spec fn opt_path(p: Option<Vec<u8>>) -> Option<Seq<u8>> {
    match p {
        Some(p) => Some(p@),
        None => None,
    }
}

impl View for DeltaRecord {
    type V = DeltaView;

    open spec fn view(&self) -> DeltaView {
        DeltaView {
            status: self.status,
            old_path: opt_path(self.old_path),
            new_path: opt_path(self.new_path),
            is_binary: self.is_binary,
            insertions: self.insertions,
            deletions: self.deletions,
        }
    }
}

/// A list of deltas as mathematical values.
pub open spec fn deltas_view(deltas: Seq<DeltaRecord>) -> Seq<DeltaView> {
    deltas.map_values(|d: DeltaRecord| d@)
}

/// The kind of change that a delta shows; none for one that shows nothing.
/// Untracked files are shown as added.
pub open spec fn shown_kind(status: DeltaStatus) -> Option<FileChangeKind> {
    match status {
        DeltaStatus::Added | DeltaStatus::Untracked => Some(FileChangeKind::Added),
        DeltaStatus::Deleted => Some(FileChangeKind::Deleted),
        DeltaStatus::Modified | DeltaStatus::Typechange | DeltaStatus::Conflicted => Some(
            FileChangeKind::Modified,
        ),
        DeltaStatus::Renamed => Some(FileChangeKind::Renamed),
        DeltaStatus::Copied => Some(FileChangeKind::Copied),
        DeltaStatus::Unmodified | DeltaStatus::Ignored | DeltaStatus::Unreadable => None,
    }
}

/// The changed file that a delta shows: under its old path if deleted, else
/// under its new one; none without that path. Lines of binary files do not
/// count.
pub open spec fn shown_file(d: DeltaView) -> Option<FileView> {
    match shown_kind(d.status) {
        Some(kind) => {
            let path = if kind == FileChangeKind::Deleted {
                d.old_path
            } else {
                d.new_path
            };
            match path {
                Some(path) => Some(
                    FileView {
                        path,
                        kind,
                        is_binary: d.is_binary,
                        insertions: if d.is_binary {
                            0
                        } else {
                            d.insertions
                        },
                        deletions: if d.is_binary {
                            0
                        } else {
                            d.deletions
                        },
                    },
                ),
                None => None,
            }
        },
        None => None,
    }
}

/// The files that the first `n` deltas show.
pub open spec fn shown_files(ds: Seq<DeltaView>, n: nat) -> Seq<FileView>
    decreases n,
{
    if n == 0 {
        Seq::empty()
    } else {
        let rest = shown_files(ds, (n - 1) as nat);
        match shown_file(ds[n - 1]) {
            Some(f) => rest.push(f),
            None => rest,
        }
    }
}

/// The paths of some files, each by its rank.
pub open spec fn paths_of(files: Seq<FileView>) -> Set<Seq<u16>>
    decreases files.len(),
{
    if files.len() == 0 {
        Set::empty()
    } else {
        paths_of(files.drop_last()).insert(paths::path_rank(files.last().path))
    }
}

/// Intermediate scan result: the files to show, every changed path, and the
/// paths whose lines are still to be counted.
#[derive(Debug)]
pub struct DiffScan {
    pub files: Vec<FileDiffInfo>,
    pub all_paths: PathSet,
    pub deferred_paths: PathSet,
}

/// A scan as a mathematical value.
#[verifier::ext_equal]
pub struct ScanView {
    pub files: Seq<FileView>,
    pub all: Set<Seq<u16>>,
    pub deferred: Set<Seq<u16>>,
}

impl View for DiffScan {
    type V = ScanView;

    open spec fn view(&self) -> ScanView {
        ScanView {
            files: files_view(self.files@),
            all: self.all_paths@,
            deferred: self.deferred_paths@,
        }
    }
}

/// The inserted lines of some files.
pub open spec fn inserted(files: Seq<FileView>) -> int
    decreases files.len(),
{
    if files.len() == 0 {
        0
    } else {
        inserted(files.drop_last()) + files.last().insertions
    }
}

/// The deleted lines of some files.
pub open spec fn deleted(files: Seq<FileView>) -> int
    decreases files.len(),
{
    if files.len() == 0 {
        0
    } else {
        deleted(files.drop_last()) + files.last().deletions
    }
}

proof fn lemma_sums_monotone(files: Seq<FileView>, i: int)
    requires
        0 <= i <= files.len(),
    ensures
        0 <= inserted(files.take(i)) <= inserted(files),
        0 <= deleted(files.take(i)) <= deleted(files),
    decreases files.len(),
{
    if i < files.len() {
        lemma_sums_monotone(files.drop_last(), i);
        assert(files.drop_last().take(i) =~= files.take(i));
    } else {
        assert(files.take(i) =~= files);
        if files.len() > 0 {
            lemma_sums_monotone(files.drop_last(), files.len() - 1);
            assert(files.drop_last().take(files.len() - 1) =~= files.drop_last());
        }
    }
}

impl DiffScan {
    /// Inserted and deleted lines of all files.
    pub fn line_totals(&self) -> (totals: (usize, usize))
        requires
            inserted(self@.files) <= usize::MAX,
            deleted(self@.files) <= usize::MAX,
        ensures
            totals.0 == inserted(self@.files),
            totals.1 == deleted(self@.files),
    {
        let ghost fs = self@.files;
        let mut insertions: usize = 0;
        let mut deletions: usize = 0;
        let mut i: usize = 0;
        assert(fs.take(0) =~= Seq::empty());
        while i < self.files.len()
            invariant
                0 <= i <= self.files.len(),
                fs == self@.files,
                inserted(fs) <= usize::MAX,
                deleted(fs) <= usize::MAX,
                insertions == inserted(fs.take(i as int)),
                deletions == deleted(fs.take(i as int)),
            decreases self.files.len() - i,
        {
            let f = &self.files[i];
            proof {
                assert(fs[i as int] == f@);
                assert(fs.take(i + 1).drop_last() =~= fs.take(i as int));
                lemma_sums_monotone(fs, i + 1);
            }
            insertions = insertions + f.insertions;
            deletions = deletions + f.deletions;
            i = i + 1;
        }
        assert(fs.take(i as int) =~= fs);
        (insertions, deletions)
    }
}

/// How many of the bytes are line feeds.
pub open spec fn newlines(bytes: Seq<u8>) -> nat
    decreases bytes.len(),
{
    if bytes.len() == 0 {
        0
    } else {
        newlines(bytes.drop_last()) + (if bytes.last() == 10 {
            1nat
        } else {
            0nat
        })
    }
}

/// How many lines the bytes hold: one for each line feed, and one more for an
/// unfinished last line.
pub open spec fn line_count(bytes: Seq<u8>) -> nat {
    newlines(bytes) + (if bytes.len() > 0 && bytes.last() != 10 {
        1nat
    } else {
        0nat
    })
}

proof fn lemma_newlines_bound(bytes: Seq<u8>)
    ensures
        newlines(bytes) <= bytes.len(),
        bytes.len() > 0 && bytes.last() != 10 ==> newlines(bytes) < bytes.len(),
    decreases bytes.len(),
{
    if bytes.len() > 0 {
        lemma_newlines_bound(bytes.drop_last());
    }
}

/// The line statistics of a path: whether it is binary, its insertions and its
/// deletions.
#[derive(Debug, Clone, Copy, PartialEq, Eq, Structural)]
pub struct LineStats {
    pub is_binary: bool,
    pub insertions: usize,
    pub deletions: usize,
}

/// An entry of the working tree's status.
#[derive(Debug)]
pub struct StatusRecord {
    pub path: Vec<u8>,
    /// Whether the entry is new in the working tree.
    pub is_new: bool,
    /// Whether the path is a plain directory.
    pub is_directory: bool,
}

/// Whether a status entry is an untracked file.
pub open spec fn is_untracked_file(s: StatusRecord) -> bool {
    s.is_new && !s.is_directory
}

/// The paths of the untracked files among the first `n` entries.
pub open spec fn untracked_paths(ss: Seq<StatusRecord>, n: nat) -> Seq<Seq<u8>>
    decreases n,
{
    if n == 0 {
        Seq::empty()
    } else {
        let rest = untracked_paths(ss, (n - 1) as nat);
        if is_untracked_file(ss[n - 1]) {
            rest.push(ss[n - 1].path@)
        } else {
            rest
        }
    }
}

/// An untracked file before its lines are counted.
pub open spec fn uncounted(path: Seq<u8>) -> FileView {
    FileView { path, kind: FileChangeKind::Added, is_binary: false, insertions: 0, deletions: 0 }
}

/// What some paths are compared by.
pub open spec fn ranks(list: Seq<Seq<u8>>) -> Seq<Seq<u16>> {
    list.map_values(|p: Seq<u8>| paths::path_rank(p))
}

/// The scan of the untracked files: all of them count, the first `limit` are
/// shown and their lines are counted later.
pub open spec fn untracked_scan(paths: Seq<Seq<u8>>, limit: nat) -> ScanView {
    let shown = if paths.len() <= limit {
        paths
    } else {
        paths.take(limit as int)
    };
    ScanView {
        files: shown.map_values(|p: Seq<u8>| uncounted(p)),
        all: ranks(paths).to_set(),
        deferred: ranks(shown).to_set(),
    }
}

proof fn lemma_ranks_push(list: Seq<Seq<u8>>, path: Seq<u8>)
    ensures
        ranks(list.push(path)).to_set() == ranks(list).to_set().insert(paths::path_rank(path)),
{
    let s = ranks(list);
    let rank = paths::path_rank(path);
    assert(ranks(list.push(path)) =~= s.push(rank));
    assert forall|x: Seq<u16>| s.push(rank).to_set().contains(x) == s.to_set().insert(
        rank,
    ).contains(x) by {
        if s.contains(x) {
            let i = choose|i: int| 0 <= i < s.len() && s[i] == x;
            assert(s.push(rank)[i] == x);
        }
        assert(s.push(rank)[s.len() as int] == rank);
    }
    assert(s.push(rank).to_set() =~= s.to_set().insert(rank));
}

/// File `i` is the one with `path`.
pub open spec fn file_index(files: Seq<FileView>, path: Seq<u8>) -> Option<int> {
    search::first_such(files.len() as int, |i: int| paths::path_rank(files[i].path) == paths::path_rank(path))
}

/// Two changes of one path as one: a file deleted and created anew is modified;
/// a later deletion wins unless the file was new; whether it is binary goes by
/// the later change that leaves a file.
pub open spec fn combined(was: FileView, f: FileView) -> FileView {
    let recreated = was.kind == FileChangeKind::Deleted && f.kind == FileChangeKind::Added;
    FileView {
        path: was.path,
        kind: if recreated {
            FileChangeKind::Modified
        } else if f.kind == FileChangeKind::Deleted && was.kind != FileChangeKind::Added {
            FileChangeKind::Deleted
        } else {
            was.kind
        },
        is_binary: if recreated || f.kind != FileChangeKind::Deleted {
            f.is_binary
        } else {
            was.is_binary || f.is_binary
        },
        insertions: (was.insertions + f.insertions) as usize,
        deletions: (was.deletions + f.deletions) as usize,
    }
}

/// The files after one more change, and the paths that were deleted and created
/// anew.
pub open spec fn merge_file(files: Seq<FileView>, anew: Set<Seq<u16>>, f: FileView) -> (
    Seq<FileView>,
    Set<Seq<u16>>,
) {
    match file_index(files, f.path) {
        Some(i) => (
            files.update(i, combined(files[i], f)),
            if files[i].kind == FileChangeKind::Deleted && f.kind == FileChangeKind::Added {
                anew.insert(paths::path_rank(f.path))
            } else {
                anew
            },
        ),
        None => (files.push(f), anew),
    }
}

/// The files after the first `n` of `more`.
pub open spec fn merge_files(
    files: Seq<FileView>,
    anew: Set<Seq<u16>>,
    more: Seq<FileView>,
    n: nat,
) -> (Seq<FileView>, Set<Seq<u16>>)
    decreases n,
{
    if n == 0 {
        (files, anew)
    } else {
        let (fs, a) = merge_files(files, anew, more, (n - 1) as nat);
        merge_file(fs, a, more[n - 1])
    }
}

/// The staged, the unstaged and the untracked changes as one scan, with the
/// paths that were deleted and created anew.
pub open spec fn merged_scan(a: ScanView, b: ScanView, c: ScanView) -> (ScanView, Set<Seq<u16>>) {
    let (f1, s1) = merge_files(Seq::empty(), Set::empty(), a.files, a.files.len());
    let (f2, s2) = merge_files(f1, s1, b.files, b.files.len());
    let (f3, s3) = merge_files(f2, s2, c.files, c.files.len());
    (
        ScanView {
            files: f3,
            all: a.all.union(b.all).union(c.all),
            deferred: a.deferred.union(b.deferred).union(c.deferred),
        },
        s3,
    )
}

/// Whether a file's lines have yet to be counted from disk: an added text file
/// without statistics that is not counted later anyway.
pub open spec fn lines_missing(f: FileView, deferred: Set<Seq<u16>>) -> bool {
    !f.is_binary && f.kind == FileChangeKind::Added && f.insertions == 0 && !deferred.contains(
        paths::path_rank(f.path),
    )
}

/// The last of the deltas that shows `path`.
pub open spec fn delta_index(ds: Seq<DeltaView>, path: Seq<u8>, n: nat) -> Option<int>
    decreases n,
{
    if n == 0 {
        None
    } else if shown_file(ds[n - 1]) is Some && paths::path_rank(
        (shown_file(ds[n - 1])->0).path,
    ) == paths::path_rank(path) {
        Some(n - 1)
    } else {
        delta_index(ds, path, (n - 1) as nat)
    }
}

/// The line statistics that the deltas give for `path`.
pub open spec fn path_stats(ds: Seq<DeltaView>, path: Seq<u8>) -> Option<LineStats> {
    match delta_index(ds, path, ds.len()) {
        Some(i) => {
            let f = shown_file(ds[i])->0;
            Some(
                LineStats {
                    is_binary: f.is_binary,
                    insertions: f.insertions,
                    deletions: f.deletions,
                },
            )
        },
        None => None,
    }
}

/// What is known of a path that was deleted and created anew: whether it was
/// binary in HEAD (`None` if it was not there), whether it is now, and how many
/// lines it has.
#[derive(Debug)]
pub struct Recreated {
    pub path: Vec<u8>,
    pub was_binary: Option<bool>,
    pub is_binary: bool,
    pub lines: usize,
}

/// A recreated path as a mathematical value.
pub struct RecreatedView {
    pub path: Seq<u8>,
    pub was_binary: Option<bool>,
    pub is_binary: bool,
    pub lines: usize,
}

impl View for Recreated {
    type V = RecreatedView;

    open spec fn view(&self) -> RecreatedView {
        RecreatedView {
            path: self.path@,
            was_binary: self.was_binary,
            is_binary: self.is_binary,
            lines: self.lines,
        }
    }
}

/// The statistics of a recreated path. Where the old or the new file is binary,
/// the diff's own figures mean nothing: only a new text counts, line by line.
pub open spec fn recreated_stats(
    was_binary: Option<bool>,
    is_binary: bool,
    lines: usize,
    stats: LineStats,
) -> LineStats {
    match was_binary {
        None => stats,
        Some(was) => if was && !is_binary {
            LineStats { is_binary: false, insertions: lines, deletions: 0 }
        } else if is_binary {
            LineStats { is_binary: true, insertions: 0, deletions: 0 }
        } else {
            stats
        },
    }
}

/// What is known of `path` among the recreated ones.
pub open spec fn recreated_at(rs: Seq<RecreatedView>, path: Seq<u8>) -> Option<int> {
    search::first_such(rs.len() as int, |i: int| paths::path_rank(rs[i].path) == paths::path_rank(path))
}

/// What the refresh of file statistics reads.
pub struct RefreshView {
    /// The diff from HEAD to the working tree.
    pub worktree: Seq<DeltaView>,
    /// The diff from HEAD to the index.
    pub staged: Seq<DeltaView>,
    /// Paths changed both in the index and in the working tree.
    pub both: Set<Seq<u16>>,
    /// Paths deleted and created anew.
    pub anew: Set<Seq<u16>>,
    pub deferred: Set<Seq<u16>>,
    pub recreated: Seq<RecreatedView>,
}

/// Whether a file's statistics have to be taken from the working tree.
pub open spec fn needs_refresh(r: RefreshView, f: FileView) -> bool {
    let rank = paths::path_rank(f.path);
    f.kind != FileChangeKind::Deleted && (r.anew.contains(rank) || r.deferred.contains(rank)
        || r.both.contains(rank) || (!f.is_binary && f.insertions == 0 && f.deletions == 0))
}

/// The working-tree statistics of a file, as they are shown.
pub open spec fn shown_stats(r: RefreshView, path: Seq<u8>, stats: LineStats) -> LineStats {
    if r.anew.contains(paths::path_rank(path)) {
        match recreated_at(r.recreated, path) {
            Some(i) => recreated_stats(
                r.recreated[i].was_binary,
                r.recreated[i].is_binary,
                r.recreated[i].lines,
                stats,
            ),
            None => stats,
        }
    } else {
        stats
    }
}

/// No statistics.
pub open spec fn no_stats() -> LineStats {
    LineStats { is_binary: false, insertions: 0, deletions: 0 }
}

/// A file with its statistics refreshed: those of the working tree, or, where
/// the working tree equals HEAD, those of the index.
pub open spec fn refreshed(r: RefreshView, f: FileView) -> FileView {
    if needs_refresh(r, f) {
        let stats = match path_stats(r.worktree, f.path) {
            Some(w) => shown_stats(r, f.path, w),
            None => match path_stats(r.staged, f.path) {
                Some(s) => s,
                None => no_stats(),
            },
        };
        FileView {
            is_binary: stats.is_binary,
            insertions: stats.insertions,
            deletions: stats.deletions,
            ..f
        }
    } else {
        f
    }
}

/// How a refreshed file changes the totals of the working-tree diff, which
/// already count its working-tree statistics.
pub open spec fn correction(r: RefreshView, f: FileView) -> (int, int) {
    if needs_refresh(r, f) {
        match path_stats(r.worktree, f.path) {
            Some(w) => {
                let s = shown_stats(r, f.path, w);
                (s.insertions - w.insertions, s.deletions - w.deletions)
            },
            None => match path_stats(r.staged, f.path) {
                Some(s) => (s.insertions as int, s.deletions as int),
                None => (0, 0),
            },
        }
    } else {
        (0, 0)
    }
}

/// The totals after the first `n` files.
pub open spec fn running(r: RefreshView, files: Seq<FileView>, totals: (int, int), n: nat) -> (
    int,
    int,
)
    decreases n,
{
    if n == 0 {
        totals
    } else {
        let t = running(r, files, totals, (n - 1) as nat);
        let c = correction(r, files[n - 1]);
        (t.0 + c.0, t.1 + c.1)
    }
}

/// The totals stay within the machine's range at every file.
pub open spec fn totals_fit(r: RefreshView, files: Seq<FileView>, totals: (int, int)) -> bool {
    forall|n: nat|
        n <= files.len() ==> 0 <= (#[trigger] running(r, files, totals, n)).0 <= usize::MAX && 0
            <= running(r, files, totals, n).1 <= usize::MAX
}

/// The info shown of a scan: its first files, its totals and whether files are
/// left out.
pub open spec fn info_of(scan: ScanView, totals: (int, int), info: CommitDiffInfo) -> bool {
    &&& files_view(info.files@) == (if scan.files.len() <= MAX_FILES_TO_DISPLAY {
        scan.files
    } else {
        scan.files.take(MAX_FILES_TO_DISPLAY as int)
    })
    &&& info.total_insertions == totals.0
    &&& info.total_deletions == totals.1
    &&& info.total_files == scan.all.len()
    &&& info.truncated == (scan.all.len() > MAX_FILES_TO_DISPLAY)
}

/// How to learn how many lines a file has.
#[derive(Debug, Clone, Copy, PartialEq, Eq, Structural)]
pub enum LineCountStep {
    /// It is known; `None` for a file that counts as binary.
    Done(Option<usize>),
    /// Count the lines of the link's target path.
    ReadLink,
    /// Read the file and count its lines.
    ReadFile,
}

/// What the file system says of a path.
#[derive(Debug, Clone, Copy, PartialEq, Eq, Structural)]
pub enum FileMeta {
    Missing,
    Denied,
    /// It could not be examined for some other reason.
    Unknown,
    Directory,
    Symlink,
    Regular(u64),
    Special,
}

/// A tri-state attribute of a path.
#[derive(Debug, Clone, Copy, PartialEq, Eq, Structural)]
pub enum AttrState {
    True,
    False,
    Other,
}

impl CommitDiffInfo {
    /// The changed file that a delta shows.
    pub fn diff_entry(delta: &DeltaRecord) -> (file: Option<FileDiffInfo>)
        ensures
            file is Some <==> shown_file(delta@) is Some,
            file is Some ==> (file->0)@ == shown_file(delta@)->0,
    {
        let kind = match delta.status {
            DeltaStatus::Added | DeltaStatus::Untracked => FileChangeKind::Added,
            DeltaStatus::Deleted => FileChangeKind::Deleted,
            DeltaStatus::Modified
            | DeltaStatus::Typechange
            | DeltaStatus::Conflicted => FileChangeKind::Modified,
            DeltaStatus::Renamed => FileChangeKind::Renamed,
            DeltaStatus::Copied => FileChangeKind::Copied,
            DeltaStatus::Unmodified | DeltaStatus::Ignored | DeltaStatus::Unreadable => {
                return None;
            },
        };
        let path = if kind == FileChangeKind::Deleted {
            &delta.old_path
        } else {
            &delta.new_path
        };
        match path {
            Some(p) => Some(
                FileDiffInfo {
                    path: paths::clone_path(p.as_slice()),
                    kind,
                    is_binary: delta.is_binary,
                    insertions: if delta.is_binary {
                        0
                    } else {
                        delta.insertions
                    },
                    deletions: if delta.is_binary {
                        0
                    } else {
                        delta.deletions
                    },
                },
            ),
            None => None,
        }
    }

    /// The scan of a diff.
    pub fn scan_diff(deltas: &[DeltaRecord]) -> (scan: DiffScan)
        ensures
            scan@.files == shown_files(deltas_view(deltas@), deltas@.len()),
            scan@.all == paths_of(scan@.files),
            scan@.deferred == Set::<Seq<u16>>::empty(),
    {
        let ghost ds = deltas_view(deltas@);
        let mut files: Vec<FileDiffInfo> = Vec::new();
        let mut all_paths = PathSet::new();
        let mut n: usize = 0;
        assert(files_view(files@) =~= Seq::empty());
        while n < deltas.len()
            invariant
                0 <= n <= deltas.len(),
                ds == deltas_view(deltas@),
                files_view(files@) == shown_files(ds, n as nat),
                all_paths@ == paths_of(files_view(files@)),
            decreases deltas.len() - n,
        {
            assert(ds[n as int] == deltas@[n as int]@);
            if let Some(file) = CommitDiffInfo::diff_entry(&deltas[n]) {
                let ghost before = files_view(files@);
                all_paths.insert(file.path.as_slice());
                let ghost f = file@;
                files.push(file);
                assert(files_view(files@) =~= before.push(f));
                assert(before.push(f).drop_last() =~= before);
            }
            n = n + 1;
        }
        DiffScan { files, all_paths, deferred_paths: PathSet::new() }
    }

    /// The scan of the untracked files, of which `display_limit` are shown.
    pub fn scan_untracked_worktree(entries: &[StatusRecord], display_limit: usize) -> (scan:
        DiffScan)
        ensures
            scan@ == untracked_scan(
                untracked_paths(entries@, entries@.len()),
                display_limit as nat,
            ),
    {
        let mut files: Vec<FileDiffInfo> = Vec::new();
        let mut all_paths = PathSet::new();
        let mut deferred_paths = PathSet::new();
        let mut n: usize = 0;
        proof {
            let none = Seq::<Seq<u8>>::empty();
            assert(files_view(files@) =~= untracked_scan(none, display_limit as nat).files);
            assert(ranks(none).to_set() =~= Set::empty());
        }
        while n < entries.len()
            invariant
                0 <= n <= entries.len(),
                files_view(files@) == untracked_scan(
                    untracked_paths(entries@, n as nat),
                    display_limit as nat,
                ).files,
                all_paths@ == untracked_scan(
                    untracked_paths(entries@, n as nat),
                    display_limit as nat,
                ).all,
                deferred_paths@ == untracked_scan(
                    untracked_paths(entries@, n as nat),
                    display_limit as nat,
                ).deferred,
            decreases entries.len() - n,
        {
            let entry = &entries[n];
            let ghost done = untracked_paths(entries@, n as nat);
            if entry.is_new && !entry.is_directory {
                let ghost path = entry.path@;
                proof {
                    lemma_ranks_push(done, path);
                }
                all_paths.insert(entry.path.as_slice());
                if files.len() < display_limit {
                    deferred_paths.insert(entry.path.as_slice());
                    let ghost before = files_view(files@);
                    files.push(
                        FileDiffInfo {
                            path: paths::clone_path(entry.path.as_slice()),
                            kind: FileChangeKind::Added,
                            is_binary: false,
                            insertions: 0,
                            deletions: 0,
                        },
                    );
                    assert(files_view(files@) =~= before.push(uncounted(path)));
                    assert(done.push(path).map_values(|p: Seq<u8>| uncounted(p)) =~= before.push(
                        uncounted(path),
                    ));
                } else {
                    assert(files@.len() == files_view(files@).len());
                    assert(done.len() >= display_limit);
                    assert(done.push(path).take(display_limit as int) =~= (if done.len()
                        <= display_limit {
                        done
                    } else {
                        done.take(display_limit as int)
                    }));
                }
            }
            n = n + 1;
        }
        let scan = DiffScan { files, all_paths, deferred_paths };
        assert(scan@ =~= untracked_scan(
            untracked_paths(entries@, entries@.len()),
            display_limit as nat,
        ));
        scan
    }

    /// Whether a path is binary by its attributes: `binary` is set, or `diff` is
    /// unset.
    pub fn path_is_binary_by_attributes(binary: AttrState, diff: AttrState) -> (yes: bool)
        ensures
            yes == (binary == AttrState::True || diff == AttrState::False),
    {
        binary == AttrState::True || diff == AttrState::False
    }

    /// How to count the lines of a file: directories, special files, unreadable
    /// ones and very large ones count as binary, a missing one as empty.
    pub fn line_count_step(meta: FileMeta) -> (step: LineCountStep)
        ensures
            step == (match meta {
                FileMeta::Directory | FileMeta::Special | FileMeta::Denied => LineCountStep::Done(
                    None,
                ),
                FileMeta::Missing => LineCountStep::Done(Some(0)),
                FileMeta::Symlink => LineCountStep::ReadLink,
                FileMeta::Regular(len) => if len > MAX_TEXT_FILE_SIZE {
                    LineCountStep::Done(None)
                } else {
                    LineCountStep::ReadFile
                },
                FileMeta::Unknown => LineCountStep::ReadFile,
            }),
    {
        match meta {
            FileMeta::Directory | FileMeta::Special | FileMeta::Denied => LineCountStep::Done(
                None,
            ),
            FileMeta::Missing => LineCountStep::Done(Some(0)),
            FileMeta::Symlink => LineCountStep::ReadLink,
            FileMeta::Regular(len) => if len > MAX_TEXT_FILE_SIZE {
                LineCountStep::Done(None)
            } else {
                LineCountStep::ReadFile
            },
            FileMeta::Unknown => LineCountStep::ReadFile,
        }
    }

    /// How many lines a text has; `None` for content with a NUL byte, which
    /// counts as binary.
    pub fn count_text_lines(content: &[u8]) -> (lines: Option<usize>)
        ensures
            lines is None <==> content@.contains(0u8),
            lines is Some ==> lines->0 == line_count(content@),
    {
        let mut i: usize = 0;
        while i < content.len()
            invariant
                0 <= i <= content.len(),
                forall|j: int| 0 <= j < i ==> content@[j] != 0,
            decreases content.len() - i,
        {
            if content[i] == 0 {
                return None;
            }
            i = i + 1;
        }
        Some(CommitDiffInfo::count_lines_in_bytes(content))
    }

    /// How many lines the bytes hold.
    pub fn count_lines_in_bytes(bytes: &[u8]) -> (lines: usize)
        ensures
            lines == line_count(bytes@),
    {
        let mut count: usize = 0;
        let mut i: usize = 0;
        assert(bytes@.take(0) =~= Seq::empty());
        while i < bytes.len()
            invariant
                0 <= i <= bytes.len(),
                count <= i,
                count == newlines(bytes@.take(i as int)),
            decreases bytes.len() - i,
        {
            assert(bytes@.take(i + 1).drop_last() =~= bytes@.take(i as int));
            if bytes[i] == 10 {
                count = count + 1;
            }
            i = i + 1;
        }
        proof {
            assert(bytes@.take(i as int) =~= bytes@);
            lemma_newlines_bound(bytes@);
        }
        if bytes.len() > 0 && bytes[bytes.len() - 1] != 10 {
            count = count + 1;
        }
        count
    }

    /// Whether a path of HEAD is binary, and how many lines it has; `None` when
    /// HEAD does not hold it. Only the content decides.
    pub fn head_path_line_info(content: Option<&[u8]>) -> (info: Option<(bool, usize)>)
        ensures
            info is Some <==> content is Some,
            content is Some && (content->0)@.contains(0u8) ==> info == Some((true, 0usize)),
            content is Some && !(content->0)@.contains(0u8) ==> info == Some(
                (false, line_count((content->0)@) as usize),
            ) && line_count((content->0)@) <= usize::MAX,
    {
        match content {
            Some(c) => match CommitDiffInfo::count_text_lines(c) {
                Some(lines) => Some((false, lines)),
                None => Some((true, 0)),
            },
            None => None,
        }
    }

    /// Whether a path of the working tree is binary, and how many lines it has.
    pub fn worktree_path_line_info(binary_by_attributes: bool, lines: Option<usize>) -> (info: (
        bool,
        usize,
    ))
        ensures
            info == (if binary_by_attributes || lines is None {
                (true, 0usize)
            } else {
                (false, lines->0)
            }),
    {
        if binary_by_attributes {
            return (true, 0);
        }
        match lines {
            Some(n) => (false, n),
            None => (true, 0),
        }
    }

    /// The statistics of a recreated path.
    pub fn fallback_recreated_path_stats(
        was_binary: Option<bool>,
        is_binary: bool,
        lines: usize,
        stats: LineStats,
    ) -> (shown: LineStats)
        ensures
            shown == recreated_stats(was_binary, is_binary, lines, stats),
    {
        match was_binary {
            None => stats,
            Some(was) => if was && !is_binary {
                LineStats { is_binary: false, insertions: lines, deletions: 0 }
            } else if is_binary {
                LineStats { is_binary: true, insertions: 0, deletions: 0 }
            } else {
                stats
            },
        }
    }

    /// The info shown of a scan; its totals are its own lines unless given.
    pub fn build_info(scan: DiffScan, totals: Option<(usize, usize)>) -> (info: CommitDiffInfo)
        requires
            totals is None ==> inserted(scan@.files) <= usize::MAX && deleted(scan@.files)
                <= usize::MAX,
        ensures
            info_of(
                scan@,
                match totals {
                    Some(t) => (t.0 as int, t.1 as int),
                    None => (inserted(scan@.files), deleted(scan@.files)),
                },
                info,
            ),
    {
        let ghost fs = scan@.files;
        let total_files: usize = scan.all_paths.len();
        let (total_insertions, total_deletions) = match totals {
            Some(t) => t,
            None => scan.line_totals(),
        };
        let mut files = scan.files;
        if files.len() > MAX_FILES_TO_DISPLAY {
            files.truncate(MAX_FILES_TO_DISPLAY);
            assert(files_view(files@) =~= fs.take(MAX_FILES_TO_DISPLAY as int));
        }
        CommitDiffInfo {
            files,
            total_insertions,
            total_deletions,
            total_files,
            truncated: total_files > MAX_FILES_TO_DISPLAY,
        }
    }

    /// Diff info of a commit against its first parent, or against nothing for an
    /// initial commit.
    pub fn from_commit(deltas: &[DeltaRecord]) -> (info: CommitDiffInfo)
        requires
            inserted(shown_files(deltas_view(deltas@), deltas@.len())) <= usize::MAX,
            deleted(shown_files(deltas_view(deltas@), deltas@.len())) <= usize::MAX,
        ensures
            ({
                let files = shown_files(deltas_view(deltas@), deltas@.len());
                info_of(
                    ScanView { files, all: paths_of(files), deferred: Set::empty() },
                    (inserted(files), deleted(files)),
                    info,
                )
            }),
    {
        let scan = CommitDiffInfo::scan_diff(deltas);
        CommitDiffInfo::build_info(scan, None)
    }
}

proof fn lemma_sums_update(files: Seq<FileView>, i: int, f: FileView)
    requires
        0 <= i < files.len(),
    ensures
        inserted(files.update(i, f)) == inserted(files) - files[i].insertions + f.insertions,
        deleted(files.update(i, f)) == deleted(files) - files[i].deletions + f.deletions,
    decreases files.len(),
{
    let u = files.update(i, f);
    if i < files.len() - 1 {
        lemma_sums_update(files.drop_last(), i, f);
        assert(u.drop_last() =~= files.drop_last().update(i, f));
    } else {
        assert(u.drop_last() =~= files.drop_last());
    }
}

proof fn lemma_sums_at(files: Seq<FileView>, i: int)
    requires
        0 <= i < files.len(),
    ensures
        files[i].insertions <= inserted(files),
        files[i].deletions <= deleted(files),
{
    lemma_sums_monotone(files, i);
    lemma_sums_monotone(files, i + 1);
    assert(files.take(i + 1).drop_last() =~= files.take(i));
}

/// Merging one more change adds its lines to the sums.
proof fn lemma_merge_file_sums(files: Seq<FileView>, anew: Set<Seq<u16>>, f: FileView)
    requires
        inserted(files) + f.insertions <= usize::MAX,
        deleted(files) + f.deletions <= usize::MAX,
    ensures
        inserted(merge_file(files, anew, f).0) == inserted(files) + f.insertions,
        deleted(merge_file(files, anew, f).0) == deleted(files) + f.deletions,
{
    search::lemma_first_such_holds(files.len() as int, |i: int| paths::path_rank(files[i].path) == paths::path_rank(f.path));
    match file_index(files, f.path) {
        Some(i) => {
            lemma_sums_at(files, i);
            lemma_sums_update(files, i, combined(files[i], f));
        },
        None => {
            assert(files.push(f).drop_last() =~= files);
        },
    }
}

proof fn lemma_merge_files_sums(
    files: Seq<FileView>,
    anew: Set<Seq<u16>>,
    more: Seq<FileView>,
    n: nat,
)
    requires
        n <= more.len(),
        inserted(files) + inserted(more) <= usize::MAX,
        deleted(files) + deleted(more) <= usize::MAX,
    ensures
        inserted(merge_files(files, anew, more, n).0) == inserted(files) + inserted(
            more.take(n as int),
        ),
        deleted(merge_files(files, anew, more, n).0) == deleted(files) + deleted(
            more.take(n as int),
        ),
    decreases n,
{
    if n == 0 {
        assert(more.take(0) =~= Seq::empty());
    } else {
        lemma_merge_files_sums(files, anew, more, (n - 1) as nat);
        let (fs, a) = merge_files(files, anew, more, (n - 1) as nat);
        assert(more.take(n as int).drop_last() =~= more.take(n - 1));
        lemma_sums_monotone(more, n as int);
        lemma_merge_file_sums(fs, a, more[n - 1]);
    }
}

/// No two files share a path.
pub open spec fn distinct_paths(files: Seq<FileView>) -> bool {
    forall|i: int, j: int|
        0 <= i < files.len() && 0 <= j < files.len() && paths::path_rank((#[trigger] files[i]).path)
            == paths::path_rank((#[trigger] files[j]).path) ==> i == j
}

proof fn lemma_merge_files_distinct(
    files: Seq<FileView>,
    anew: Set<Seq<u16>>,
    more: Seq<FileView>,
    n: nat,
)
    requires
        distinct_paths(files),
    ensures
        distinct_paths(merge_files(files, anew, more, n).0),
    decreases n,
{
    if n > 0 {
        lemma_merge_files_distinct(files, anew, more, (n - 1) as nat);
        let (fs, a) = merge_files(files, anew, more, (n - 1) as nat);
        let f = more[n - 1];
        let out = merge_file(fs, a, f).0;
        search::lemma_first_such_holds(fs.len() as int, |i: int| paths::path_rank(fs[i].path) == paths::path_rank(f.path));
        assert forall|i: int, j: int|
            0 <= i < out.len() && 0 <= j < out.len() && paths::path_rank((#[trigger] out[i]).path)
                == paths::path_rank((#[trigger] out[j]).path) implies i == j by {
            match file_index(fs, f.path) {
                Some(k) => {
                    assert(fs[i].path == out[i].path);
                    assert(fs[j].path == out[j].path);
                },
                None => {
                    let p = |i: int| paths::path_rank(fs[i].path) == paths::path_rank(f.path);
                    if i < fs.len() && j == fs.len() {
                        assert(!p(i));
                    }
                    if j < fs.len() && i == fs.len() {
                        assert(!p(j));
                    }
                    if i < fs.len() && j < fs.len() {
                        assert(paths::path_rank(fs[i].path) == paths::path_rank(fs[j].path));
                    }
                },
            }
        }
    }
}

/// No more files are shown than fit, and files are left out only where there are
/// more.
pub proof fn law_shown_files_are_capped(scan: ScanView, totals: (int, int), info: CommitDiffInfo)
    requires
        info_of(scan, totals, info),
    ensures
        info.files@.len() <= MAX_FILES_TO_DISPLAY,
        info.truncated <==> info.total_files > MAX_FILES_TO_DISPLAY,
        scan.files.len() <= MAX_FILES_TO_DISPLAY ==> files_view(info.files@) == scan.files,
{
    assert(files_view(info.files@).len() == info.files@.len());
}

/// The binary files of a commit are shown without lines.
pub proof fn law_binary_files_have_no_lines(deltas: Seq<DeltaView>, n: nat, i: int)
    requires
        n <= deltas.len(),
        0 <= i < shown_files(deltas, n).len(),
        shown_files(deltas, n)[i].is_binary,
    ensures
        shown_files(deltas, n)[i].insertions == 0,
        shown_files(deltas, n)[i].deletions == 0,
    decreases n,
{
    if n > 0 && i < shown_files(deltas, (n - 1) as nat).len() {
        law_binary_files_have_no_lines(deltas, (n - 1) as nat, i);
    }
}

/// The merged scan shows every path once, and its lines are those of the three
/// scans together.
pub proof fn law_merged_scan_counts_each_path_once(a: ScanView, b: ScanView, c: ScanView)
    requires
        inserted(a.files) + inserted(b.files) + inserted(c.files) <= usize::MAX,
        deleted(a.files) + deleted(b.files) + deleted(c.files) <= usize::MAX,
    ensures
        distinct_paths(merged_scan(a, b, c).0.files),
        inserted(merged_scan(a, b, c).0.files) == inserted(a.files) + inserted(b.files) + inserted(
            c.files,
        ),
        deleted(merged_scan(a, b, c).0.files) == deleted(a.files) + deleted(b.files) + deleted(
            c.files,
        ),
{
    let none = Seq::<FileView>::empty();
    let (f1, s1) = merge_files(none, Set::empty(), a.files, a.files.len());
    let (f2, s2) = merge_files(f1, s1, b.files, b.files.len());
    lemma_merge_files_distinct(none, Set::empty(), a.files, a.files.len());
    lemma_merge_files_distinct(f1, s1, b.files, b.files.len());
    lemma_merge_files_distinct(f2, s2, c.files, c.files.len());
    lemma_sums_nonnegative(a.files);
    lemma_sums_nonnegative(b.files);
    lemma_sums_nonnegative(c.files);
    lemma_merge_files_sums(none, Set::empty(), a.files, a.files.len());
    assert(a.files.take(a.files.len() as int) =~= a.files);
    lemma_merge_files_sums(f1, s1, b.files, b.files.len());
    assert(b.files.take(b.files.len() as int) =~= b.files);
    lemma_merge_files_sums(f2, s2, c.files, c.files.len());
    assert(c.files.take(c.files.len() as int) =~= c.files);
}

proof fn lemma_sums_nonnegative(files: Seq<FileView>)
    ensures
        inserted(files) >= 0,
        deleted(files) >= 0,
{
    lemma_sums_monotone(files, 0);
    assert(files.take(0) =~= Seq::empty());
}

/// The file with `path`.
fn find_file(files: &[FileDiffInfo], path: &[u8]) -> (at: Option<usize>)
    ensures
        at is Some <==> file_index(files_view(files@), path@) is Some,
        at is Some ==> at->0 < files@.len() && file_index(files_view(files@), path@) == Some(
            at->0 as int,
        ),
{
    let ghost fs = files_view(files@);
    let ghost p = |i: int| paths::path_rank(fs[i].path) == paths::path_rank(path@);
    let mut i: usize = 0;
    while i < files.len()
        invariant
            0 <= i <= files.len(),
            fs == files_view(files@),
            p == (|i: int| paths::path_rank(fs[i].path) == paths::path_rank(path@)),
            forall|j: int| 0 <= j < i ==> !#[trigger] p(j),
        decreases files.len() - i,
    {
        assert(fs[i as int] == files@[i as int]@);
        if paths::same_path(files[i].path.as_slice(), path) {
            proof {
                assert(p(i as int));
                search::lemma_first_such(fs.len() as int, p, i as int);
            }
            return Some(i);
        }
        assert(!p(i as int));
        i = i + 1;
    }
    proof {
        search::lemma_no_such(fs.len() as int, p);
    }
    None
}

/// Merge one more change into the files.
fn merge_one(files: &mut Vec<FileDiffInfo>, anew: &mut PathSet, file: &FileDiffInfo)
    requires
        inserted(files_view(old(files)@)) + file@.insertions <= usize::MAX,
        deleted(files_view(old(files)@)) + file@.deletions <= usize::MAX,
    ensures
        (files_view(final(files)@), final(anew)@) == merge_file(
            files_view(old(files)@),
            old(anew)@,
            file@,
        ),
{
    let ghost fs = files_view(files@);
    match find_file(files.as_slice(), file.path.as_slice()) {
        Some(i) => {
            proof {
                lemma_sums_at(fs, i as int);
                search::lemma_first_such_holds(
                    fs.len() as int,
                    |i: int| paths::path_rank(fs[i].path) == paths::path_rank(file.path@),
                );
            }
            let was = &files[i];
            assert(fs[i as int] == was@);
            let recreated = was.kind == FileChangeKind::Deleted && file.kind
                == FileChangeKind::Added;
            let kind = if recreated {
                FileChangeKind::Modified
            } else if file.kind == FileChangeKind::Deleted && was.kind != FileChangeKind::Added {
                FileChangeKind::Deleted
            } else {
                was.kind
            };
            let is_binary = if recreated || file.kind != FileChangeKind::Deleted {
                file.is_binary
            } else {
                was.is_binary || file.is_binary
            };
            let merged = FileDiffInfo {
                path: paths::clone_path(was.path.as_slice()),
                kind,
                is_binary,
                insertions: was.insertions + file.insertions,
                deletions: was.deletions + file.deletions,
            };
            assert(merged@ =~= combined(fs[i as int], file@));
            files.set(i, merged);
            assert(files_view(files@) =~= fs.update(i as int, combined(fs[i as int], file@)));
            if recreated {
                anew.insert(file.path.as_slice());
            }
        },
        None => {
            let copy = FileDiffInfo {
                path: paths::clone_path(file.path.as_slice()),
                kind: file.kind,
                is_binary: file.is_binary,
                insertions: file.insertions,
                deletions: file.deletions,
            };
            assert(copy@ =~= file@);
            files.push(copy);
            assert(files_view(files@) =~= fs.push(file@));
        },
    }
}

/// Merge the changes of one scan into the files.
fn merge_scan(files: &mut Vec<FileDiffInfo>, anew: &mut PathSet, more: &[FileDiffInfo])
    requires
        inserted(files_view(old(files)@)) + inserted(files_view(more@)) <= usize::MAX,
        deleted(files_view(old(files)@)) + deleted(files_view(more@)) <= usize::MAX,
    ensures
        (files_view(final(files)@), final(anew)@) == merge_files(
            files_view(old(files)@),
            old(anew)@,
            files_view(more@),
            more@.len(),
        ),
{
    let ghost fs = files_view(files@);
    let ghost a = anew@;
    let ghost ms = files_view(more@);
    let mut n: usize = 0;
    while n < more.len()
        invariant
            0 <= n <= more.len(),
            ms == files_view(more@),
            inserted(fs) + inserted(ms) <= usize::MAX,
            deleted(fs) + deleted(ms) <= usize::MAX,
            (files_view(files@), anew@) == merge_files(fs, a, ms, n as nat),
        decreases more.len() - n,
    {
        proof {
            assert(ms[n as int] == more@[n as int]@);
            lemma_merge_files_sums(fs, a, ms, n as nat);
            lemma_sums_monotone(ms, n + 1);
            assert(ms.take(n + 1).drop_last() =~= ms.take(n as int));
        }
        merge_one(files, anew, &more[n]);
        n = n + 1;
    }
}

impl CommitDiffInfo {
    /// The staged, the unstaged and the untracked changes as one scan, with the
    /// paths that were deleted and created anew, whose lines have to be taken
    /// from the working tree.
    pub fn merge_scans(scans: [DiffScan; 3]) -> (merged: (DiffScan, PathSet))
        requires
            inserted(scans@[0]@.files) + inserted(scans@[1]@.files) + inserted(scans@[2]@.files)
                <= usize::MAX,
            deleted(scans@[0]@.files) + deleted(scans@[1]@.files) + deleted(scans@[2]@.files)
                <= usize::MAX,
        ensures
            (merged.0@, merged.1@) == merged_scan(scans@[0]@, scans@[1]@, scans@[2]@),
    {
        let ghost a = scans@[0]@;
        let ghost b = scans@[1]@;
        let ghost c = scans@[2]@;
        proof {
            lemma_sums_nonnegative(a.files);
            lemma_sums_nonnegative(b.files);
            lemma_sums_nonnegative(c.files);
        }
        let mut files: Vec<FileDiffInfo> = Vec::new();
        let mut anew = PathSet::new();
        assert(files_view(files@) =~= Seq::empty());
        merge_scan(&mut files, &mut anew, scans[0].files.as_slice());
        proof {
            let none = Seq::<FileView>::empty();
            lemma_merge_files_sums(none, Set::empty(), a.files, a.files.len());
            assert(a.files.take(a.files.len() as int) =~= a.files);
        }
        let ghost f1 = files_view(files@);
        let ghost s1 = anew@;
        merge_scan(&mut files, &mut anew, scans[1].files.as_slice());
        proof {
            lemma_merge_files_sums(f1, s1, b.files, b.files.len());
            assert(b.files.take(b.files.len() as int) =~= b.files);
        }
        merge_scan(&mut files, &mut anew, scans[2].files.as_slice());
        let mut all_paths = PathSet::new();
        all_paths.extend(&scans[0].all_paths);
        all_paths.extend(&scans[1].all_paths);
        all_paths.extend(&scans[2].all_paths);
        assert(all_paths@ =~= a.all.union(b.all).union(c.all));
        let mut deferred_paths = PathSet::new();
        deferred_paths.extend(&scans[0].deferred_paths);
        deferred_paths.extend(&scans[1].deferred_paths);
        deferred_paths.extend(&scans[2].deferred_paths);
        assert(deferred_paths@ =~= a.deferred.union(b.deferred).union(c.deferred));
        let scan = DiffScan { files, all_paths, deferred_paths };
        assert(scan@ =~= merged_scan(a, b, c).0);
        (scan, anew)
    }

    /// Whether a file's lines have yet to be counted from disk.
    pub fn needs_line_count(file: &FileDiffInfo, deferred_paths: &PathSet) -> (needed: bool)
        ensures
            needed == lines_missing(file@, deferred_paths@),
    {
        !file.is_binary && file.kind == FileChangeKind::Added && file.insertions == 0
            && !deferred_paths.contains(file.path.as_slice())
    }

    /// Enter the lines counted from disk: `counts` is parallel to the files, and
    /// `None` leaves a file as it is.
    pub fn apply_line_counts(scan: &mut DiffScan, counts: &[Option<usize>])
        requires
            counts@.len() == old(scan)@.files.len(),
        ensures
            final(scan)@ == (ScanView {
                files: Seq::new(
                    old(scan)@.files.len(),
                    |i: int|
                        {
                            let f = old(scan)@.files[i];
                            if lines_missing(f, old(scan)@.deferred) && counts@[i] is Some {
                                FileView { insertions: counts@[i]->0, ..f }
                            } else {
                                f
                            }
                        },
                ),
                ..old(scan)@
            }),
    {
        let ghost fs = scan@.files;
        let ghost deferred = scan@.deferred;
        let mut i: usize = 0;
        while i < scan.files.len()
            invariant
                0 <= i <= scan.files.len(),
                scan.files@.len() == fs.len(),
                counts@.len() == fs.len(),
                scan.all_paths@ == old(scan)@.all,
                scan.deferred_paths@ == deferred,
                forall|k: int|
                    0 <= k < fs.len() ==> (#[trigger] scan.files@[k])@ == (if k < i
                        && lines_missing(fs[k], deferred) && counts@[k] is Some {
                        FileView { insertions: counts@[k]->0, ..fs[k] }
                    } else {
                        fs[k]
                    }),
            decreases scan.files.len() - i,
        {
            assert(scan.files@[i as int]@ == fs[i as int]);
            if CommitDiffInfo::needs_line_count(&scan.files[i], &scan.deferred_paths) {
                if let Some(n) = counts[i] {
                    set_insertions(&mut scan.files[i], n);
                }
            }
            i = i + 1;
        }
        proof {
            let spec = Seq::new(
                fs.len(),
                |i: int|
                    {
                        let f = fs[i];
                        if lines_missing(f, deferred) && counts@[i] is Some {
                            FileView { insertions: counts@[i]->0, ..f }
                        } else {
                            f
                        }
                    },
            );
            assert(scan@.files =~= spec);
        }
    }

    /// The line statistics that the deltas give for `path`; the last delta for a
    /// path counts.
    pub fn line_stats_from_index(deltas: &[DeltaRecord], path: &[u8]) -> (stats: Option<LineStats>)
        ensures
            stats == path_stats(deltas_view(deltas@), path@),
    {
        let ghost ds = deltas_view(deltas@);
        let mut n: usize = deltas.len();
        while n > 0
            invariant
                0 <= n <= deltas.len(),
                ds == deltas_view(deltas@),
                delta_index(ds, path@, ds.len()) == delta_index(ds, path@, n as nat),
            decreases n,
        {
            n = n - 1;
            assert(ds[n as int] == deltas@[n as int]@);
            if let Some(f) = CommitDiffInfo::diff_entry(&deltas[n]) {
                if paths::same_path(f.path.as_slice(), path) {
                    return Some(
                        LineStats {
                            is_binary: f.is_binary,
                            insertions: f.insertions,
                            deletions: f.deletions,
                        },
                    );
                }
            }
        }
        None
    }
}

fn set_insertions(file: &mut FileDiffInfo, n: usize)
    ensures
        final(file)@ == (FileView { insertions: n, ..old(file)@ }),
{
    file.insertions = n;
}

fn set_stats(file: &mut FileDiffInfo, stats: LineStats)
    ensures
        final(file)@ == (FileView {
            is_binary: stats.is_binary,
            insertions: stats.insertions,
            deletions: stats.deletions,
            ..old(file)@
        }),
{
    file.is_binary = stats.is_binary;
    file.insertions = stats.insertions;
    file.deletions = stats.deletions;
}

/// What the refresh of file statistics reads.
pub struct RefreshInput<'a> {
    pub worktree: &'a [DeltaRecord],
    pub staged: &'a [DeltaRecord],
    /// Paths changed both in the index and in the working tree.
    pub both: &'a PathSet,
    /// Paths deleted and created anew.
    pub anew: &'a PathSet,
    pub recreated: &'a [Recreated],
}

impl<'a> RefreshInput<'a> {
    pub open spec fn with(&self, deferred: Set<Seq<u16>>) -> RefreshView {
        RefreshView {
            worktree: deltas_view(self.worktree@),
            staged: deltas_view(self.staged@),
            both: self.both@,
            anew: self.anew@,
            deferred,
            recreated: self.recreated@.map_values(|r: Recreated| r@),
        }
    }

    fn needs(&self, deferred: &PathSet, file: &FileDiffInfo) -> (needed: bool)
        ensures
            needed == needs_refresh(self.with(deferred@), file@),
    {
        let path = file.path.as_slice();
        file.kind != FileChangeKind::Deleted && (self.anew.contains(path) || deferred.contains(path)
            || self.both.contains(path) || (!file.is_binary && file.insertions == 0
            && file.deletions == 0))
    }

    fn shown(&self, path: &[u8], stats: LineStats, Ghost(deferred): Ghost<Set<Seq<u16>>>) -> (shown:
        LineStats)
        ensures
            shown == shown_stats(self.with(deferred), path@, stats),
    {
        if !self.anew.contains(path) {
            return stats;
        }
        let ghost rs = self.recreated@.map_values(|r: Recreated| r@);
        let ghost p = |i: int| paths::path_rank(rs[i].path) == paths::path_rank(path@);
        let mut i: usize = 0;
        while i < self.recreated.len()
            invariant
                0 <= i <= self.recreated.len(),
                rs == self.recreated@.map_values(|r: Recreated| r@),
                p == (|i: int| paths::path_rank(rs[i].path) == paths::path_rank(path@)),
                self.anew@.contains(paths::path_rank(path@)),
                forall|j: int| 0 <= j < i ==> !#[trigger] p(j),
            decreases self.recreated.len() - i,
        {
            let r = &self.recreated[i];
            assert(rs[i as int] == r@);
            if paths::same_path(r.path.as_slice(), path) {
                proof {
                    assert(p(i as int));
                    search::lemma_first_such(rs.len() as int, p, i as int);
                }
                return CommitDiffInfo::fallback_recreated_path_stats(
                    r.was_binary,
                    r.is_binary,
                    r.lines,
                    stats,
                );
            }
            assert(!p(i as int));
            i = i + 1;
        }
        proof {
            search::lemma_no_such(rs.len() as int, p);
        }
        stats
    }
}

impl CommitDiffInfo {
    /// Take the statistics of the files that need it from the working tree, and
    /// correct the totals of the working-tree diff accordingly.
    ///
    /// A path without a difference between HEAD and the working tree shows the
    /// statistics of the index; a path that was deleted and created anew shows
    /// what [`CommitDiffInfo::fallback_recreated_path_stats`] says.
    pub fn refresh_worktree_stats(
        scan: &mut DiffScan,
        input: &RefreshInput,
        totals: (usize, usize),
    ) -> (corrected: (usize, usize))
        requires
            totals_fit(
                input.with(old(scan)@.deferred),
                old(scan)@.files,
                (totals.0 as int, totals.1 as int),
            ),
        ensures
            ({
                let r = input.with(old(scan)@.deferred);
                let fs = old(scan)@.files;
                &&& final(scan)@ == (ScanView {
                    files: fs.map_values(|f: FileView| refreshed(r, f)),
                    ..old(scan)@
                })
                &&& (corrected.0 as int, corrected.1 as int) == running(
                    r,
                    fs,
                    (totals.0 as int, totals.1 as int),
                    fs.len(),
                )
            }),
    {
        let ghost fs = scan@.files;
        let ghost deferred = scan@.deferred;
        let ghost r = input.with(deferred);
        let ghost start = (totals.0 as int, totals.1 as int);
        let mut total_insertions: usize = totals.0;
        let mut total_deletions: usize = totals.1;
        let mut n: usize = 0;
        while n < scan.files.len()
            invariant
                0 <= n <= scan.files.len(),
                scan.files@.len() == fs.len(),
                scan.all_paths@ == old(scan)@.all,
                scan.deferred_paths@ == deferred,
                r == input.with(deferred),
                totals_fit(r, fs, start),
                (total_insertions as int, total_deletions as int) == running(r, fs, start, n as nat),
                forall|k: int|
                    0 <= k < fs.len() ==> (#[trigger] scan.files@[k])@ == (if k < n {
                        refreshed(r, fs[k])
                    } else {
                        fs[k]
                    }),
            decreases scan.files.len() - n,
        {
            let ghost f = fs[n as int];
            assert(scan.files@[n as int]@ == f);
            assert(0 <= running(r, fs, start, (n + 1) as nat).0 <= usize::MAX);
            if input.needs(&scan.deferred_paths, &scan.files[n]) {
                let path = paths::clone_path(scan.files[n].path.as_slice());
                match CommitDiffInfo::line_stats_from_index(input.worktree, path.as_slice()) {
                    Some(w) => {
                        let s = input.shown(path.as_slice(), w, Ghost(deferred));
                        if s.insertions >= w.insertions {
                            total_insertions = total_insertions + (s.insertions - w.insertions);
                        } else {
                            total_insertions = total_insertions - (w.insertions - s.insertions);
                        }
                        if s.deletions >= w.deletions {
                            total_deletions = total_deletions + (s.deletions - w.deletions);
                        } else {
                            total_deletions = total_deletions - (w.deletions - s.deletions);
                        }
                        set_stats(&mut scan.files[n], s);
                    },
                    None => {
                        match CommitDiffInfo::line_stats_from_index(
                            input.staged,
                            path.as_slice(),
                        ) {
                            Some(s) => {
                                total_insertions = total_insertions + s.insertions;
                                total_deletions = total_deletions + s.deletions;
                                set_stats(&mut scan.files[n], s);
                            },
                            None => {
                                set_stats(
                                    &mut scan.files[n],
                                    LineStats { is_binary: false, insertions: 0, deletions: 0 },
                                );
                            },
                        }
                    },
                }
            }
            n = n + 1;
        }
        assert(scan@.files =~= fs.map_values(|f: FileView| refreshed(r, f)));
        (total_insertions, total_deletions)
    }

    /// Whether [`CommitDiffInfo::refresh_worktree_stats`] can carry the totals
    /// through every file.
    pub fn refresh_fits(scan: &DiffScan, input: &RefreshInput, totals: (usize, usize)) -> (fits: bool)
        ensures
            fits == totals_fit(
                input.with(scan@.deferred),
                scan@.files,
                (totals.0 as int, totals.1 as int),
            ),
    {
        let ghost fs = scan@.files;
        let ghost r = input.with(scan@.deferred);
        let ghost start = (totals.0 as int, totals.1 as int);
        let mut total: (usize, usize) = totals;
        let mut n: usize = 0;
        while n < scan.files.len()
            invariant
                0 <= n <= scan.files.len(),
                fs == scan@.files,
                start == (totals.0 as int, totals.1 as int),
                r == input.with(scan@.deferred),
                (total.0 as int, total.1 as int) == running(r, fs, start, n as nat),
                forall|m: nat|
                    m <= n ==> 0 <= (#[trigger] running(r, fs, start, m)).0 <= usize::MAX && 0
                        <= running(r, fs, start, m).1 <= usize::MAX,
            decreases scan.files.len() - n,
        {
            let file = &scan.files[n];
            assert(fs[n as int] == file@);
            // What is added to the totals, and what is taken off them.
            let mut plus: (usize, usize) = (0, 0);
            let mut minus: (usize, usize) = (0, 0);
            if input.needs(&scan.deferred_paths, file) {
                let path = file.path.as_slice();
                match CommitDiffInfo::line_stats_from_index(input.worktree, path) {
                    Some(w) => {
                        let s = input.shown(path, w, Ghost(scan@.deferred));
                        plus = (s.insertions, s.deletions);
                        minus = (w.insertions, w.deletions);
                    },
                    None => {
                        if let Some(s) = CommitDiffInfo::line_stats_from_index(
                            input.staged,
                            path,
                        ) {
                            plus = (s.insertions, s.deletions);
                        }
                    },
                }
            }
            let ghost next = running(r, fs, start, (n + 1) as nat);
            assert(next.0 == total.0 + plus.0 - minus.0);
            assert(next.1 == total.1 + plus.1 - minus.1);
            match (shift(total.0, plus.0, minus.0), shift(total.1, plus.1, minus.1)) {
                (Some(a), Some(b)) => {
                    total = (a, b);
                },
                _ => {
                    proof {
                        let m = (n + 1) as nat;
                        assert(m <= fs.len());
                        assert(!(0 <= running(r, fs, start, m).0 <= usize::MAX && 0 <= running(
                            r,
                            fs,
                            start,
                            m,
                        ).1 <= usize::MAX));
                        assert(!totals_fit(r, fs, start));
                    }
                    return false;
                },
            }
            n = n + 1;
        }
        true
    }
}

/// `total + plus - minus`, when that is in range.
fn shift(total: usize, plus: usize, minus: usize) -> (sum: Option<usize>)
    ensures
        sum is Some <==> 0 <= total + plus - minus <= usize::MAX,
        sum is Some ==> sum->0 == total + plus - minus,
{
    if plus >= minus {
        total.checked_add(plus - minus)
    } else {
        total.checked_sub(minus - plus)
    }
}

/// The first scan of the working tree: its changed files, before lines are
/// counted from disk.
#[derive(Debug)]
pub struct WorkingTreeScan {
    pub scan: DiffScan,
    /// Paths changed both in the index and in the working tree.
    pub both: PathSet,
    /// Paths deleted and created anew.
    pub anew: PathSet,
}

/// The scan of a diff as a mathematical value.
pub open spec fn diff_scan(ds: Seq<DeltaView>) -> ScanView {
    let files = shown_files(ds, ds.len());
    ScanView { files, all: paths_of(files), deferred: Set::empty() }
}

proof fn lemma_uncounted_sums(paths: Seq<Seq<u8>>)
    ensures
        inserted(paths.map_values(|p: Seq<u8>| uncounted(p))) == 0,
        deleted(paths.map_values(|p: Seq<u8>| uncounted(p))) == 0,
    decreases paths.len(),
{
    let fs = paths.map_values(|p: Seq<u8>| uncounted(p));
    if paths.len() > 0 {
        lemma_uncounted_sums(paths.drop_last());
        assert(fs.drop_last() =~= paths.drop_last().map_values(|p: Seq<u8>| uncounted(p)));
    }
}

impl CommitDiffInfo {
    /// Scan the staged changes (HEAD to index), the unstaged ones (index to
    /// working tree) and the untracked files.
    pub fn scan_working_tree(
        staged: &[DeltaRecord],
        unstaged: &[DeltaRecord],
        entries: &[StatusRecord],
    ) -> (ws: WorkingTreeScan)
        requires
            inserted(diff_scan(deltas_view(staged@)).files) + inserted(
                diff_scan(deltas_view(unstaged@)).files,
            ) <= usize::MAX,
            deleted(diff_scan(deltas_view(staged@)).files) + deleted(
                diff_scan(deltas_view(unstaged@)).files,
            ) <= usize::MAX,
        ensures
            ({
                let a = diff_scan(deltas_view(staged@));
                let b = diff_scan(deltas_view(unstaged@));
                let c = untracked_scan(
                    untracked_paths(entries@, entries@.len()),
                    MAX_FILES_TO_DISPLAY as nat,
                );
                &&& (ws.scan@, ws.anew@) == merged_scan(a, b, c)
                &&& ws.both@ == a.all.intersect(b.all)
            }),
    {
        let staged_result = CommitDiffInfo::scan_diff(staged);
        let unstaged_result = CommitDiffInfo::scan_diff(unstaged);
        let both = staged_result.all_paths.intersection(&unstaged_result.all_paths);
        let untracked_result = CommitDiffInfo::scan_untracked_worktree(
            entries,
            MAX_FILES_TO_DISPLAY,
        );
        proof {
            let paths = untracked_paths(entries@, entries@.len());
            let shown = if paths.len() <= MAX_FILES_TO_DISPLAY {
                paths
            } else {
                paths.take(MAX_FILES_TO_DISPLAY as int)
            };
            lemma_uncounted_sums(shown);
            assert(staged_result@ =~= diff_scan(deltas_view(staged@)));
            assert(unstaged_result@ =~= diff_scan(deltas_view(unstaged@)));
        }
        let scans: [DiffScan; 3] = [staged_result, unstaged_result, untracked_result];
        let (scan, anew) = CommitDiffInfo::merge_scans(scans);
        WorkingTreeScan { scan, both, anew }
    }

    /// Diff info of the working tree, from its scan with lines counted, the diff
    /// from HEAD to the working tree with that diff's own totals, the staged
    /// diff, and what is known of the paths created anew.
    pub fn from_working_tree(
        ws: WorkingTreeScan,
        worktree: &[DeltaRecord],
        staged: &[DeltaRecord],
        recreated: &[Recreated],
        totals: (usize, usize),
    ) -> (info: CommitDiffInfo)
        requires
            totals_fit(
                working_tree_refresh(ws, worktree@, staged@, recreated@),
                ws.scan@.files,
                (totals.0 as int, totals.1 as int),
            ),
        ensures
            ({
                let r = working_tree_refresh(ws, worktree@, staged@, recreated@);
                let fs = ws.scan@.files;
                info_of(
                    ScanView { files: fs.map_values(|f: FileView| refreshed(r, f)), ..ws.scan@ },
                    running(r, fs, (totals.0 as int, totals.1 as int), fs.len()),
                    info,
                )
            }),
    {
        let mut scan = ws.scan;
        let input = RefreshInput { worktree, staged, both: &ws.both, anew: &ws.anew, recreated };
        let corrected = CommitDiffInfo::refresh_worktree_stats(&mut scan, &input, totals);
        CommitDiffInfo::build_info(scan, Some(corrected))
    }
}

/// What the refresh of a working-tree scan reads.
pub open spec fn working_tree_refresh(
    ws: WorkingTreeScan,
    worktree: Seq<DeltaRecord>,
    staged: Seq<DeltaRecord>,
    recreated: Seq<Recreated>,
) -> RefreshView {
    RefreshView {
        worktree: deltas_view(worktree),
        staged: deltas_view(staged),
        both: ws.both@,
        anew: ws.anew@,
        deferred: ws.scan@.deferred,
        recreated: recreated.map_values(|r: Recreated| r@),
    }
}

/// Where the patch of a working-tree file may come from, in the order in which
/// the sources are tried.
#[derive(Debug, Clone, Copy, PartialEq, Eq, Structural)]
pub enum PatchSource {
    /// HEAD against index and working tree together.
    Combined,
    /// HEAD against index, then index against working tree.
    StagedThenUnstaged,
    /// Nothing against index and working tree, for a file not in the index.
    Untracked,
    /// `git diff`.
    GitDiff,
    /// `git diff --no-index` against `/dev/null`.
    GitNoIndex,
}

/// The source to try after `done` gave no patch.
pub open spec fn next_source(done: Option<PatchSource>, exists: bool, is_file: bool) -> Option<
    PatchSource,
> {
    match done {
        None => Some(PatchSource::Combined),
        Some(PatchSource::Combined) => Some(PatchSource::StagedThenUnstaged),
        Some(PatchSource::StagedThenUnstaged) => if exists {
            Some(PatchSource::Untracked)
        } else {
            Some(PatchSource::GitDiff)
        },
        Some(PatchSource::Untracked) => Some(PatchSource::GitDiff),
        Some(PatchSource::GitDiff) => if is_file {
            Some(PatchSource::GitNoIndex)
        } else {
            None
        },
        Some(PatchSource::GitNoIndex) => None,
    }
}

/// How far down the order of sources one is.
pub open spec fn source_rank(source: Option<PatchSource>) -> nat {
    match source {
        None => 0,
        Some(PatchSource::Combined) => 1,
        Some(PatchSource::StagedThenUnstaged) => 2,
        Some(PatchSource::Untracked) => 3,
        Some(PatchSource::GitDiff) => 4,
        Some(PatchSource::GitNoIndex) => 5,
    }
}

/// What a finished command left.
#[derive(Debug)]
pub struct CommandOutcome {
    pub success: bool,
    pub code: Option<i32>,
    pub stdout: String,
}

/// Whether a command's output is a patch to show: `git diff --no-index` exits
/// with 1 when there are differences.
pub open spec fn output_counts(source: PatchSource, success: bool, code: Option<i32>) -> bool {
    success || (source == PatchSource::GitNoIndex && code == Some(1i32))
}

/// The search for a textual patch of one path in the working tree.
#[derive(Debug)]
pub struct PatchSearch {
    out: String,
    done: Option<PatchSource>,
}

impl PatchSearch {
    /// The patch text gathered so far.
    pub closed spec fn text(&self) -> Seq<char> {
        self.out@
    }

    /// The source tried last.
    pub closed spec fn tried(&self) -> Option<PatchSource> {
        self.done
    }

    /// Before any source is tried.
    pub fn new() -> (s: PatchSearch)
        ensures
            s.text() == Seq::<char>::empty(),
            s.tried() is None,
    {
        PatchSearch { out: String::new(), done: None }
    }

    /// The source to try next; `None` once there is a patch, or no source is
    /// left.
    pub fn next(&self, exists: bool, is_file: bool) -> (source: Option<PatchSource>)
        ensures
            source == (if text::blank(self.text()) || self.tried() is None {
                next_source(self.tried(), exists, is_file)
            } else {
                None
            }),
    {
        let done = match self.done {
            None => {
                return Some(PatchSource::Combined);
            },
            Some(d) => d,
        };
        if !text::is_blank(self.out.as_str()) {
            return None;
        }
        match done {
            PatchSource::Combined => Some(PatchSource::StagedThenUnstaged),
            PatchSource::StagedThenUnstaged => if exists {
                Some(PatchSource::Untracked)
            } else {
                Some(PatchSource::GitDiff)
            },
            PatchSource::Untracked => Some(PatchSource::GitDiff),
            PatchSource::GitDiff => if is_file {
                Some(PatchSource::GitNoIndex)
            } else {
                None
            },
            PatchSource::GitNoIndex => None,
        }
    }

    /// Record the lines that a diff of the repository printed.
    pub fn take_diff(&mut self, source: PatchSource, lines: &str)
        ensures
            final(self).text() == old(self).text() + lines@,
            final(self).tried() == Some(source),
    {
        self.out.append(lines);
        self.done = Some(source);
    }

    /// Record what a command left; `None` when it could not be run.
    pub fn take_command(&mut self, source: PatchSource, outcome: Option<CommandOutcome>)
        ensures
            final(self).text() == (if outcome is Some && output_counts(
                source,
                (outcome->0).success,
                (outcome->0).code,
            ) {
                old(self).text() + (outcome->0).stdout@
            } else {
                old(self).text()
            }),
            final(self).tried() == Some(source),
    {
        if let Some(o) = outcome {
            if o.success || (source == PatchSource::GitNoIndex && o.code == Some(1i32)) {
                self.out.append(o.stdout.as_str());
            }
        }
        self.done = Some(source);
    }

    /// The patch.
    pub fn finish(self) -> (patch: String)
        ensures
            patch@ == self.text(),
    {
        self.out
    }
}

/// Each source is tried at most once: the next one is always further down the
/// order.
pub proof fn law_patch_sources_are_tried_in_order(
    done: Option<PatchSource>,
    exists: bool,
    is_file: bool,
)
    ensures
        next_source(done, exists, is_file) is Some ==> source_rank(
            next_source(done, exists, is_file),
        ) > source_rank(done),
        source_rank(done) <= 5,
{
}

/// The pathspec that selects a path: a directory with a slash at its end.
pub fn diff_pathspec(path: &str, is_dir: bool) -> (spec: String)
    ensures
        spec@ == (if is_dir && !(path@.len() > 0 && path@.last() == '/') {
            path@.push('/')
        } else {
            path@
        }),
{
    let chars = text::chars_of(path);
    let mut spec = path.to_owned();
    if is_dir && !(chars.len() > 0 && chars[chars.len() - 1] == '/') {
        spec.push('/');
    }
    spec
}

} // verus!
