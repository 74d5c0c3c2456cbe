//! What holds of every list of changed files.
use crate::git::diff;
use crate::git::diff::{
    CommitDiffInfo, DeltaRecord, DeltaStatus, DeltaView, FileChangeKind, FileView, LineStats, PatchSource, Recreated,
    RefreshInput, RefreshView, ScanView, StatusRecord, WorkingTreeScan,
};
use crate::paths;
use crate::search;
use vstd::prelude::*;

verus! {

/// The path under which a delta shows a file: the old one of a deletion, the new
/// one of every other change; none where nothing is shown.
pub open spec fn delta_path(d: DeltaView) -> Option<Seq<u8>> {
    if d.status == DeltaStatus::Deleted {
        d.old_path
    } else if d.status == DeltaStatus::Unmodified || d.status == DeltaStatus::Ignored || d.status
        == DeltaStatus::Unreadable {
        None
    } else {
        d.new_path
    }
}

/// A delta shows a change of `path`.
pub open spec fn shows(d: DeltaView, path: Seq<u8>) -> bool {
    delta_path(d) is Some && paths::path_rank(delta_path(d)->0) == paths::path_rank(path)
}

/// A delta's own figures; a binary file has no lines.
pub open spec fn figures(d: DeltaView, f: FileView) -> bool {
    &&& f.is_binary == d.is_binary
    &&& d.is_binary ==> f.insertions == 0 && f.deletions == 0
    &&& !d.is_binary ==> f.insertions == d.insertions && f.deletions == d.deletions
}

/// A delta is shown as what it is: an untracked file as added, a change of type
/// and a conflict as modified, with the delta's own lines.
pub proof fn law_deltas_are_shown_as_what_they_are(d: DeltaView)
    ensures
        diff::shown_file(d) is Some <==> delta_path(d) is Some,
        diff::shown_file(d) matches Some(f) ==> Some(f.path) == delta_path(d) && figures(d, f) && (match d.status {
            DeltaStatus::Added => f.kind == FileChangeKind::Added,
            DeltaStatus::Untracked => f.kind == FileChangeKind::Added,
            DeltaStatus::Deleted => f.kind == FileChangeKind::Deleted,
            DeltaStatus::Modified => f.kind == FileChangeKind::Modified,
            DeltaStatus::Typechange => f.kind == FileChangeKind::Modified,
            DeltaStatus::Conflicted => f.kind == FileChangeKind::Modified,
            DeltaStatus::Renamed => f.kind == FileChangeKind::Renamed,
            DeltaStatus::Copied => f.kind == FileChangeKind::Copied,
            _ => false,
        }),
{
}

/// Each delta that shows something adds its file to the end of the list, and no
/// other does.
pub proof fn law_files_follow_the_deltas(ds: Seq<DeltaView>, n: nat)
    requires
        n < ds.len(),
    ensures
        diff::shown_files(ds, 0).len() == 0,
        delta_path(ds[n as int]) is None ==> diff::shown_files(ds, n + 1) == diff::shown_files(ds, n),
        delta_path(ds[n as int]) is Some ==> diff::shown_files(ds, n + 1).drop_last() == diff::shown_files(ds, n)
            && Some(diff::shown_files(ds, n + 1).last().path) == delta_path(ds[n as int]) && figures(
            ds[n as int],
            diff::shown_files(ds, n + 1).last(),
        ),
{
    law_deltas_are_shown_as_what_they_are(ds[n as int]);
    if delta_path(ds[n as int]) is Some {
        assert(diff::shown_files(ds, n + 1).drop_last() =~= diff::shown_files(ds, n));
    }
}

/// The sums of figures count every file once.
pub proof fn law_sums_count_every_file_once(fs: Seq<FileView>, f: FileView)
    ensures
        diff::inserted(Seq::<FileView>::empty()) == 0,
        diff::deleted(Seq::<FileView>::empty()) == 0,
        diff::inserted(fs.push(f)) == diff::inserted(fs) + f.insertions,
        diff::deleted(fs.push(f)) == diff::deleted(fs) + f.deletions,
{
    assert(fs.push(f).drop_last() =~= fs);
}

/// The last delta about `path` is number `i`.
pub open spec fn last_about(ds: Seq<DeltaView>, path: Seq<u8>, i: int) -> bool {
    0 <= i < ds.len() && shows(ds[i], path) && forall|j: int| i < j < ds.len() ==> !shows(#[trigger] ds[j], path)
}

/// No delta is about `path`.
pub open spec fn none_about(ds: Seq<DeltaView>, path: Seq<u8>) -> bool {
    forall|j: int| 0 <= j < ds.len() ==> !shows(#[trigger] ds[j], path)
}

proof fn lemma_delta_index(ds: Seq<DeltaView>, path: Seq<u8>, n: nat)
    requires
        n <= ds.len(),
    ensures
        match diff::delta_index(ds, path, n) {
            Some(i) => 0 <= i < n && shows(ds[i], path) && forall|j: int| i < j < n ==> !shows(#[trigger] ds[j], path),
            None => forall|j: int| 0 <= j < n ==> !shows(#[trigger] ds[j], path),
        },
    decreases n,
{
    if n > 0 {
        lemma_delta_index(ds, path, (n - 1) as nat);
        law_deltas_are_shown_as_what_they_are(ds[n - 1]);
    }
}

/// Why a file's figures are taken from the diff between HEAD and the working
/// tree: it was deleted and created anew, its lines are counted later, it was
/// changed in the index and again in the working tree, or it has no figures yet.
pub open spec fn figures_due(r: RefreshView, f: FileView) -> bool {
    ||| r.anew.contains(paths::path_rank(f.path))
    ||| r.deferred.contains(paths::path_rank(f.path))
    ||| r.both.contains(paths::path_rank(f.path))
    ||| !f.is_binary && f.insertions == 0 && f.deletions == 0
}

/// A file that is not deleted, and whose figures are due, is shown with exactly
/// the figures that the last delta about its path gives between HEAD and the
/// working tree. An untracked text file so shows as many insertions as its delta
/// has lines.
pub proof fn law_due_figures_are_those_of_the_working_tree(r: RefreshView, f: FileView, i: int)
    requires
        f.kind != FileChangeKind::Deleted,
        figures_due(r, f),
        !r.anew.contains(paths::path_rank(f.path)),
        last_about(r.worktree, f.path, i),
    ensures
        figures(r.worktree[i], diff::refreshed(r, f)),
        diff::refreshed(r, f).path == f.path,
        diff::refreshed(r, f).kind == f.kind,
{
    lemma_delta_index(r.worktree, f.path, r.worktree.len());
    assert(shows(r.worktree[i], f.path));
    law_deltas_are_shown_as_what_they_are(r.worktree[i]);
}

/// Where HEAD and the working tree agree on such a file, its figures are those of
/// the index, and without a staged change there are none.
pub proof fn law_due_figures_fall_back_on_the_index(r: RefreshView, f: FileView, i: int)
    requires
        f.kind != FileChangeKind::Deleted,
        figures_due(r, f),
        none_about(r.worktree, f.path),
    ensures
        last_about(r.staged, f.path, i) ==> figures(r.staged[i], diff::refreshed(r, f)),
        none_about(r.staged, f.path) ==> !diff::refreshed(r, f).is_binary && diff::refreshed(r, f).insertions == 0
            && diff::refreshed(r, f).deletions == 0,
        diff::refreshed(r, f).path == f.path,
        diff::refreshed(r, f).kind == f.kind,
{
    lemma_delta_index(r.worktree, f.path, r.worktree.len());
    lemma_delta_index(r.staged, f.path, r.staged.len());
    if diff::delta_index(r.worktree, f.path, r.worktree.len()) is Some {
        let j = diff::delta_index(r.worktree, f.path, r.worktree.len())->0;
        assert(shows(r.worktree[j], f.path));
    }
    if last_about(r.staged, f.path, i) {
        assert(shows(r.staged[i], f.path));
        law_deltas_are_shown_as_what_they_are(r.staged[i]);
    }
    if none_about(r.staged, f.path) {
        match diff::delta_index(r.staged, f.path, r.staged.len()) {
            Some(j) => {
                assert(shows(r.staged[j], f.path));
            },
            None => {},
        }
    }
}

/// A deleted file, and one whose figures are not due, is shown as it was.
pub proof fn law_other_files_are_left_alone(r: RefreshView, f: FileView)
    requires
        f.kind == FileChangeKind::Deleted || !figures_due(r, f),
    ensures
        diff::refreshed(r, f) == f,
{
}

/// A path deleted and created anew: a new text that was binary counts line by
/// line, a new binary counts nothing, and text for text counts as the diff says.
pub proof fn law_recreated_files(was: bool, now: bool, lines: usize, stats: LineStats)
    ensures
        diff::recreated_stats(None, now, lines, stats) == stats,
        now ==> diff::recreated_stats(Some(was), now, lines, stats).is_binary && diff::recreated_stats(
            Some(was),
            now,
            lines,
            stats,
        ).insertions == 0 && diff::recreated_stats(Some(was), now, lines, stats).deletions == 0,
        was && !now ==> !diff::recreated_stats(Some(was), now, lines, stats).is_binary && diff::recreated_stats(
            Some(was),
            now,
            lines,
            stats,
        ).insertions == lines && diff::recreated_stats(Some(was), now, lines, stats).deletions == 0,
        !was && !now ==> diff::recreated_stats(Some(was), now, lines, stats) == stats,
{
}

/// Which recreated paths get that treatment: those among the ones created anew,
/// by the first record of the path.
pub proof fn law_recreated_files_are_shown_so(r: RefreshView, f: FileView, i: int, k: int)
    requires
        f.kind != FileChangeKind::Deleted,
        r.anew.contains(paths::path_rank(f.path)),
        last_about(r.worktree, f.path, i),
        0 <= k < r.recreated.len(),
        paths::path_rank(r.recreated[k].path) == paths::path_rank(f.path),
        forall|j: int| 0 <= j < k ==> paths::path_rank((#[trigger] r.recreated[j]).path) != paths::path_rank(f.path),
    ensures
        r.recreated[k].was_binary is None ==> figures(r.worktree[i], diff::refreshed(r, f)),
        r.recreated[k].was_binary == Some(false) && !r.recreated[k].is_binary ==> figures(
            r.worktree[i],
            diff::refreshed(r, f),
        ),
        r.recreated[k].was_binary is Some && r.recreated[k].is_binary ==> diff::refreshed(r, f).is_binary
            && diff::refreshed(r, f).insertions == 0 && diff::refreshed(r, f).deletions == 0,
        r.recreated[k].was_binary == Some(true) && !r.recreated[k].is_binary ==> !diff::refreshed(r, f).is_binary
            && diff::refreshed(r, f).insertions == r.recreated[k].lines && diff::refreshed(r, f).deletions == 0,
{
    lemma_delta_index(r.worktree, f.path, r.worktree.len());
    assert(shows(r.worktree[i], f.path));
    law_deltas_are_shown_as_what_they_are(r.worktree[i]);
    let rs = r.recreated;
    let path = f.path;
    let p = |i: int| paths::path_rank(rs[i].path) == paths::path_rank(path);
    assert forall|j: int| 0 <= j < k implies !#[trigger] p(j) by {
        assert(paths::path_rank(rs[j].path) != paths::path_rank(path));
    }
    assert(p(k));
    search::lemma_first_such(rs.len() as int, p, k);
}

/// What the working-tree deltas among the first `n` say of the first `m` files,
/// in all.
spec fn worth(files: Seq<FileView>, ds: Seq<DeltaView>, n: nat, m: nat) -> (int, int)
    decreases m,
{
    if m == 0 {
        (0, 0)
    } else {
        let rest = worth(files, ds, n, (m - 1) as nat);
        match diff::delta_index(ds, files[m - 1].path, n) {
            Some(i) => (
                rest.0 + (diff::shown_file(ds[i])->0).insertions,
                rest.1 + (diff::shown_file(ds[i])->0).deletions,
            ),
            None => rest,
        }
    }
}

proof fn lemma_worth_none(files: Seq<FileView>, ds: Seq<DeltaView>, m: nat)
    ensures
        worth(files, ds, 0, m) == (0int, 0int),
    decreases m,
{
    if m > 0 {
        lemma_worth_none(files, ds, (m - 1) as nat);
    }
}

proof fn lemma_worth_skip(files: Seq<FileView>, ds: Seq<DeltaView>, n: nat, m: nat)
    requires
        n < ds.len(),
        diff::shown_file(ds[n as int]) is None,
    ensures
        worth(files, ds, n + 1, m) == worth(files, ds, n, m),
    decreases m,
{
    if m > 0 {
        lemma_worth_skip(files, ds, n, (m - 1) as nat);
    }
}

proof fn lemma_worth_one(files: Seq<FileView>, ds: Seq<DeltaView>, n: nat, m: nat, k: int)
    requires
        n < ds.len(),
        m <= files.len(),
        diff::distinct_paths(files),
        diff::shown_file(ds[n as int]) is Some,
        0 <= k < files.len(),
        shows(ds[n as int], files[k].path),
        diff::delta_index(ds, files[k].path, n) is None,
    ensures
        worth(files, ds, n + 1, m).0 == worth(files, ds, n, m).0 + (if k < m {
            (diff::shown_file(ds[n as int])->0).insertions as int
        } else {
            0
        }),
        worth(files, ds, n + 1, m).1 == worth(files, ds, n, m).1 + (if k < m {
            (diff::shown_file(ds[n as int])->0).deletions as int
        } else {
            0
        }),
    decreases m,
{
    law_deltas_are_shown_as_what_they_are(ds[n as int]);
    if m > 0 {
        lemma_worth_one(files, ds, n, (m - 1) as nat, k);
        if k != m - 1 {
            assert(paths::path_rank(files[k].path) != paths::path_rank(files[m - 1].path));
        }
    }
}

/// The deltas are about different paths, each that of some file.
pub open spec fn accounted(files: Seq<FileView>, ds: Seq<DeltaView>) -> bool {
    &&& forall|i: int, j: int, path: Seq<u8>|
        0 <= i < ds.len() && 0 <= j < ds.len() && #[trigger] shows(ds[i], path) && #[trigger] shows(ds[j], path) ==> i
            == j
    &&& forall|i: int|
        0 <= i < ds.len() && #[trigger] delta_path(ds[i]) is Some ==> exists|k: int|
            0 <= k < files.len() && paths::path_rank((#[trigger] files[k]).path) == paths::path_rank(
                delta_path(ds[i])->0,
            )
}

proof fn lemma_worth_all(files: Seq<FileView>, ds: Seq<DeltaView>, n: nat)
    requires
        n <= ds.len(),
        diff::distinct_paths(files),
        accounted(files, ds),
    ensures
        worth(files, ds, n, files.len()) == (
            diff::inserted(diff::shown_files(ds, n)),
            diff::deleted(diff::shown_files(ds, n)),
        ),
    decreases n,
{
    if n == 0 {
        lemma_worth_none(files, ds, files.len());
    } else {
        let m = (n - 1) as nat;
        lemma_worth_all(files, ds, m);
        law_deltas_are_shown_as_what_they_are(ds[m as int]);
        match diff::shown_file(ds[m as int]) {
            None => {
                lemma_worth_skip(files, ds, m, files.len());
            },
            Some(f) => {
                law_sums_count_every_file_once(diff::shown_files(ds, m), f);
                assert(delta_path(ds[m as int]) is Some);
                let k = choose|k: int|
                    0 <= k < files.len() && paths::path_rank((#[trigger] files[k]).path) == paths::path_rank(
                        delta_path(ds[m as int])->0,
                    );
                lemma_delta_index(ds, files[k].path, m);
                assert(shows(ds[m as int], files[k].path));
                lemma_worth_one(files, ds, m, files.len(), k);
            },
        }
    }
}

/// A file that keeps its figures has those of the working-tree diff.
pub open spec fn settled(r: RefreshView, f: FileView) -> bool {
    f.kind != FileChangeKind::Deleted && figures_due(r, f) || exists|i: int|
        last_about(r.worktree, f.path, i) && f.insertions == (if r.worktree[i].is_binary {
            0
        } else {
            r.worktree[i].insertions as int
        }) && f.deletions == (if r.worktree[i].is_binary {
            0
        } else {
            r.worktree[i].deletions as int
        })
}

proof fn lemma_running(r: RefreshView, files: Seq<FileView>, totals: (int, int), n: nat)
    requires
        n <= files.len(),
        r.anew == Set::<Seq<u16>>::empty(),
        forall|i: int| 0 <= i < files.len() ==> settled(r, #[trigger] files[i]),
    ensures
        ({
            let shown = files.take(n as int).map_values(|f: FileView| diff::refreshed(r, f));
            let t = diff::running(r, files, totals, n);
            let w = worth(files, r.worktree, r.worktree.len(), n);
            &&& diff::inserted(shown) == t.0 - totals.0 + w.0
            &&& diff::deleted(shown) == t.1 - totals.1 + w.1
        }),
    decreases n,
{
    let shown = files.take(n as int).map_values(|f: FileView| diff::refreshed(r, f));
    if n > 0 {
        let before = files.take(n - 1).map_values(|f: FileView| diff::refreshed(r, f));
        lemma_running(r, files, totals, (n - 1) as nat);
        let f = files[n - 1];
        assert(shown =~= before.push(diff::refreshed(r, f)));
        law_sums_count_every_file_once(before, diff::refreshed(r, f));
        lemma_delta_index(r.worktree, f.path, r.worktree.len());
        assert(settled(r, f));
        match diff::delta_index(r.worktree, f.path, r.worktree.len()) {
            Some(i) => {
                law_deltas_are_shown_as_what_they_are(r.worktree[i]);
                if !(f.kind != FileChangeKind::Deleted && figures_due(r, f)) {
                    let k = choose|i: int|
                        last_about(r.worktree, f.path, i) && f.insertions == (if r.worktree[i].is_binary {
                            0
                        } else {
                            r.worktree[i].insertions as int
                        }) && f.deletions == (if r.worktree[i].is_binary {
                            0
                        } else {
                            r.worktree[i].deletions as int
                        });
                    assert(shows(r.worktree[k], f.path));
                    assert(shows(r.worktree[i], f.path));
                    assert(i == k);
                }
            },
            None => {
                if !(f.kind != FileChangeKind::Deleted && figures_due(r, f)) {
                    let k = choose|i: int|
                        last_about(r.worktree, f.path, i) && f.insertions == (if r.worktree[i].is_binary {
                            0
                        } else {
                            r.worktree[i].insertions as int
                        }) && f.deletions == (if r.worktree[i].is_binary {
                            0
                        } else {
                            r.worktree[i].deletions as int
                        });
                    assert(shows(r.worktree[k], f.path));
                }
            },
        }
    }
}

/// Where no path is created anew, every changed path of the working tree has its
/// file, and the totals start as those of the diff between HEAD and the working
/// tree, the figures of the files add up to the totals.
pub proof fn law_figures_add_up_to_the_totals(r: RefreshView, files: Seq<FileView>, totals: (int, int))
    requires
        r.anew == Set::<Seq<u16>>::empty(),
        diff::distinct_paths(files),
        accounted(files, r.worktree),
        forall|i: int| 0 <= i < files.len() ==> settled(r, #[trigger] files[i]),
        totals.0 == diff::inserted(diff::shown_files(r.worktree, r.worktree.len())),
        totals.1 == diff::deleted(diff::shown_files(r.worktree, r.worktree.len())),
    ensures
        ({
            let shown = files.map_values(|f: FileView| diff::refreshed(r, f));
            let t = diff::running(r, files, totals, files.len());
            t.0 == diff::inserted(shown) && t.1 == diff::deleted(shown)
        }),
{
    lemma_running(r, files, totals, files.len());
    lemma_worth_all(files, r.worktree, r.worktree.len());
    assert(files.take(files.len() as int) =~= files);
}

/// What is shown of a scan: all its files up to fifty, the first fifty of more,
/// every changed path counted, and a mark exactly where there are more than fifty.
pub proof fn law_fifty_files_are_shown(scan: ScanView, totals: (int, int), info: CommitDiffInfo, i: int)
    requires
        diff::info_of(scan, totals, info),
    ensures
        info.files@.len() == (if scan.files.len() <= 50 {
            scan.files.len() as int
        } else {
            50
        }),
        0 <= i < info.files@.len() ==> info.files@[i]@ == scan.files[i],
        info.total_files == scan.all.len(),
        info.truncated <==> scan.all.len() > 50,
        info.total_insertions == totals.0,
        info.total_deletions == totals.1,
{
    let fs = diff::files_view(info.files@);
    assert(fs.len() == info.files@.len());
    if 0 <= i < info.files@.len() {
        assert(fs[i] == info.files@[i]@);
    }
}

/// Files above ten mebibytes are not read for their lines.
pub proof fn law_ten_mebibytes_are_read()
    ensures
        diff::MAX_TEXT_FILE_SIZE == 10_485_760,
{
}

/// Two changes of one path are one: deleted and created anew is modified; added
/// and then deleted stays added, and any other later deletion wins; otherwise the
/// first change names the kind. The lines of both count. What the path is now
/// says whether it is binary, and a deletion only adds to that.
pub proof fn law_two_changes_of_a_path(was: FileView, f: FileView)
    requires
        was.insertions + f.insertions <= usize::MAX,
        was.deletions + f.deletions <= usize::MAX,
    ensures
        ({
            let c = diff::combined(was, f);
            &&& c.path == was.path
            &&& was.kind == FileChangeKind::Deleted && f.kind == FileChangeKind::Added ==> c.kind
                == FileChangeKind::Modified
            &&& was.kind == FileChangeKind::Added && f.kind == FileChangeKind::Deleted ==> c.kind
                == FileChangeKind::Added
            &&& was.kind != FileChangeKind::Added && f.kind == FileChangeKind::Deleted ==> c.kind
                == FileChangeKind::Deleted
            &&& f.kind != FileChangeKind::Deleted && !(was.kind == FileChangeKind::Deleted && f.kind
                == FileChangeKind::Added) ==> c.kind == was.kind
            &&& f.kind != FileChangeKind::Deleted ==> c.is_binary == f.is_binary
            &&& f.kind == FileChangeKind::Deleted ==> c.is_binary == (was.is_binary || f.is_binary)
            &&& c.insertions == was.insertions + f.insertions
            &&& c.deletions == was.deletions + f.deletions
        }),
{
}

/// Some file has `path`.
pub open spec fn has_path(files: Seq<FileView>, path: Seq<u8>) -> bool {
    exists|i: int| 0 <= i < files.len() && paths::path_rank((#[trigger] files[i]).path) == paths::path_rank(path)
}

proof fn lemma_file_index(files: Seq<FileView>, path: Seq<u8>)
    ensures
        match diff::file_index(files, path) {
            Some(i) => 0 <= i < files.len() && paths::path_rank(files[i].path) == paths::path_rank(path),
            None => !has_path(files, path),
        },
{
    let p = |i: int| paths::path_rank(files[i].path) == paths::path_rank(path);
    search::lemma_first_such_holds(files.len() as int, p);
    if diff::file_index(files, path) is None && has_path(files, path) {
        let i = choose|i: int|
            0 <= i < files.len() && paths::path_rank((#[trigger] files[i]).path) == paths::path_rank(path);
        assert(!p(i));
    }
}

/// A change of a path that is listed joins it there; one of a new path goes to the
/// end of the list. A path is noted as created anew exactly if it was listed as
/// deleted and comes as added.
pub proof fn law_merging_one_change(files: Seq<FileView>, anew: Set<Seq<u16>>, f: FileView, i: int)
    requires
        diff::distinct_paths(files),
    ensures
        !has_path(files, f.path) ==> diff::merge_file(files, anew, f) == (files.push(f), anew),
        0 <= i < files.len() && paths::path_rank(files[i].path) == paths::path_rank(f.path) ==> {
            let (fs, a) = diff::merge_file(files, anew, f);
            &&& fs == files.update(i, diff::combined(files[i], f))
            &&& files[i].kind == FileChangeKind::Deleted && f.kind == FileChangeKind::Added ==> a == anew.insert(
                paths::path_rank(f.path),
            )
            &&& !(files[i].kind == FileChangeKind::Deleted && f.kind == FileChangeKind::Added) ==> a == anew
        },
{
    lemma_file_index(files, f.path);
}

proof fn lemma_merged_paths(files: Seq<FileView>, anew: Set<Seq<u16>>, more: Seq<FileView>, n: nat, path: Seq<u8>)
    requires
        n <= more.len(),
    ensures
        has_path(diff::merge_files(files, anew, more, n).0, path) <==> has_path(files, path) || has_path(
            more.take(n as int),
            path,
        ),
    decreases n,
{
    if n > 0 {
        lemma_merged_paths(files, anew, more, (n - 1) as nat, path);
        let (fs, a) = diff::merge_files(files, anew, more, (n - 1) as nat);
        let f = more[n - 1];
        lemma_file_index(fs, f.path);
        let out = diff::merge_file(fs, a, f).0;
        let some = more.take(n as int);
        let less = more.take(n - 1);
        if has_path(less, path) {
            let i = choose|i: int|
                0 <= i < less.len() && paths::path_rank((#[trigger] less[i]).path) == paths::path_rank(path);
            assert(some[i] == less[i]);
        }
        assert(some[n - 1] == f);
        if has_path(some, path) {
            let i = choose|i: int|
                0 <= i < some.len() && paths::path_rank((#[trigger] some[i]).path) == paths::path_rank(path);
            if i < n - 1 {
                assert(less[i] == some[i]);
            }
        }
        if has_path(fs, path) {
            let i = choose|i: int|
                0 <= i < fs.len() && paths::path_rank((#[trigger] fs[i]).path) == paths::path_rank(path);
            assert(out[i].path == fs[i].path);
        }
        if has_path(out, path) {
            let i = choose|i: int|
                0 <= i < out.len() && paths::path_rank((#[trigger] out[i]).path) == paths::path_rank(path);
            if i < fs.len() {
                assert(out[i].path == fs[i].path);
            }
        }
        match diff::file_index(fs, f.path) {
            Some(i) => {
                assert(out[i].path == fs[i].path);
            },
            None => {
                assert(out[fs.len() as int] == f);
            },
        }
    }
}

/// The staged, the unstaged and the untracked changes together show every path of
/// the three and no other; a path counts, or is counted later, if it does in any
/// of them.
pub proof fn law_merged_scan_holds_every_path(a: ScanView, b: ScanView, c: ScanView, path: Seq<u8>)
    ensures
        ({
            let m = diff::merged_scan(a, b, c).0;
            let rank = paths::path_rank(path);
            &&& has_path(m.files, path) <==> has_path(a.files, path) || has_path(b.files, path) || has_path(
                c.files,
                path,
            )
            &&& m.all.contains(rank) <==> a.all.contains(rank) || b.all.contains(rank) || c.all.contains(rank)
            &&& m.deferred.contains(rank) <==> a.deferred.contains(rank) || b.deferred.contains(rank)
                || c.deferred.contains(rank)
        }),
{
    let none = Seq::<FileView>::empty();
    let (f1, s1) = diff::merge_files(none, Set::empty(), a.files, a.files.len());
    let (f2, s2) = diff::merge_files(f1, s1, b.files, b.files.len());
    lemma_merged_paths(none, Set::empty(), a.files, a.files.len(), path);
    lemma_merged_paths(f1, s1, b.files, b.files.len(), path);
    lemma_merged_paths(f2, s2, c.files, c.files.len(), path);
    assert(a.files.take(a.files.len() as int) =~= a.files);
    assert(b.files.take(b.files.len() as int) =~= b.files);
    assert(c.files.take(c.files.len() as int) =~= c.files);
}

/// Which files are read for their lines: added texts without insertions that are
/// not counted later.
pub proof fn law_files_read_for_their_lines(f: FileView, deferred: Set<Seq<u16>>)
    ensures
        diff::lines_missing(f, deferred) ==> f.kind == FileChangeKind::Added && !f.is_binary && f.insertions == 0
            && !deferred.contains(paths::path_rank(f.path)),
        f.kind == FileChangeKind::Added && !f.is_binary && f.insertions == 0 && !deferred.contains(
            paths::path_rank(f.path),
        ) ==> diff::lines_missing(f, deferred),
{
}

/// The untracked files are the new entries that are no directories, in order.
pub proof fn law_untracked_files(ss: Seq<StatusRecord>, n: nat)
    requires
        n < ss.len(),
    ensures
        diff::untracked_paths(ss, 0).len() == 0,
        ss[n as int].is_new && !ss[n as int].is_directory ==> diff::untracked_paths(ss, n + 1)
            == diff::untracked_paths(ss, n).push(ss[n as int].path@),
        !ss[n as int].is_new || ss[n as int].is_directory ==> diff::untracked_paths(ss, n + 1)
            == diff::untracked_paths(ss, n),
{
}

/// Untracked files are shown as added, up to the limit and in order; their lines
/// are counted later, and every one of them counts.
pub proof fn law_untracked_files_are_shown(list: Seq<Seq<u8>>, limit: nat, i: int)
    ensures
        ({
            let scan = diff::untracked_scan(list, limit);
            &&& scan.files.len() == (if list.len() <= limit {
                list.len()
            } else {
                limit
            })
            &&& 0 <= i < list.len() ==> scan.all.contains(paths::path_rank(list[i]))
            &&& 0 <= i < scan.files.len() ==> {
                let f = scan.files[i];
                &&& f.path == list[i]
                &&& f.kind == FileChangeKind::Added
                &&& !f.is_binary
                &&& f.insertions == 0
                &&& f.deletions == 0
                &&& scan.deferred.contains(paths::path_rank(f.path))
            }
        }),
{
    let shown = if list.len() <= limit {
        list
    } else {
        list.take(limit as int)
    };
    if 0 <= i < list.len() {
        assert(diff::ranks(list)[i] == paths::path_rank(list[i]));
        assert(diff::ranks(list).contains(paths::path_rank(list[i])));
    }
    if 0 <= i < shown.len() {
        assert(diff::ranks(shown)[i] == paths::path_rank(shown[i]));
        assert(diff::ranks(shown).contains(paths::path_rank(shown[i])));
    }
}

proof fn lemma_newlines_append(a: Seq<u8>, b: Seq<u8>)
    ensures
        diff::newlines(a + b) == diff::newlines(a) + diff::newlines(b),
    decreases b.len(),
{
    if b.len() == 0 {
        assert(a + b =~= a);
    } else {
        lemma_newlines_append(a, b.drop_last());
        assert((a + b).drop_last() =~= a + b.drop_last());
    }
}

proof fn lemma_no_newlines(a: Seq<u8>)
    requires
        !a.contains(10u8),
    ensures
        diff::newlines(a) == 0,
    decreases a.len(),
{
    if a.len() > 0 {
        assert(a[a.len() - 1] != 10);
        assert forall|i: int| 0 <= i < a.len() - 1 implies a.drop_last()[i] != 10 by {
            assert(a[i] != 10);
        }
        lemma_no_newlines(a.drop_last());
    }
}

/// Lines end in a line feed: nothing has no lines, each finished line is one, and
/// so is an unfinished last one.
pub proof fn law_lines_end_in_a_line_feed(line: Seq<u8>, rest: Seq<u8>)
    requires
        !line.contains(10u8),
    ensures
        diff::line_count(line + seq![10u8] + rest) == 1 + diff::line_count(rest),
        line.len() == 0 ==> diff::line_count(line) == 0,
        line.len() > 0 ==> diff::line_count(line) == 1,
{
    let one = seq![10u8];
    lemma_no_newlines(line);
    lemma_newlines_append(line, one);
    lemma_newlines_append(line + one, rest);
    assert(one.drop_last() =~= Seq::<u8>::empty());
    assert(diff::newlines(Seq::<u8>::empty()) == 0);
    assert(diff::newlines(one) == 1);
    if line.len() > 0 {
        assert(line[line.len() - 1] == line.last());
    }
    let all = line + one + rest;
    if rest.len() == 0 {
        assert(all.last() == 10);
    } else {
        assert(all.last() == rest.last());
    }
}

/// A patch of a working-tree file is looked for in index and working tree
/// together, then in each, then, for a file that is there, among the untracked,
/// then with `git diff`, and for a plain file against nothing.
pub proof fn law_order_of_patch_sources(exists: bool, is_file: bool)
    ensures
        diff::next_source(None, exists, is_file) == Some(PatchSource::Combined),
        diff::next_source(Some(PatchSource::Combined), exists, is_file) == Some(PatchSource::StagedThenUnstaged),
        diff::next_source(Some(PatchSource::StagedThenUnstaged), true, is_file) == Some(PatchSource::Untracked),
        diff::next_source(Some(PatchSource::StagedThenUnstaged), false, is_file) == Some(PatchSource::GitDiff),
        diff::next_source(Some(PatchSource::Untracked), exists, is_file) == Some(PatchSource::GitDiff),
        diff::next_source(Some(PatchSource::GitDiff), exists, true) == Some(PatchSource::GitNoIndex),
        diff::next_source(Some(PatchSource::GitDiff), exists, false) is None,
        diff::next_source(Some(PatchSource::GitNoIndex), exists, is_file) is None,
{
}

/// A command's output counts if it succeeded; a comparison outside the index also
/// says with exit code one that there are differences.
pub proof fn law_outputs_that_count(source: PatchSource, success: bool, code: Option<i32>)
    ensures
        success ==> diff::output_counts(source, success, code),
        !success && source != PatchSource::GitNoIndex ==> !diff::output_counts(source, success, code),
        !success && source == PatchSource::GitNoIndex ==> (diff::output_counts(source, success, code) <==> code == Some(
            1i32,
        )),
{
}

/// A diff is scanned as it is: each of its deltas is a file, in order, no line is
/// left to count, and the paths of its files are the paths that changed.
pub proof fn law_a_diff_is_scanned_as_it_is(ds: Seq<DeltaView>, rank: Seq<u16>)
    ensures
        diff::diff_scan(ds).files == diff::shown_files(ds, ds.len()),
        diff::diff_scan(ds).deferred == Set::<Seq<u16>>::empty(),
        diff::diff_scan(ds).all.contains(rank) <==> exists|i: int|
            0 <= i < diff::diff_scan(ds).files.len() && paths::path_rank(
                (#[trigger] diff::diff_scan(ds).files[i]).path,
            ) == rank,
{
    lemma_paths_of(diff::diff_scan(ds).files, rank);
}

proof fn lemma_paths_of(fs: Seq<FileView>, rank: Seq<u16>)
    ensures
        diff::paths_of(fs).contains(rank) <==> exists|i: int|
            0 <= i < fs.len() && paths::path_rank((#[trigger] fs[i]).path) == rank,
    decreases fs.len(),
{
    if fs.len() > 0 {
        let rest = fs.drop_last();
        lemma_paths_of(rest, rank);
        if diff::paths_of(rest).contains(rank) {
            let i = choose|i: int| 0 <= i < rest.len() && paths::path_rank((#[trigger] rest[i]).path) == rank;
            assert(fs[i] == rest[i]);
        }
        if paths::path_rank(fs.last().path) == rank {
            assert(paths::path_rank(fs[fs.len() - 1].path) == rank);
        }
        if exists|i: int| 0 <= i < fs.len() && paths::path_rank((#[trigger] fs[i]).path) == rank {
            let i = choose|i: int| 0 <= i < fs.len() && paths::path_rank((#[trigger] fs[i]).path) == rank;
            if i < rest.len() {
                assert(rest[i] == fs[i]);
            }
        }
    }
}

/// What a refresh reads: the lines that the working tree has over HEAD, then
/// those that the index has, the paths that the scan found changed on both sides,
/// created anew or not yet counted, and what became of the ones created anew.
pub proof fn law_what_a_refresh_reads(
    ws: WorkingTreeScan,
    worktree: Seq<DeltaRecord>,
    staged: Seq<DeltaRecord>,
    recreated: Seq<Recreated>,
    i: int,
)
    ensures
        ({
            let r = diff::working_tree_refresh(ws, worktree, staged, recreated);
            &&& r.worktree.len() == worktree.len()
            &&& r.staged.len() == staged.len()
            &&& r.recreated.len() == recreated.len()
            &&& 0 <= i < worktree.len() ==> r.worktree[i] == worktree[i]@
            &&& 0 <= i < staged.len() ==> r.staged[i] == staged[i]@
            &&& 0 <= i < recreated.len() ==> r.recreated[i] == recreated[i]@
            &&& r.both == ws.both@
            &&& r.anew == ws.anew@
            &&& r.deferred == ws.scan@.deferred
        }),
{
}

/// Nothing is mixed up on the way into a refresh.
pub proof fn law_what_is_handed_to_a_refresh<'a>(input: RefreshInput<'a>, deferred: Set<Seq<u16>>, i: int)
    ensures
        ({
            let r = input.with(deferred);
            &&& r.worktree.len() == input.worktree@.len()
            &&& r.staged.len() == input.staged@.len()
            &&& r.recreated.len() == input.recreated@.len()
            &&& 0 <= i < input.worktree@.len() ==> r.worktree[i] == input.worktree@[i]@
            &&& 0 <= i < input.staged@.len() ==> r.staged[i] == input.staged@[i]@
            &&& 0 <= i < input.recreated@.len() ==> r.recreated[i] == input.recreated@[i]@
            &&& r.both == input.both@
            &&& r.anew == input.anew@
            &&& r.deferred == deferred
        }),
{
}

proof fn lemma_merge_prefix(files: Seq<FileView>, anew: Set<Seq<u16>>, more: Seq<FileView>, f: FileView, n: nat)
    requires
        n <= more.len(),
    ensures
        diff::merge_files(files, anew, more.push(f), n) == diff::merge_files(files, anew, more, n),
    decreases n,
{
    if n > 0 {
        lemma_merge_prefix(files, anew, more, f, (n - 1) as nat);
    }
}

/// The scans are merged in turn: the staged changes one by one, then the unstaged
/// ones, then the untracked files. Lines are left to count where one of the scans
/// leaves them.
pub proof fn law_scans_are_merged_in_turn(a: ScanView, b: ScanView, c: ScanView, f: FileView)
    ensures
        ({
            let none = ScanView { files: Seq::empty(), ..b };
            let rest = ScanView { files: Seq::empty(), ..c };
            let start = ScanView { files: Seq::empty(), ..a };
            let staged = diff::merged_scan(a, none, rest);
            let unstaged = diff::merged_scan(a, b, rest);
            let all = diff::merged_scan(a, b, c);
            let one_more = |s: ScanView| ScanView { files: s.files.push(f), ..s };
            let (more_a, anew_a) = diff::merged_scan(one_more(a), none, rest);
            let (more_b, anew_b) = diff::merged_scan(a, one_more(b), rest);
            let (more_c, anew_c) = diff::merged_scan(a, b, one_more(c));
            &&& diff::merged_scan(start, none, rest).0.files.len() == 0
            &&& diff::merged_scan(start, none, rest).1 == Set::<Seq<u16>>::empty()
            &&& (more_a.files, anew_a) == diff::merge_file(staged.0.files, staged.1, f)
            &&& (more_b.files, anew_b) == diff::merge_file(unstaged.0.files, unstaged.1, f)
            &&& (more_c.files, anew_c) == diff::merge_file(all.0.files, all.1, f)
        }),
        forall|rank: Seq<u16>| #[trigger]
            diff::merged_scan(a, b, c).0.deferred.contains(rank) <==> a.deferred.contains(rank)
                || b.deferred.contains(rank) || c.deferred.contains(rank),
{
    let nothing = Seq::<FileView>::empty();
    let (f1, s1) = diff::merge_files(nothing, Set::empty(), a.files, a.files.len());
    let (f2, s2) = diff::merge_files(f1, s1, b.files, b.files.len());
    lemma_merge_prefix(nothing, Set::empty(), a.files, f, a.files.len());
    lemma_merge_prefix(f1, s1, b.files, f, b.files.len());
    lemma_merge_prefix(f2, s2, c.files, f, c.files.len());
    assert(a.files.push(f)[a.files.len() as int] == f);
    assert(b.files.push(f)[b.files.len() as int] == f);
    assert(c.files.push(f)[c.files.len() as int] == f);
}

} // verus!
