use keifu::git::diff::{
    diff_pathspec, AttrState, CommandOutcome, CommitDiffInfo, DeltaRecord, DeltaStatus, FileChangeKind, FileMeta,
    LineCountStep, LineStats, PatchSearch, PatchSource, Recreated, RefreshInput, StatusRecord, MAX_FILES_TO_DISPLAY,
    MAX_TEXT_FILE_SIZE,
};

fn delta(status: DeltaStatus, path: &str, insertions: usize, deletions: usize) -> DeltaRecord {
    DeltaRecord {
        status,
        old_path: Some(path.as_bytes().to_vec()),
        new_path: Some(path.as_bytes().to_vec()),
        is_binary: false,
        insertions,
        deletions,
    }
}

fn untracked(path: &str) -> StatusRecord {
    StatusRecord { path: path.as_bytes().to_vec(), is_new: true, is_directory: false }
}

#[test]
fn deltas_become_files() {
    let info = CommitDiffInfo::from_commit(&[
        delta(DeltaStatus::Added, "new", 3, 0),
        delta(DeltaStatus::Unmodified, "same", 9, 9),
        delta(DeltaStatus::Conflicted, "both", 1, 2),
        delta(DeltaStatus::Deleted, "old", 0, 4),
    ]);
    let kinds: Vec<FileChangeKind> = info.files.iter().map(|f| f.kind).collect();
    assert_eq!(kinds, vec![FileChangeKind::Added, FileChangeKind::Modified, FileChangeKind::Deleted]);
    assert_eq!((info.total_insertions, info.total_deletions, info.total_files), (4, 6, 3));
    assert!(!info.truncated);
}

#[test]
fn long_lists_are_cut() {
    let deltas: Vec<DeltaRecord> =
        (0..MAX_FILES_TO_DISPLAY + 1).map(|n| delta(DeltaStatus::Added, &format!("f{n}"), 1, 0)).collect();
    let info = CommitDiffInfo::from_commit(&deltas);
    assert_eq!(info.files.len(), MAX_FILES_TO_DISPLAY);
    assert_eq!(info.total_files, MAX_FILES_TO_DISPLAY + 1);
    assert_eq!(info.total_insertions, MAX_FILES_TO_DISPLAY + 1);
    assert!(info.truncated);
}

#[test]
fn lines_are_counted_as_a_diff_counts_them() {
    assert_eq!(CommitDiffInfo::count_lines_in_bytes(b""), 0);
    assert_eq!(CommitDiffInfo::count_lines_in_bytes(b"a"), 1);
    assert_eq!(CommitDiffInfo::count_lines_in_bytes(b"a\nb\n"), 2);
    assert_eq!(CommitDiffInfo::count_lines_in_bytes(b"a\nb"), 2);
    assert_eq!(CommitDiffInfo::count_text_lines(b"a\0b"), None);
    assert_eq!(CommitDiffInfo::head_path_line_info(Some(b"a\0")), Some((true, 0)));
    assert_eq!(CommitDiffInfo::head_path_line_info(Some(b"a\n")), Some((false, 1)));
    assert_eq!(CommitDiffInfo::head_path_line_info(None), None);
    assert_eq!(CommitDiffInfo::worktree_path_line_info(true, Some(3)), (true, 0));
    assert_eq!(CommitDiffInfo::worktree_path_line_info(false, Some(3)), (false, 3));
}

#[test]
fn files_are_examined_before_they_are_read() {
    assert_eq!(CommitDiffInfo::line_count_step(FileMeta::Missing), LineCountStep::Done(Some(0)));
    assert_eq!(CommitDiffInfo::line_count_step(FileMeta::Directory), LineCountStep::Done(None));
    assert_eq!(CommitDiffInfo::line_count_step(FileMeta::Symlink), LineCountStep::ReadLink);
    assert_eq!(
        CommitDiffInfo::line_count_step(FileMeta::Regular(MAX_TEXT_FILE_SIZE)),
        LineCountStep::ReadFile
    );
    assert_eq!(
        CommitDiffInfo::line_count_step(FileMeta::Regular(MAX_TEXT_FILE_SIZE + 1)),
        LineCountStep::Done(None)
    );
    assert!(CommitDiffInfo::path_is_binary_by_attributes(AttrState::True, AttrState::Other));
    assert!(CommitDiffInfo::path_is_binary_by_attributes(AttrState::Other, AttrState::False));
    assert!(!CommitDiffInfo::path_is_binary_by_attributes(AttrState::False, AttrState::True));
}

#[test]
fn a_path_in_several_scans_is_counted_once() {
    let staged = [delta(DeltaStatus::Modified, "a", 1, 1)];
    let unstaged = [delta(DeltaStatus::Modified, "a", 2, 0), delta(DeltaStatus::Modified, "b", 5, 0)];
    let ws = CommitDiffInfo::scan_working_tree(&staged, &unstaged, &[untracked("c")]);
    assert_eq!(ws.scan.files.len(), 3);
    assert_eq!(ws.scan.all_paths.len(), 3);
    assert!(ws.both.contains(b"a"));
    assert!(!ws.both.contains(b"b"));
    let totals = ws.scan.line_totals();
    let worktree = [delta(DeltaStatus::Modified, "a", 3, 1), delta(DeltaStatus::Modified, "b", 5, 0)];
    let mut scan = ws.scan;
    let input = RefreshInput { worktree: &worktree, staged: &staged, both: &ws.both, anew: &ws.anew, recreated: &[] };
    assert!(CommitDiffInfo::refresh_fits(&scan, &input, totals));
    let corrected = CommitDiffInfo::refresh_worktree_stats(&mut scan, &input, totals);
    let a = scan.files.iter().find(|f| f.path == b"a").unwrap();
    assert_eq!((a.insertions, a.deletions), (3, 1));
    assert_eq!(corrected, scan.line_totals());
}

#[test]
fn recreated_files_are_counted_by_hand() {
    let zero = LineStats { is_binary: false, insertions: 0, deletions: 0 };
    let shown = CommitDiffInfo::fallback_recreated_path_stats(Some(true), false, 4, zero);
    assert_eq!(shown.insertions, 4);
    assert_eq!(CommitDiffInfo::fallback_recreated_path_stats(None, false, 4, zero), zero);
    let known = Recreated { path: b"a".to_vec(), was_binary: Some(true), is_binary: false, lines: 4 };
    assert_eq!(known.lines, 4);
}

#[test]
fn untracked_files_are_listed_up_to_a_limit() {
    let entries = [
        untracked("a"),
        untracked("b"),
        StatusRecord { path: b"d/".to_vec(), is_new: true, is_directory: true },
    ];
    let scan = CommitDiffInfo::scan_untracked_worktree(&entries, 1);
    assert_eq!(scan.files.len(), 1);
    assert_eq!(scan.all_paths.len(), 2);
    assert!(scan.deferred_paths.contains(b"a"), "its lines are counted later");
    assert!(!CommitDiffInfo::needs_line_count(&scan.files[0], &scan.deferred_paths));
}

#[test]
fn added_files_without_lines_are_counted_from_disk() {
    let mut scan = CommitDiffInfo::scan_diff(&[delta(DeltaStatus::Added, "a", 0, 0), delta(DeltaStatus::Added, "b", 2, 0)]);
    CommitDiffInfo::apply_line_counts(&mut scan, &[Some(6), Some(9)]);
    assert_eq!(scan.line_totals(), (8, 0));
}

#[test]
fn stats_come_from_the_last_delta_of_a_path() {
    let deltas = [delta(DeltaStatus::Modified, "a", 1, 0), delta(DeltaStatus::Modified, "a", 2, 3)];
    assert_eq!(
        CommitDiffInfo::line_stats_from_index(&deltas, b"a"),
        Some(LineStats { is_binary: false, insertions: 2, deletions: 3 })
    );
    assert_eq!(CommitDiffInfo::line_stats_from_index(&deltas, b"b"), None);
}

#[test]
fn patches_are_looked_for_in_order() {
    let mut search = PatchSearch::new();
    assert_eq!(search.next(true, true), Some(PatchSource::Combined));
    search.take_diff(PatchSource::Combined, " \n");
    assert_eq!(search.next(true, true), Some(PatchSource::StagedThenUnstaged));
    search.take_diff(PatchSource::StagedThenUnstaged, "");
    assert_eq!(search.next(true, true), Some(PatchSource::Untracked));
    assert_eq!(search.next(false, true), Some(PatchSource::GitDiff));
    search.take_diff(PatchSource::Untracked, "");
    search.take_command(PatchSource::GitDiff, None);
    assert_eq!(search.next(true, false), None);
    assert_eq!(search.next(true, true), Some(PatchSource::GitNoIndex));
    let outcome = CommandOutcome { success: false, code: Some(1), stdout: "+x\n".to_string() };
    search.take_command(PatchSource::GitNoIndex, Some(outcome));
    assert_eq!(search.next(true, true), None);
    assert_eq!(search.finish(), " \n+x\n");
}

#[test]
fn directories_are_asked_for_with_a_slash() {
    assert_eq!(diff_pathspec("src", true), "src/");
    assert_eq!(diff_pathspec("src/", true), "src/");
    assert_eq!(diff_pathspec("src", false), "src");
    assert_eq!(diff_pathspec("", true), "/");
}

#[test]
fn binary_files_have_no_lines() {
    let mut image = delta(DeltaStatus::Modified, "logo.png", 7, 2);
    image.is_binary = true;
    let info = CommitDiffInfo::from_commit(&[image, delta(DeltaStatus::Modified, "a.txt", 1, 1)]);
    assert!(info.files[0].is_binary);
    assert_eq!((info.files[0].insertions, info.files[0].deletions), (0, 0));
    assert_eq!((info.total_insertions, info.total_deletions), (1, 1));
}

#[test]
fn paths_are_compared_part_by_part() {
    let staged = [delta(DeltaStatus::Added, "nested", 3, 0)];
    let ws = CommitDiffInfo::scan_working_tree(&staged, &[], &[untracked("nested/"), untracked("a//b"), untracked("a/./b")]);
    let shown: Vec<&[u8]> = ws.scan.files.iter().map(|f| f.path.as_slice()).collect();
    assert_eq!(shown, vec![&b"nested"[..], &b"a//b"[..]]);
    assert_eq!(ws.scan.all_paths.len(), 2);
    assert!(ws.scan.deferred_paths.contains(b"nested"));
    let worktree = [delta(DeltaStatus::Modified, "nested/", 5, 1)];
    let stats = CommitDiffInfo::line_stats_from_index(&worktree, b"nested");
    assert_eq!(stats, Some(LineStats { is_binary: false, insertions: 5, deletions: 1 }));
    assert_eq!(CommitDiffInfo::line_stats_from_index(&worktree, b"./nested"), None);
}
