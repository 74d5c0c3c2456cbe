use keifu::git::branch::BranchInfo;
use keifu::git::commit::{CommitInfo, CommitRecord};
use keifu::git::repository::{
    conflicted_count, get_commits, get_stashes, get_working_tree_status, walk_tips, OperationState, RepositoryState,
    StashInfo, StashRecord, StatusEntry,
};
use keifu::oid::Oid;

fn oid(n: u8) -> Oid {
    Oid::from_bytes(&[n; 20]).unwrap()
}

fn record(id: u8, parents: &[u8]) -> CommitRecord {
    CommitRecord {
        oid: oid(id),
        author_name: Some("Dev".to_string()),
        author_email: Some("dev@example.com".to_string()),
        seconds: 1000,
        message: Some(format!("commit {id}\n\nbody\n")),
        parents: parents.iter().map(|p| oid(*p)).collect(),
    }
}

fn entry(path: &str, modified_millis: Option<u128>) -> StatusEntry {
    StatusEntry {
        path: path.as_bytes().to_vec(),
        is_staged: false,
        has_worktree_changes: true,
        is_conflicted: false,
        is_new: false,
        is_directory: false,
        modified_millis,
    }
}

#[test]
fn states_belong_to_operations() {
    let of = OperationState::from_repo_state;
    assert_eq!(of(RepositoryState::Merge), OperationState::Merge);
    assert_eq!(of(RepositoryState::RebaseInteractive), OperationState::Rebase);
    assert_eq!(of(RepositoryState::CherryPickSequence), OperationState::CherryPick);
    assert_eq!(of(RepositoryState::RevertSequence), OperationState::Revert);
    assert_eq!(of(RepositoryState::Bisect), OperationState::Clean);
    assert_eq!(OperationState::Rebase.label(), "REBASING");
    assert_eq!(OperationState::CherryPick.git_subcommand(), Some("cherry-pick"));
    assert_eq!(OperationState::Clean.git_subcommand(), None);
    assert_eq!(OperationState::Clean.verb(), "operation");
    assert!(OperationState::Merge.is_in_progress());
    assert!(!OperationState::Clean.is_in_progress());
}

#[test]
fn walks_start_from_branches_head_and_stashes() {
    let branch = BranchInfo {
        name: "main".to_string(),
        is_head: true,
        is_remote: false,
        upstream: None,
        tip_oid: oid(1),
        ahead: 0,
        behind: 0,
    };
    let stash = StashInfo { index: 0, message: String::new(), oid: oid(3), base_oid: oid(1) };
    let tips = walk_tips(&[branch], Some(oid(2)), &[stash]);
    for n in [1, 2, 3] {
        assert!(tips.contains(&oid(n)));
    }
}

#[test]
fn stash_internals_are_hidden_and_stashes_have_one_parent() {
    let stash = StashInfo { index: 0, message: "wip".to_string(), oid: oid(5), base_oid: oid(1) };
    let walked = vec![record(5, &[1, 6, 7]), record(6, &[1]), record(7, &[]), record(1, &[])];
    let commits: Vec<CommitInfo> = get_commits(10, &walked, &[stash], &[vec![oid(1), oid(6), oid(7)]]);
    let ids: Vec<Oid> = commits.iter().map(|c| c.oid).collect();
    assert_eq!(ids, vec![oid(5), oid(1)]);
    assert_eq!(commits[0].parent_oids, vec![oid(1)]);
    assert_eq!(commits[0].message, "commit 5");
    assert_eq!(commits[0].full_message, "commit 5\n\nbody\n");
    assert_eq!(commits[0].short_id, "0505050");
    assert_eq!(get_commits(1, &walked, &[], &[]).len(), 1);
}

#[test]
fn unreadable_stashes_are_left_out() {
    let records = vec![
        StashRecord { index: 0, message: "a".to_string(), oid: oid(1), parents: Some(vec![oid(2), oid(3)]) },
        StashRecord { index: 1, message: "b".to_string(), oid: oid(4), parents: None },
        StashRecord { index: 2, message: "c".to_string(), oid: oid(5), parents: Some(vec![]) },
    ];
    let stashes = get_stashes(&records);
    assert_eq!(stashes.len(), 1);
    assert_eq!((stashes[0].index, stashes[0].base_oid), (0, oid(2)));
}

#[test]
fn the_working_tree_is_summed_up() {
    let conflicted = StatusEntry { has_worktree_changes: false, is_conflicted: true, ..entry("a", Some(5)) };
    let untouched = StatusEntry { has_worktree_changes: false, ..entry("z", Some(100)) };
    let entries = vec![entry("c/d", Some(7)), conflicted, entry("c", None), untouched];
    let status = get_working_tree_status(false, &entries).unwrap();
    let paths: Vec<String> = status.file_paths.iter().map(|p| String::from_utf8(p.clone()).unwrap()).collect();
    assert_eq!(paths, vec!["a", "c", "c/d"]);
    assert_eq!(status.mtime_hash, 12);
    assert_eq!(status.file_count(), 3);
    assert_eq!(status.accurate_file_count(), Some(3));
    assert!(status.is_precise_cache_key());
    assert_eq!(conflicted_count(&entries), 1);
    assert!(get_working_tree_status(true, &entries).is_none());
    assert!(get_working_tree_status(false, &[]).is_none());
}

#[test]
fn untracked_directories_blur_the_count() {
    let dir = StatusEntry { is_new: true, is_directory: true, ..entry("new/", None) };
    let status = get_working_tree_status(false, &[dir]).unwrap();
    assert_eq!(status.accurate_file_count(), None);
    assert!(!status.is_precise_cache_key());
}

#[test]
fn commits_without_texts_are_described() {
    let bare = CommitRecord { author_name: None, author_email: None, message: None, ..record(1, &[]) };
    let info = CommitInfo::from_git2_commit(&bare);
    assert_eq!(info.author_name, "Unknown");
    assert_eq!(info.message, "");
}

#[test]
fn statuses_are_compared_part_by_part() {
    let entry = |path: &str| StatusEntry {
        path: path.as_bytes().to_vec(),
        is_staged: true,
        has_worktree_changes: false,
        is_conflicted: false,
        is_new: false,
        is_directory: false,
        modified_millis: Some(7),
    };
    let status = |path: &str| get_working_tree_status(false, &[entry(path)]).unwrap();
    assert_eq!(status("a/b"), status("a//b"));
    assert_ne!(status("a/b"), status("a/c"));
    assert_eq!(status("a/b"), status("a/b").clone());
}
