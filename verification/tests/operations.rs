use keifu::git::askpass::{AskPass, Credentials};
use keifu::git::command::{CommandRun, GitCommand, OpOutcome};
use keifu::git::operations::{
    abort_operation, accept_ours, accept_theirs, after_add, after_checkout, after_merge, after_restore_checkout, apply_patch_cached, checkout_remote_branch,
    cherry_pick, commit_result, commit_with_message, continue_operation, delete_branch, extract_auth_url,
    fast_forward_behind_branches, fast_forward_one_behind, fetch_all, fetch_all_commands, fetch_remote, file_history,
    file_history_command, friendly_commit_error, get_last_commit_message, humanize_git_error,
    is_dirty_worktree_pull_error, is_divergent_pull_error, is_https_auth_failure, list_remotes, merge_step, pull,
    push_delete, push_set_upstream, rebase_step, reset_hard_checked, reset_to_commit, restore_files,
    split_remote_ref, stash_all, stash_branch, stash_staged, url_host, AuthUrl, BranchMove, BranchType, FastForward,
    LocalTip, MergeAnalysis, MergeStep, PathStatus, PullMode, RebaseAction, RebaseEvent, RemoteCheckout,
    RemoteFetch, ResetMode, Resume, Tracking,
};
use keifu::git::repository::OperationState;
use keifu::oid::Oid;

#[test]
fn https_auth_failure_detected_but_not_ssh() {
    // HTTPS credential prompts a token can fix.
    assert!(is_https_auth_failure(
        "fatal: could not read Username for 'https://github.com': terminal prompts disabled"
    ));
    assert!(is_https_auth_failure(
        "remote: Support for password authentication was removed.\nfatal: Authentication failed for 'https://github.com/o/r.git/'"
    ));
    // SSH publickey failure — a token can't fix it, so it's NOT an HTTPS
    // auth failure even though libgit2 words it as a denial.
    assert!(!is_https_auth_failure(
        "git@github.com: Permission denied (publickey).\nfatal: Could not read from remote repository."
    ));
    // Unrelated errors.
    assert!(!is_https_auth_failure("fatal: Not possible to fast-forward"));
    assert!(!is_https_auth_failure("Already up to date."));
}

#[test]
fn extract_auth_url_pulls_host_and_optional_user() {
    assert_eq!(
        extract_auth_url("fatal: could not read Username for 'https://github.com': x"),
        Some(AuthUrl { host: "github.com".into(), user: None })
    );
    // Embedded user@ prefills the username prompt; path is ignored.
    assert_eq!(
        extract_auth_url("fatal: Authentication failed for 'https://alice@git.example.com/o/r.git/'"),
        Some(AuthUrl { host: "git.example.com".into(), user: Some("alice".into()) })
    );
    // No URL present.
    assert_eq!(extract_auth_url("git@github.com: Permission denied (publickey)."), None);
}

#[test]
fn url_host_strips_scheme_user_and_port() {
    assert_eq!(url_host("https://github.com/o/r.git").as_deref(), Some("github.com"));
    assert_eq!(url_host("https://alice@github.com:443/o/r").as_deref(), Some("github.com"));
    assert_eq!(url_host("github.com/o/r").as_deref(), Some("github.com"));
    assert_eq!(url_host("https://").as_deref(), None);
}

#[test]
fn pull_mode_maps_to_reconcile_flags() {
    assert_eq!(PullMode::FfOnly.arg(), "--ff-only");
    assert_eq!(PullMode::Merge.arg(), "--no-rebase");
    assert_eq!(PullMode::Rebase.arg(), "--rebase");
}

#[test]
fn divergence_predicate_matches_reconcile_failures() {
    assert!(is_divergent_pull_error(
        "fatal: Not possible to fast-forward, aborting."
    ));
    assert!(is_divergent_pull_error(
        "hint: You have divergent branches...\nfatal: Need to specify how to reconcile divergent branches."
    ));
    assert!(is_divergent_pull_error("fatal: Not possible"));
    // A normal auth failure is NOT divergence.
    assert!(!is_divergent_pull_error(
        "fatal: Authentication failed for 'https://github.com/o/r'"
    ));
    assert!(!is_divergent_pull_error("Already up to date."));
}

#[test]
fn dirty_worktree_predicate_matches_merge_and_rebase_forms() {
    // Merge form.
    assert!(is_dirty_worktree_pull_error(
        "error: Your local changes to the following files would be overwritten by merge:\n\ta.txt\nPlease commit your changes or stash them before you merge.\nAborting"
    ));
    // Rebase forms (dirty worktree / dirty index).
    assert!(is_dirty_worktree_pull_error(
        "error: cannot pull with rebase: You have unstaged changes."
    ));
    assert!(is_dirty_worktree_pull_error(
        "error: cannot pull with rebase: Your index contains uncommitted changes."
    ));
    // Divergence and auth failures are NOT dirty-worktree conditions.
    assert!(!is_dirty_worktree_pull_error(
        "fatal: Not possible to fast-forward, aborting."
    ));
    assert!(!is_dirty_worktree_pull_error(
        "fatal: Authentication failed for 'https://github.com/o/r'"
    ));
    assert!(!is_dirty_worktree_pull_error("Already up to date."));
}

#[test]
fn humanize_maps_known_failures_to_guidance() {
    // Auth (both HTTPS credential and SSH key forms).
    assert!(humanize_git_error("fatal: could not read Username for 'https://github.com'")
        .unwrap()
        .contains("Authentication failed"));
    assert!(humanize_git_error("remote: Permission denied (publickey).")
        .unwrap()
        .contains("Authentication failed"));
    // Missing remote ref names the branch.
    let missing = humanize_git_error("fatal: couldn't find remote ref feature/x").unwrap();
    assert!(missing.contains("feature/x"), "names the branch: {missing}");
    // Would-be-overwritten local changes.
    assert!(humanize_git_error(
        "error: Your local changes to the following files would be overwritten by merge:\n\tsrc/main.rs"
    )
    .unwrap()
    .contains("commit or stash"));
    // Rebase-mode dirty worktree gets the same commit-or-stash guidance.
    assert!(humanize_git_error("error: cannot pull with rebase: You have unstaged changes.")
        .unwrap()
        .contains("commit or stash"));
    // index.lock.
    assert!(humanize_git_error(
        "fatal: Unable to create '/repo/.git/index.lock': File exists."
    )
    .unwrap()
    .contains("in progress"));
    // Unrecognized -> None (caller falls back to raw).
    assert_eq!(humanize_git_error("some unexpected failure"), None);
}

fn exited(success: bool, stdout: &str, stderr: &str) -> CommandRun {
    CommandRun::Exited { success, stdout: stdout.to_string(), stderr: stderr.to_string() }
}

fn strings(xs: &[&str]) -> Vec<String> {
    xs.iter().map(|s| s.to_string()).collect()
}

fn fetched(remote: &str, error: Option<&str>) -> RemoteFetch {
    RemoteFetch { remote: remote.to_string(), error: error.map(|e| e.to_string()) }
}

fn oid(n: u8) -> Oid {
    Oid::from_str(&format!("{n:040x}")).unwrap()
}

#[test]
fn fetch_all_updates_good_remote_despite_failing_remote() {
    let remotes = list_remotes("origin\nbroken\n");
    let commands = fetch_all_commands(&remotes, None);
    // Every remote is fetched, whatever becomes of the others.
    assert_eq!(commands.len(), 2);
    assert_eq!(commands[0].args, vec!["fetch", "--prune", "origin"]);
    assert_eq!(commands[1].args, vec!["fetch", "--prune", "broken"]);
    let msg = fetch_all(&[fetched("origin", None), fetched("broken", Some(" no such repository\n"))]).unwrap_err();
    assert_eq!(msg, "fetch failed for broken: no such repository");
    assert!(msg.contains("broken"), "error must name the failed remote: {msg}");
    assert!(!msg.contains("origin"), "error must not name the remote that succeeded: {msg}");
}

#[test]
fn fetch_all_all_good_updates_every_remote() {
    let remotes = strings(&["origin", "upstream"]);
    let commands = fetch_all_commands(&remotes, None);
    assert_eq!(commands[0].args, vec!["fetch", "--prune", "origin"]);
    assert_eq!(commands[1].args, vec!["fetch", "--prune", "upstream"]);
    assert!(fetch_all(&[fetched("origin", None), fetched("upstream", None)]).is_ok());
}

#[test]
fn fetch_all_no_remotes_is_ok() {
    assert!(list_remotes("\n").is_empty());
    assert!(fetch_all_commands(&[], None).is_empty());
    assert!(fetch_all(&[]).is_ok());
}

#[test]
fn fetch_all_names_every_failure() {
    assert_eq!(
        fetch_all(&[fetched("a", Some("x")), fetched("b", None), fetched("c", Some("y"))]),
        Err("fetch failed for a: x; for c: y".to_string())
    );
}

#[test]
fn commands_never_prompt() {
    let c = push_set_upstream("origin", "topic", None);
    assert_eq!(c.args, vec!["push", "-u", "origin", "topic"]);
    let names: Vec<&str> = c.env.iter().map(|v| v.name.as_str()).collect();
    assert_eq!(names, vec!["GIT_TERMINAL_PROMPT"]);
    let c = cherry_pick(oid(7));
    assert_eq!(c.args[0], "cherry-pick");
    assert_eq!(c.args.last().unwrap(), "0000000000000000000000000000000000000007");
    let names: Vec<&str> = c.env.iter().map(|v| v.name.as_str()).collect();
    assert_eq!(names, vec!["GIT_EDITOR", "GIT_SEQUENCE_EDITOR", "GIT_TERMINAL_PROMPT"]);
}

#[test]
fn credentials_change_the_environment_alone() {
    let auth = AskPass {
        shim: "/s".to_string(),
        credentials: Credentials { username: "u".to_string(), password: "p".to_string() },
    };
    let plain = fetch_remote("origin", None);
    let with = fetch_remote("origin", Some(&auth));
    assert_eq!(plain.args, with.args);
    assert!(with.env.len() > plain.env.len());
    assert!(!with.args.contains(&"p".to_string()));
    assert_eq!(push_delete("origin", "b", None).args, vec!["push", "origin", "--delete", "b"]);
}

#[test]
fn pulls_name_a_remote_and_a_branch_where_given() {
    assert_eq!(pull(None, None, PullMode::FfOnly, None).args, vec!["pull", "--ff-only"]);
    assert_eq!(
        pull(Some("origin"), Some("main"), PullMode::Rebase, None).args,
        vec!["pull", "--rebase", "origin", "main"]
    );
}

#[test]
fn resets_and_stashes() {
    let c = reset_to_commit(oid(1), ResetMode::Mixed);
    assert_eq!(c.args[0..2], ["reset".to_string(), "--mixed".to_string()]);
    assert_eq!(stash_staged("").args, vec!["stash", "push", "--staged"]);
    assert_eq!(stash_all("wip", true).args, vec!["stash", "push", "-u", "-m", "wip"]);
    assert_eq!(stash_all("wip", false).args, vec!["stash", "push", "-m", "wip"]);
    assert_eq!(stash_branch("b", 12).args, vec!["stash", "branch", "b", "stash@{12}"]);
    assert_eq!(apply_patch_cached("P").stdin.as_deref(), Some("P"));
    let (ours, add) = accept_ours("f");
    assert_eq!(ours.args, vec!["checkout", "--ours", "--", "f"]);
    assert_eq!(add.args[0], "add");
    assert_eq!(accept_theirs("f").0.args, vec!["checkout", "--theirs", "--", "f"]);
}

#[test]
fn operations_are_resumed_by_their_own_command() {
    assert!(matches!(abort_operation(OperationState::Rebase), Ok(Resume::LibraryRebase)));
    assert!(matches!(abort_operation(OperationState::Merge), Ok(Resume::Git(c)) if c.args == vec!["merge", "--abort"]));
    assert!(
        matches!(continue_operation(OperationState::CherryPick), Ok(Resume::Git(c)) if c.args == vec!["cherry-pick", "--continue"])
    );
    assert!(
        matches!(abort_operation(OperationState::Clean), Err(e) if e == "No operation in progress to abort")
    );
    assert!(
        matches!(continue_operation(OperationState::Clean), Err(e) if e == "No operation in progress to continue")
    );
}

#[test]
fn runs_end_in_output_or_a_message() {
    let mut c = GitCommand::new(None);
    c.arg("gc");
    assert_eq!(c.finish(&exited(true, "out", "err")), Ok("out".to_string()));
    assert_eq!(c.finish(&exited(false, "out", " err\n")), Err("git gc failed: err".to_string()));
    assert_eq!(c.finish(&CommandRun::NotStarted), Err("Failed to execute git gc".to_string()));
    assert_eq!(c.finish(&CommandRun::NoStdin), Err("Failed to open git stdin".to_string()));
    assert_eq!(c.finish(&CommandRun::StdinFailed), Err("Failed to write patch to git stdin".to_string()));
    assert_eq!(c.finish(&CommandRun::NotAwaited), Err("Failed to run git gc".to_string()));
    assert_eq!(c.finish_allow_conflict(&exited(false, "", "x"), 2), Ok(OpOutcome::Conflicts { count: 2 }));
    assert_eq!(c.finish_allow_conflict(&exited(false, "", "x"), 0), Err("git gc failed: x".to_string()));
    assert_eq!(c.finish_allow_conflict(&exited(true, "", ""), 2), Ok(OpOutcome::Completed));
}

#[test]
fn failed_commits_are_explained() {
    let c = commit_with_message("m");
    assert_eq!(c.args, vec!["commit", "-m", "m"]);
    assert!(commit_result(&c, &exited(true, "", "")).is_ok());
    assert_eq!(
        commit_result(&c, &exited(false, "", "nothing to commit, working tree clean")),
        Err("No files staged for commit (use 's' to stage files)".to_string())
    );
    assert_eq!(friendly_commit_error("Aborting commit due to empty commit message."), "Commit message cannot be empty");
    assert_eq!(
        friendly_commit_error("*** Please tell me who you are."),
        "Git user not configured (run: git config user.email / user.name)"
    );
    assert_eq!(friendly_commit_error("hook declined"), "hook declined");
}

#[test]
fn histories_and_messages_are_read() {
    let c = file_history_command("a.txt", 50);
    assert_eq!(c.args, vec!["log", "--follow", "-n", "50", "--format=%H", "--", "a.txt"]);
    let listed = file_history("0000000000000000000000000000000000000001\n\nnot an id\n0000000000000000000000000000000000000002\n");
    assert_eq!(listed, vec![oid(1), oid(2)]);
    assert_eq!(get_last_commit_message("subject\n\nbody\n"), "subject\n\nbody");
}

#[test]
fn remote_names_are_split_at_a_configured_remote() {
    let remotes = strings(&["origin", "team/fork"]);
    assert_eq!(
        split_remote_ref(&remotes, "team/fork/x"),
        Some(("team/fork".to_string(), "x".to_string()))
    );
    assert_eq!(split_remote_ref(&remotes, "origin/a/b"), Some(("origin".to_string(), "a/b".to_string())));
    assert_eq!(split_remote_ref(&remotes, "origin/"), None);
    assert_eq!(split_remote_ref(&remotes, "feature/x"), None);
}

#[test]
fn remote_branches_are_checked_out_by_what_is_local() {
    let remotes = strings(&["upstream"]);
    let at = |tip: Option<Oid>, local: Option<LocalTip>| checkout_remote_branch(&remotes, "upstream/dev", tip, local);
    assert!(
        matches!(at(Some(oid(1)), None), Ok(RemoteCheckout::Track { name, upstream, refname }) if name == "dev" && upstream == "upstream/dev" && refname == "refs/heads/dev")
    );
    assert!(
        matches!(at(Some(oid(1)), Some(LocalTip { oid: oid(1), is_head: true })), Ok(RemoteCheckout::Local { name }) if name == "dev")
    );
    assert!(
        matches!(at(Some(oid(1)), Some(LocalTip { oid: oid(2), is_head: true })), Ok(RemoteCheckout::MoveCurrent { refname }) if refname == "refs/heads/dev")
    );
    assert!(matches!(
        at(Some(oid(1)), Some(LocalTip { oid: oid(2), is_head: false })),
        Ok(RemoteCheckout::Overwrite { .. })
    ));
    assert!(matches!(at(None, None), Err(e) if e == "Remote branch 'upstream/dev' not found"));
    assert!(
        matches!(checkout_remote_branch(&remotes, "dev", Some(oid(1)), None), Err(e) if e == "Invalid remote branch format")
    );
}

#[test]
fn deleting_spares_the_current_branch() {
    assert!(delete_branch("b", Some(false)).is_ok());
    assert_eq!(delete_branch("b", Some(true)), Err("Cannot delete current branch".to_string()));
    assert_eq!(delete_branch("b", None), Err("Local branch 'b' not found".to_string()));
    assert!(reset_hard_checked(true).is_ok());
    assert_eq!(reset_hard_checked(false), Err("working tree has uncommitted changes".to_string()));
}

#[test]
fn merges_and_rebases_stop_on_conflicts() {
    let a = |up_to_date: bool, fast_forward: bool, normal: bool| {
        merge_step(MergeAnalysis { up_to_date, fast_forward, normal })
    };
    assert_eq!(a(true, true, true), MergeStep::Done);
    assert_eq!(a(false, true, true), MergeStep::FastForward);
    assert_eq!(a(false, false, true), MergeStep::Merge);
    assert_eq!(a(false, false, false), MergeStep::Done);
    assert_eq!(after_merge("dev", BranchType::Local, false, 0), Ok("Merge branch 'dev'".to_string()));
    assert_eq!(
        after_merge("origin/dev", BranchType::Remote, false, 0),
        Ok("Merge remote-tracking branch 'origin/dev'".to_string())
    );
    assert_eq!(after_merge("dev", BranchType::Local, true, 3), Err(OpOutcome::Conflicts { count: 3 }));
    assert_eq!(
        rebase_step(RebaseEvent::Replayed { has_conflicts: true, conflicted: 1 }),
        RebaseAction::Stop(OpOutcome::Conflicts { count: 1 })
    );
    assert_eq!(rebase_step(RebaseEvent::Reopened { has_conflicts: false, conflicted: 0 }), RebaseAction::Commit);
    assert_eq!(rebase_step(RebaseEvent::Exhausted), RebaseAction::Finish);
}

#[test]
fn only_branches_strictly_behind_move() {
    let step = |distance: Option<(usize, usize)>, is_checked_out: bool, clean: bool| {
        fast_forward_one_behind(Tracking { distance, is_checked_out }, clean)
    };
    assert_eq!(step(Some((0, 2)), false, false), FastForward::Retarget);
    assert_eq!(step(Some((0, 2)), true, true), FastForward::MergeUpstream);
    assert_eq!(step(Some((0, 2)), true, false), FastForward::Skip);
    assert_eq!(step(Some((1, 2)), false, true), FastForward::Skip);
    assert_eq!(step(Some((0, 0)), false, true), FastForward::Skip);
    assert_eq!(step(None, false, true), FastForward::Skip);
    let summary = fast_forward_behind_branches(&[
        ("a".to_string(), BranchMove::Moved),
        ("b".to_string(), BranchMove::Failed("locked".to_string())),
        ("c".to_string(), BranchMove::Skipped),
        ("d".to_string(), BranchMove::Moved),
    ]);
    assert_eq!(summary.moved, vec!["a", "d"]);
    assert_eq!(summary.failed, vec![("b".to_string(), "locked".to_string())]);
    assert!(!summary.is_empty());
    assert!(fast_forward_behind_branches(&[]).is_empty());
}

#[test]
fn restoring_splits_tracked_from_untracked() {
    let status = |path: &str, is_new: bool, is_modified: bool| PathStatus {
        path: Some(path.to_string()),
        is_new,
        is_modified,
    };
    let statuses = vec![
        status("new.txt", true, false),
        status("changed.txt", false, true),
        status("added.txt", true, true),
        PathStatus { path: None, is_new: true, is_modified: false },
    ];
    let plan = restore_files(&statuses, &strings(&["new.txt", "changed.txt", "added.txt", "other.txt"]));
    assert_eq!(plan.trash, vec!["new.txt"]);
    assert_eq!(
        plan.checkout.unwrap().args,
        vec!["checkout", "HEAD", "--", "changed.txt", "added.txt", "other.txt"]
    );
    let plan = restore_files(&statuses, &strings(&["new.txt"]));
    assert!(plan.checkout.is_none());
}

#[test]
fn every_https_failure_has_advice() {
    for stderr in ["could not read Username", "x Authentication failed y"] {
        assert!(is_https_auth_failure(stderr));
        assert!(humanize_git_error(stderr).unwrap().contains("Authentication failed"));
    }
    assert!(humanize_git_error("couldn't find remote ref ").unwrap().starts_with("That branch is missing"));
}

#[test]
fn split_names_rejoin() {
    let remotes = vec!["origin".to_string(), "team/fork".to_string()];
    for name in ["origin/a/b", "team/fork/x"] {
        let (remote, branch) = split_remote_ref(&remotes, name).unwrap();
        assert_eq!(format!("{remote}/{branch}"), name);
        assert!(remotes.contains(&remote));
    }
}

#[test]
fn a_path_is_staged_only_after_its_checkout() {
    let (checkout, add) = accept_ours("f");
    let failed = after_checkout(&checkout, &exited(false, "", "no such path\n"), add);
    assert_eq!(failed.unwrap_err(), "git checkout failed: no such path");
    let (checkout, add) = accept_theirs("f");
    let next = after_checkout(&checkout, &exited(true, "", ""), add).unwrap();
    assert_eq!(next.args, vec!["add", "--", "f"]);
    assert_eq!(after_add(&next, &exited(true, "", "")), Ok(()));
    assert_eq!(after_add(&next, &exited(false, "", "locked")).unwrap_err(), "git add failed: locked");
}

#[test]
fn nothing_is_trashed_when_the_checkout_fails() {
    let statuses = [PathStatus { path: Some("new".to_string()), is_new: true, is_modified: false }];
    let plan = || restore_files(&statuses, &["new".to_string(), "old".to_string()]);
    assert_eq!(after_restore_checkout(plan(), Some(&exited(true, "", ""))), Ok(vec!["new".to_string()]));
    let failed = after_restore_checkout(plan(), Some(&CommandRun::NotStarted));
    assert_eq!(failed, Err("Failed to execute git checkout".to_string()));
    let only_new = restore_files(&statuses, &["new".to_string()]);
    assert_eq!(after_restore_checkout(only_new, None), Ok(vec!["new".to_string()]));
}
