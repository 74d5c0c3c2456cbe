use std::collections::HashMap;

use keifu::git::branch::{
    attributed_commit, branch_authors, hidden_tips, remote_only_branch_names, sort_for_display, BranchInfo,
    LocalBranch, RemoteBranch,
};
use keifu::oid::Oid;

fn oid(byte: u8) -> Oid {
    Oid::from_bytes(&[byte; 20]).unwrap()
}

fn local(name: &str, tip: Oid, upstream: Option<&str>) -> BranchInfo {
    BranchInfo {
        name: name.to_string(),
        is_head: false,
        is_remote: false,
        upstream: upstream.map(str::to_string),
        tip_oid: tip,
        ahead: 0,
        behind: 0,
    }
}

fn remote(name: &str, tip: Oid) -> BranchInfo {
    BranchInfo {
        name: name.to_string(),
        is_head: false,
        is_remote: true,
        upstream: None,
        tip_oid: tip,
        ahead: 0,
        behind: 0,
    }
}

#[test]
fn remote_with_no_local_counterpart_is_remote_only() {
    let branches = vec![
        local("main", oid(1), None),
        remote("origin/agent-work", oid(2)),
    ];
    let names = remote_only_branch_names(&branches);
    assert_eq!(names.len(), 1);
    assert!(names.contains("origin/agent-work"));
}

#[test]
fn upstream_tracked_remote_ahead_of_local_is_remote_only() {
    // Local `feature` tracks
    // `origin/renamed-on-remote` via upstream config but sits behind it
    // (a different commit). Matching upstream config alone must NOT be
    // enough to keep this remote's tip in the walk — its exclusive
    // commit(s) would leak into the graph even with remotes hidden.
    let branches = vec![
        local("feature", oid(1), Some("origin/renamed-on-remote")),
        remote("origin/renamed-on-remote", oid(2)),
    ];
    let names = remote_only_branch_names(&branches);
    assert!(names.contains("origin/renamed-on-remote"));
}

#[test]
fn remote_sharing_short_name_but_different_tip_is_remote_only() {
    // No upstream configured, but the short
    // names line up (`main` / `origin/main`) while the tips differ (local
    // is behind). Name-matching alone must not exempt this remote either.
    let branches = vec![
        local("main", oid(1), None),
        remote("origin/main", oid(2)),
    ];
    let names = remote_only_branch_names(&branches);
    assert!(names.contains("origin/main"));
}

#[test]
fn remote_sharing_tip_with_local_is_not_remote_only() {
    // Differently named, no upstream, but pointing at the same commit —
    // e.g. a just-pushed branch or `origin/HEAD` aliasing the default.
    let branches = vec![
        local("main", oid(7), None),
        remote("origin/HEAD", oid(7)),
    ];
    assert!(remote_only_branch_names(&branches).is_empty());
}

#[test]
fn classifies_a_mixed_set() {
    let branches = vec![
        local("main", oid(1), Some("origin/main")),
        remote("origin/main", oid(1)),        // tracked: same tip as local main
        remote("origin/dependabot", oid(2)),  // remote-only
        remote("origin/colleague", oid(3)),   // remote-only
        local("wip", oid(4), None),           // local-only, untouched
    ];
    let names = remote_only_branch_names(&branches);
    assert_eq!(names.len(), 2);
    assert!(names.contains("origin/dependabot"));
    assert!(names.contains("origin/colleague"));
}

// --- sort_for_display: badge order must be deterministic regardless of
// insertion order. ---

fn head_local(name: &str, tip: Oid) -> BranchInfo {
    BranchInfo {
        name: name.to_string(),
        is_head: true,
        is_remote: false,
        upstream: None,
        tip_oid: tip,
        ahead: 0,
        behind: 0,
    }
}

#[test]
fn sort_for_display_orders_head_then_local_then_remote_alphabetically() {
    let mut branches = vec![
        remote("origin/zeta", oid(1)),
        local("zeta", oid(1), None),
        remote("origin/alpha", oid(1)),
        head_local("beta", oid(2)),
        local("alpha", oid(1), None),
    ];
    sort_for_display(&mut branches);
    let names: Vec<&str> = branches.iter().map(|b| b.name.as_str()).collect();
    assert_eq!(
        names,
        vec!["beta", "alpha", "zeta", "origin/alpha", "origin/zeta"],
        "HEAD first, then locals A-Z, then remotes A-Z"
    );
}

#[test]
fn sort_for_display_is_deterministic_regardless_of_insertion_order() {
    // Same conceptual branch set, fed in every rotation of a fixed
    // ordering. The sorted result must be identical every time — no
    // HashMap/HashSet iteration or insertion-order leakage.
    let make = || {
        vec![
            remote("origin/mac", oid(1)),
            local("mac", oid(1), None),
            local("wip", oid(2), None),
            remote("origin/wip", oid(2)),
        ]
    };
    let baseline = {
        let mut b = make();
        sort_for_display(&mut b);
        b.iter().map(|x| x.name.clone()).collect::<Vec<_>>()
    };
    assert_eq!(baseline, vec!["mac", "wip", "origin/mac", "origin/wip"]);

    // Try every rotation of the insertion order and confirm the sorted
    // output never changes.
    for start in 0..make().len() {
        let mut rotated = make();
        rotated.rotate_left(start);
        sort_for_display(&mut rotated);
        let names: Vec<String> = rotated.iter().map(|b| b.name.clone()).collect();
        assert_eq!(names, baseline, "insertion order must not affect sorted badge order");
    }
}

// --- branch_authors: exercised against real fixture repositories, since
// authorship attribution needs a real object graph to walk. ---


/// A repository that lives in memory: objects, but no refs and no files.
fn memory_repository() -> git2::Repository {
    let odb = git2::Odb::new().unwrap();
    odb.add_new_mempack_backend(1000).unwrap();
    git2::Repository::from_odb(odb).unwrap()
}

fn theirs(o: Oid) -> git2::Oid {
    git2::Oid::from_bytes(&o.as_bytes()).unwrap()
}

fn ours(o: git2::Oid) -> Oid {
    Oid::from_bytes(o.as_bytes()).unwrap()
}

/// Commit a single-file tree with the given author name, wall-clock `secs`
/// (so walk order is deterministic) and parents.
fn commit(
    repo: &git2::Repository,
    _refname: &str,
    author: &str,
    secs: i64,
    parents: &[Oid],
    content: &str,
) -> Oid {
    let blob = repo.blob(content.as_bytes()).unwrap();
    let mut tb = repo.treebuilder(None).unwrap();
    tb.insert("file.txt", blob, 0o100644).unwrap();
    let tree = repo.find_tree(tb.write().unwrap()).unwrap();
    let sig = git2::Signature::new(author, "dev@example.com", &git2::Time::new(secs, 0)).unwrap();
    let parent_commits: Vec<_> = parents.iter().map(|p| repo.find_commit(theirs(*p)).unwrap()).collect();
    let parent_refs: Vec<&git2::Commit> = parent_commits.iter().collect();
    ours(repo.commit(None, &sig, &sig, "msg", &tree, &parent_refs).unwrap())
}

/// The oldest commit of a branch that no other branch has.
fn oldest_unique(repo: &git2::Repository, branch: &BranchInfo, all: &[BranchInfo]) -> Option<Oid> {
    let mut walk = repo.revwalk().ok()?;
    walk.set_sorting(git2::Sort::TOPOLOGICAL | git2::Sort::TIME | git2::Sort::REVERSE).ok()?;
    walk.push(theirs(branch.tip_oid)).ok()?;
    for tip in hidden_tips(branch, all) {
        let _ = walk.hide(theirs(tip));
    }
    walk.filter_map(Result::ok).next().map(ours)
}

fn authors_of(repo: &git2::Repository, branches: &[BranchInfo]) -> HashMap<String, String> {
    let authors: Vec<Option<String>> = branches
        .iter()
        .map(|b| {
            let oid = attributed_commit(b, oldest_unique(repo, b, branches));
            let commit = repo.find_commit(theirs(oid)).ok()?;
            let name = commit.author().name().unwrap_or_default().to_string();
            Some(name)
        })
        .collect();
    branch_authors(branches, &authors).into_iter().collect()
}

fn info(name: &str, tip: Oid) -> BranchInfo {
    local(name, tip, None)
}

fn info_remote(name: &str, tip: Oid) -> BranchInfo {
    remote(name, tip)
}

#[test]
fn author_is_oldest_commit_unique_to_the_branch() {
    // main:    a <- b            (Root, Main Dev)
    // feature: a <- f1 <- f2     (Feat Dev, Feat Dev Jr)
    // `a` is shared. feature's oldest *unique* commit is f1 -> "Feat Dev",
    // not the newer f2 and not the shared root's author.
    let repo = memory_repository();
    let a = commit(&repo, "refs/heads/main", "Root", 1000, &[], "a");
    let b = commit(&repo, "refs/heads/main", "Main Dev", 2000, &[a], "b");
    let f1 = commit(&repo, "refs/heads/feature", "Feat Dev", 3000, &[a], "f1");
    let _f2 = commit(&repo, "refs/heads/feature", "Feat Dev Jr", 4000, &[f1], "f2");

    let branches = vec![info("main", b), info("feature", _f2)];
    let authors = authors_of(&repo, &branches);

    assert_eq!(authors.get("feature").map(String::as_str), Some("Feat Dev"));
    // main's only unique commit is b (a is shared with feature).
    assert_eq!(authors.get("main").map(String::as_str), Some("Main Dev"));
}

#[test]
fn falls_back_to_tip_author_when_no_unique_commits() {
    // Two branches at the *same* tip: neither has a unique commit, so both
    // fall back to the tip commit's own author.
    let repo = memory_repository();
    let a = commit(&repo, "refs/heads/main", "Root", 1000, &[], "a");
    let c = commit(&repo, "refs/heads/main", "Tip Author", 2000, &[a], "c");
    // `dup` points at the same commit as main.

    let branches = vec![info("main", c), info("dup", c)];
    let authors = authors_of(&repo, &branches);

    assert_eq!(authors.get("dup").map(String::as_str), Some("Tip Author"));
    assert_eq!(authors.get("main").map(String::as_str), Some("Tip Author"));
}

#[test]
fn merged_branch_with_no_exclusive_commits_uses_tip_author() {
    // main:  a <- b <- c
    // topic:  points at b, which is fully contained in main. topic has no
    // unique commits, so it uses b's author.
    let repo = memory_repository();
    let a = commit(&repo, "refs/heads/main", "Root", 1000, &[], "a");
    let b = commit(&repo, "refs/heads/main", "Topic Author", 2000, &[a], "b");
    let c = commit(&repo, "refs/heads/main", "Main Dev", 3000, &[b], "c");

    let branches = vec![info("main", c), info("topic", b)];
    let authors = authors_of(&repo, &branches);

    assert_eq!(authors.get("topic").map(String::as_str), Some("Topic Author"));
}

#[test]
fn shared_history_is_not_attributed_to_the_other_branch() {
    // Two feature branches forking off a common root, each with its own
    // author. Neither should inherit the other's or the root's author.
    let repo = memory_repository();
    let a = commit(&repo, "refs/heads/main", "Root", 1000, &[], "a");
    let x = commit(&repo, "refs/heads/alice", "Alice", 2000, &[a], "x");
    let y = commit(&repo, "refs/heads/bob", "Bob", 3000, &[a], "y");

    let branches = vec![info("main", a), info("alice", x), info("bob", y)];
    let authors = authors_of(&repo, &branches);

    assert_eq!(authors.get("alice").map(String::as_str), Some("Alice"));
    assert_eq!(authors.get("bob").map(String::as_str), Some("Bob"));
}

#[test]
fn remote_ref_counts_as_another_tip() {
    // A remote ref sharing a local branch's tip must still be treated as
    // "another tip", so the local branch sees no unique commits and falls
    // back to its tip author rather than walking shared history.
    let repo = memory_repository();
    let a = commit(&repo, "refs/heads/main", "Root", 1000, &[], "a");
    let c = commit(&repo, "refs/heads/main", "Local Tip", 2000, &[a], "c");

    let branches = vec![info("main", c), info_remote("origin/main", c)];
    let authors = authors_of(&repo, &branches);

    // origin/main also has a unique-commit set of {} vs main -> tip author.
    assert_eq!(authors.get("main").map(String::as_str), Some("Local Tip"));
    assert_eq!(
        authors.get("origin/main").map(String::as_str),
        Some("Local Tip")
    );
}

#[test]
fn unreadable_authors_are_empty() {
    let branches = vec![info("a", oid(1)), info("b", oid(2))];
    let authors = branch_authors(&branches, &[None, Some("Bob".to_string())]);
    assert_eq!(authors, vec![("a".to_string(), String::new()), ("b".to_string(), "Bob".to_string())]);
}

#[test]
fn branches_are_listed_with_head_first() {
    let record = |name: &str, tip: u8, upstream: Option<&str>, distance: Option<(usize, usize)>| LocalBranch {
        name: Some(name.to_string()),
        target: Some(oid(tip)),
        upstream: upstream.map(str::to_string),
        distance,
    };
    let locals = vec![
        record("zeta", 1, None, None),
        record("main", 2, Some("origin/main"), Some((1, 3))),
        LocalBranch { name: None, target: Some(oid(3)), upstream: None, distance: None },
        LocalBranch { name: Some("empty".to_string()), target: None, upstream: None, distance: None },
    ];
    let remotes = vec![
        RemoteBranch { name: Some("origin/main".to_string()), target: Some(oid(4)) },
        RemoteBranch { name: Some("origin/HEAD".to_string()), target: None },
    ];
    let branches = BranchInfo::list_all(Some(oid(2)), Some("main"), &locals, &remotes);
    let names: Vec<&str> = branches.iter().map(|b| b.name.as_str()).collect();
    assert_eq!(names, vec!["main", "zeta", "origin/main"]);
    assert!(branches[0].is_head && !branches[1].is_head);
    assert_eq!((branches[0].ahead, branches[0].behind), (1, 3));
    assert!(branches[2].is_remote);
}

#[test]
fn of_one_name_the_last_branch_counts() {
    let branches = vec![info("a", oid(1)), info("b", oid(2)), info("a", oid(3))];
    let names = [Some("First".to_string()), Some("Bob".to_string()), Some("Last".to_string())];
    let authors = branch_authors(&branches, &names);
    assert_eq!(authors, vec![("a".to_string(), "Last".to_string()), ("b".to_string(), "Bob".to_string())]);
}
