use git2::Repository;
use keifu::git::branch::BranchInfo;
use keifu::git::merged;
use keifu::git::merged::{
    base_branch, base_tips, gh_key, is_protected, is_squash_candidate, BranchEvidence, PrCommit, ScannedCommit,
    TipEvidence, TrialMerge, BASE_UPDATE_SCAN_LIMIT, SQUASH_SCAN_LIMIT,
};
use keifu::names::{NameMap, NameSet};
use keifu::oid::{Oid, OidSet};

/// A repository that lives in memory: objects, but no refs and no files.
fn memory_repository() -> Repository {
    let odb = git2::Odb::new().unwrap();
    odb.add_new_mempack_backend(1000).unwrap();
    Repository::from_odb(odb).unwrap()
}

fn theirs(o: Oid) -> git2::Oid {
    git2::Oid::from_bytes(&o.as_bytes()).unwrap()
}

fn ours(o: git2::Oid) -> Oid {
    Oid::from_bytes(o.as_bytes()).unwrap()
}

/// Commit a tree containing exactly `files` (path, content) with the given
/// parents. Building the whole tree each time keeps the object graph explicit,
/// so tree-to-tree diffs, and with them patch-ids, are what the test intends.
fn commit(repo: &Repository, _refname: &str, secs: i64, parents: &[Oid], files: &[(&str, &str)]) -> Oid {
    let mut tb = repo.treebuilder(None).unwrap();
    for (path, content) in files {
        let blob = repo.blob(content.as_bytes()).unwrap();
        tb.insert(path, blob, 0o100644).unwrap();
    }
    let tree = repo.find_tree(tb.write().unwrap()).unwrap();
    let sig = git2::Signature::new("Dev", "dev@example.com", &git2::Time::new(secs, 0)).unwrap();
    let parent_commits: Vec<_> = parents.iter().map(|p| repo.find_commit(theirs(*p)).unwrap()).collect();
    let parent_refs: Vec<&git2::Commit> = parent_commits.iter().collect();
    ours(repo.commit(None, &sig, &sig, "msg", &tree, &parent_refs).unwrap())
}

// ── what the repository says ─────────────────────────────────────────

fn merge_base(repo: &Repository, a: Oid, b: Oid) -> Option<Oid> {
    repo.merge_base(theirs(a), theirs(b)).ok().map(ours)
}

fn descends(repo: &Repository, tip: Oid, from: Oid) -> bool {
    repo.graph_descendant_of(theirs(tip), theirs(from)).unwrap_or(false)
}

fn patch_id(repo: &Repository, old: Option<&git2::Tree>, new: Option<&git2::Tree>) -> Option<Oid> {
    let mut opts = git2::DiffOptions::new();
    opts.context_lines(0);
    let diff = repo.diff_tree_to_tree(old, new, Some(&mut opts)).ok()?;
    diff.patchid(None).ok().map(ours)
}

fn tree_of(repo: &Repository, commit: Oid) -> Option<git2::Tree<'_>> {
    repo.find_commit(theirs(commit)).ok()?.tree().ok()
}

fn trial(repo: &Repository, branch_tip: Oid, base_tip: Oid) -> Option<TrialMerge> {
    let fork = merge_base(repo, branch_tip, base_tip)?;
    let (ancestor, base, branch) = (tree_of(repo, fork)?, tree_of(repo, base_tip)?, tree_of(repo, branch_tip)?);
    let mut index = repo.merge_trees(&ancestor, &base, &branch, None).ok()?;
    let conflicts = index.has_conflicts();
    let merged_tree = if conflicts { None } else { index.write_tree_to(repo).ok().map(ours) };
    Some(TrialMerge { conflicts, merged_tree, base_tree: ours(base.id()) })
}

fn scanned(repo: &Repository, oid: Oid, branch_tip: Oid, branch_patch: Option<Oid>) -> ScannedCommit {
    let unread = ScannedCommit { oid, parent_count: 0, patch_id: None, contains_branch: false };
    let Ok(commit) = repo.find_commit(theirs(oid)) else {
        return unread;
    };
    let parent_count = commit.parent_count();
    if parent_count != 1 {
        return ScannedCommit { parent_count, ..unread };
    }
    let Ok(parent) = commit.parent(0) else {
        return unread;
    };
    let id = patch_id(repo, parent.tree().ok().as_ref(), commit.tree().ok().as_ref());
    let candidate = branch_patch.map(|p| is_squash_candidate(parent_count, id, p)).unwrap_or(false);
    let contains_branch = candidate && merged::branch_content_in_base(&trial(repo, branch_tip, oid));
    ScannedCommit { oid, parent_count, patch_id: id, contains_branch }
}

fn evidence(repo: &Repository, branch_tip: Oid, base_tip: Oid) -> TipEvidence {
    let fork = merge_base(repo, branch_tip, base_tip);
    let branch_patch = fork.and_then(|f| {
        patch_id(repo, Some(&tree_of(repo, f)?), Some(&tree_of(repo, branch_tip)?))
    });
    let mut walk = Vec::new();
    let mut distance = None;
    if let (Some(f), Ok(mut w)) = (fork, repo.revwalk()) {
        if w.push(theirs(base_tip)).is_ok() {
            let _ = w.hide(theirs(f));
            let met: Vec<Oid> = w.filter_map(Result::ok).take(SQUASH_SCAN_LIMIT + 1).map(ours).collect();
            distance = Some(met.len());
            walk = met.into_iter().map(|o| scanned(repo, o, branch_tip, branch_patch)).collect();
        }
    }
    TipEvidence {
        fork,
        descends: descends(repo, base_tip, branch_tip),
        branch_patch,
        walk,
        distance,
        trial: trial(repo, branch_tip, base_tip),
    }
}

fn all_evidence(repo: &Repository, branches: &[BranchInfo], base_tip: Oid, base_name: &str) -> Vec<BranchEvidence> {
    let tips = base_tips(branches, base_tip, base_name);
    branches
        .iter()
        .map(|b| BranchEvidence {
            tips: tips.iter().map(|t| evidence(repo, b.tip_oid, *t)).collect(),
            descends: branches.iter().map(|l| descends(repo, l.tip_oid, b.tip_oid)).collect(),
        })
        .collect()
}

// ── the decisions, on a repository ───────────────────────────────────

fn is_ancestor_merged(repo: &Repository, branch_tip: Oid, base_tip: Oid) -> bool {
    merged::is_ancestor_merged(&evidence(repo, branch_tip, base_tip))
}

fn is_squash_merged(repo: &Repository, branch_tip: Oid, base_tip: Oid) -> bool {
    merged::is_squash_merged(&evidence(repo, branch_tip, base_tip), branch_tip)
}

fn is_merged_into(repo: &Repository, branch_tip: Oid, base_tip: Oid) -> bool {
    merged::is_merged_into(&evidence(repo, branch_tip, base_tip), branch_tip, base_tip)
}

fn squash_merge_target(repo: &Repository, branch_tip: Oid, base_tip: Oid) -> Option<Oid> {
    merged::squash_merge_target(&evidence(repo, branch_tip, base_tip), branch_tip)
}

fn branch_content_in_base(repo: &Repository, branch_tip: Oid, base_tip: Oid) -> bool {
    merged::branch_content_in_base(&trial(repo, branch_tip, base_tip))
}

fn classify_merged_branches_with_targets(
    repo: &Repository,
    branches: &[BranchInfo],
    base_tip: Oid,
    base_name: &str,
    gh_merged: &NameSet,
) -> (NameSet, NameMap) {
    let evidence = all_evidence(repo, branches, base_tip, base_name);
    merged::classify_merged_branches_with_targets(branches, &evidence, base_tip, base_name, gh_merged)
}

fn classify_merged_branches(
    repo: &Repository,
    branches: &[BranchInfo],
    base_tip: Oid,
    base_name: &str,
    gh_merged: &NameSet,
) -> NameSet {
    let evidence = all_evidence(repo, branches, base_tip, base_name);
    merged::classify_merged_branches(branches, &evidence, base_tip, base_name, gh_merged)
}

fn merged_local_branches(repo: &Repository, branches: &[BranchInfo], base_tip: Oid, base_name: &str) -> NameSet {
    let evidence = all_evidence(repo, branches, base_tip, base_name);
    merged::merged_local_branches(branches, &evidence, base_tip, base_name)
}

fn classify_base_update_merges(repo: &Repository, pr_heads: &[Oid], base_tip: Oid) -> OidSet {
    let mut walks = Vec::new();
    for head in pr_heads {
        let mut walk = repo.revwalk().unwrap();
        walk.push(theirs(*head)).unwrap();
        let _ = walk.hide(theirs(base_tip));
        let mut commits = Vec::new();
        for oid in walk.filter_map(Result::ok).take(BASE_UPDATE_SCAN_LIMIT) {
            let commit = repo.find_commit(oid).unwrap();
            let second_parent = commit.parent_id(1).ok().map(ours);
            commits.push(PrCommit {
                oid: ours(oid),
                parent_count: commit.parent_count(),
                second_parent,
                second_on_base: second_parent.map(|p| descends(repo, base_tip, p)).unwrap_or(false),
            });
        }
        walks.push(commits);
    }
    merged::classify_base_update_merges(&walks, base_tip)
}

fn explain(repo: &Repository, branches: &[BranchInfo], gh_merged: &NameSet) -> String {
    let evidence = match base_branch(branches) {
        Some(base) => all_evidence(repo, branches, base.tip_oid, &base.name),
        None => branches.iter().map(|_| BranchEvidence { tips: vec![], descends: vec![] }).collect(),
    };
    merged::explain_classification(branches, &evidence, gh_merged)
}

fn sorted(names: &NameSet) -> Vec<String> {
    let mut names = names.names().to_vec();
    names.sort();
    names
}

fn local(name: &str, tip: Oid, head: bool) -> BranchInfo {
    BranchInfo {
        name: name.into(),
        is_head: head,
        is_remote: false,
        upstream: None,
        tip_oid: tip,
        ahead: 0,
        behind: 0,
    }
}

#[test]
fn ancestor_branch_is_merged() {
    // main: a <- b <- c ; topic points at b, fully contained in main.
    let repo = memory_repository();
    let a = commit(&repo, "refs/heads/main", 1000, &[], &[("base.txt", "base")]);
    let b = commit(&repo, "refs/heads/main", 2000, &[a], &[("base.txt", "base"), ("b.txt", "b")]);
    let c = commit(&repo, "refs/heads/main", 3000, &[b], &[("base.txt", "base"), ("b.txt", "b"), ("c.txt", "c")]);
    assert!(is_ancestor_merged(&repo, b, c));
    assert!(is_merged_into(&repo, b, c));
}

#[test]
fn merge_commit_merge_is_detected() {
    // main: a <- b ; topic: a <- t ; merge topic into main -> m (2 parents).
    let repo = memory_repository();
    let a = commit(&repo, "refs/heads/main", 1000, &[], &[("base.txt", "base")]);
    let b = commit(&repo, "refs/heads/main", 2000, &[a], &[("base.txt", "base"), ("main.txt", "main")]);
    let t = commit(&repo, "refs/heads/topic", 2500, &[a], &[("base.txt", "base"), ("feat.txt", "feat")]);
    // Merge commit carrying both files; parents are main tip and topic tip.
    let m = commit(
        &repo,
        "refs/heads/main",
        3000,
        &[b, t],
        &[("base.txt", "base"), ("main.txt", "main"), ("feat.txt", "feat")],
    );
    assert!(is_merged_into(&repo, t, m), "topic reachable from the merge commit");
}

#[test]
fn squash_merged_branch_is_detected() {
    // main:    a <- b            (b adds main.txt)
    // feature: a <- f1 <- f2     (f1 adds feat.txt=one, f2 -> two)
    // squash:  b <- s            (s adds feat.txt=two, main's copy of feature)
    // feature's own ref survives; the remote copy is "deleted" (never reffed).
    let repo = memory_repository();
    let a = commit(&repo, "refs/heads/main", 1000, &[], &[("base.txt", "base")]);
    let b = commit(&repo, "refs/heads/main", 2000, &[a], &[("base.txt", "base"), ("main.txt", "main")]);
    let f1 = commit(&repo, "refs/heads/feature", 2100, &[a], &[("base.txt", "base"), ("feat.txt", "one")]);
    let f2 = commit(&repo, "refs/heads/feature", 2200, &[f1], &[("base.txt", "base"), ("feat.txt", "two")]);
    // The squash commit introduces the feature's *net* change (add feat.txt
    // = two) on top of main — same hunk as feature's cumulative diff.
    let s = commit(
        &repo,
        "refs/heads/main",
        3000,
        &[b],
        &[("base.txt", "base"), ("main.txt", "main"), ("feat.txt", "two")],
    );

    assert!(!is_ancestor_merged(&repo, f2, s), "no commit is shared after a squash");
    assert!(is_squash_merged(&repo, f2, s), "patch-id matches the squashed commit");
    assert!(is_merged_into(&repo, f2, s));
}

#[test]
fn unmerged_branch_is_not_merged() {
    // feature changes a different file that never landed on main.
    let repo = memory_repository();
    let a = commit(&repo, "refs/heads/main", 1000, &[], &[("base.txt", "base")]);
    let b = commit(&repo, "refs/heads/main", 2000, &[a], &[("base.txt", "base"), ("main.txt", "main")]);
    let g = commit(&repo, "refs/heads/feature", 2100, &[a], &[("base.txt", "base"), ("other.txt", "x")]);
    assert!(!is_ancestor_merged(&repo, g, b));
    assert!(!is_squash_merged(&repo, g, b));
    assert!(!is_merged_into(&repo, g, b));
}

#[test]
fn unrelated_history_is_not_merged() {
    // Two roots with no common ancestor: merge_base fails → not merged.
    let repo = memory_repository();
    let a = commit(&repo, "refs/heads/main", 1000, &[], &[("base.txt", "base")]);
    let z = commit(&repo, "refs/heads/orphan", 1000, &[], &[("z.txt", "z")]);
    assert!(!is_merged_into(&repo, z, a));
}

#[test]
fn base_branch_prefers_local_main_then_master_then_head() {
    let bs = vec![
        local("feature", Oid::zero(), true),
        local("master", Oid::zero(), false),
        local("main", Oid::zero(), false),
    ];
    assert_eq!(base_branch(&bs).map(|b| b.name.as_str()), Some("main"));

    let bs = vec![local("feature", Oid::zero(), true), local("master", Oid::zero(), false)];
    assert_eq!(base_branch(&bs).map(|b| b.name.as_str()), Some("master"));

    let bs = vec![local("feature", Oid::zero(), true), local("dev", Oid::zero(), false)];
    assert_eq!(base_branch(&bs).map(|b| b.name.as_str()), Some("feature"));

    assert!(base_branch(&[]).is_none());
}

#[test]
fn merged_local_branches_classifies_the_set() {
    // main advances to s (squash of feature). topic is a plain ancestor.
    // gone is unmerged. HEAD (main) and the base are never classified.
    let repo = memory_repository();
    let a = commit(&repo, "refs/heads/main", 1000, &[], &[("base.txt", "base")]);
    let b = commit(&repo, "refs/heads/main", 2000, &[a], &[("base.txt", "base"), ("main.txt", "main")]);
    let f1 = commit(&repo, "refs/heads/feature", 2100, &[a], &[("base.txt", "base"), ("feat.txt", "one")]);
    let f2 = commit(&repo, "refs/heads/feature", 2200, &[f1], &[("base.txt", "base"), ("feat.txt", "two")]);
    let g = commit(&repo, "refs/heads/gone", 2300, &[a], &[("base.txt", "base"), ("other.txt", "x")]);
    let s = commit(
        &repo,
        "refs/heads/main",
        3000,
        &[b],
        &[("base.txt", "base"), ("main.txt", "main"), ("feat.txt", "two")],
    );

    let branches = vec![
        local("main", s, true), // HEAD + base
        local("topic", b, false),
        local("feature", f2, false),
        local("gone", g, false),
    ];
    let merged = merged_local_branches(&repo, &branches, s, "main");
    assert!(merged.contains("topic"), "ancestor merge");
    assert!(merged.contains("feature"), "squash merge");
    assert!(!merged.contains("gone"), "never merged");
    assert!(!merged.contains("main"), "base/HEAD is never classified");
    assert_eq!(merged.len(), 2);

    // The targets variant reports the same set PLUS the squash landing
    // commit for the squash-merged branch only.
    let (merged2, targets) =
        classify_merged_branches_with_targets(&repo, &branches, s, "main", &NameSet::new());
    assert_eq!(sorted(&merged2), sorted(&merged), "target variant's set matches the plain one");
    assert_eq!(
        targets.get("feature"),
        Some(s),
        "feature squash-links to the squash commit s"
    );
    assert!(
        !targets.get("topic").is_some(),
        "an ancestry merge has no single squash landing commit"
    );
    assert!(!targets.get("gone").is_some(), "unmerged branch has no target");
}

#[test]
fn squash_merge_target_names_the_commit_or_none() {
    // main:    a <- b <- s   (s squashes feature onto main)
    // feature: a <- f1 <- f2
    let repo = memory_repository();
    let a = commit(&repo, "refs/heads/main", 1000, &[], &[("base.txt", "base")]);
    let b = commit(&repo, "refs/heads/main", 2000, &[a], &[("base.txt", "base"), ("main.txt", "main")]);
    let f1 = commit(&repo, "refs/heads/feature", 2100, &[a], &[("base.txt", "base"), ("feat.txt", "one")]);
    let f2 = commit(&repo, "refs/heads/feature", 2200, &[f1], &[("base.txt", "base"), ("feat.txt", "two")]);
    let s = commit(
        &repo,
        "refs/heads/main",
        3000,
        &[b],
        &[("base.txt", "base"), ("main.txt", "main"), ("feat.txt", "two")],
    );
    assert_eq!(
        squash_merge_target(&repo, f2, s),
        Some(s),
        "the squash commit is named"
    );
    // A branch that never landed has no target.
    let g = commit(&repo, "refs/heads/gone", 2300, &[a], &[("base.txt", "base"), ("other.txt", "x")]);
    assert_eq!(squash_merge_target(&repo, g, s), None, "unmerged → no target");
    // An ancestry (fully-contained) branch is not a squash → no target.
    assert_eq!(squash_merge_target(&repo, b, s), None, "ancestry → no target");
}

// ── Squash onto an ADVANCED base ─────────────────────────────

#[test]
fn squash_with_advanced_base_overlapping_context_is_detected() {
    // Scenario (b): a multi-commit feature squashed onto a base that ADVANCED
    // since the fork, where the advancing commit edits a line within the diff
    // context window of the feature's own change (context drift). With default
    // (3-line) context the branch's cumulative diff and the squash's diff carry
    // DIFFERENT surrounding context, so a context-sensitive patch-id misses the
    // match; the zero-context patch-id keys only on the changed lines and hits.
    //
    // file.txt starts "L1..L5"; feature inserts FEAT after L2; the base then
    // changes L1 -> L1x (adjacent to FEAT) before the feature squashes in.
    let repo = memory_repository();
    let a = commit(&repo, "refs/heads/main", 1000, &[], &[("file.txt", "L1\nL2\nL3\nL4\nL5\n")]);
    let f1 = commit(&repo, "refs/heads/feature", 1100, &[a], &[("file.txt", "L1\nL2\nFEAT\nL3\nL4\nL5\n")]);
    let f2 = commit(&repo, "refs/heads/feature", 1200, &[f1], &[("file.txt", "L1\nL2\nFEAT\nL3\nL4\nL5\n"), ("note.txt", "n")]);
    // Base advances (L1 -> L1x), then the squash lands feature on top of it.
    let adv = commit(&repo, "refs/heads/main", 2000, &[a], &[("file.txt", "L1x\nL2\nL3\nL4\nL5\n")]);
    let s = commit(&repo, "refs/heads/main", 3000, &[adv], &[("file.txt", "L1x\nL2\nFEAT\nL3\nL4\nL5\n"), ("note.txt", "n")]);

    assert!(!is_ancestor_merged(&repo, f2, s), "no shared commit after a squash");
    assert!(
        is_squash_merged(&repo, f2, s),
        "squash onto an advanced base (context drift) must be detected"
    );
    // The link-line target is still nameable: the squash commit `s`.
    assert_eq!(squash_merge_target(&repo, f2, s), Some(s));
}

#[test]
fn squash_survives_later_trunk_edits_to_the_landed_lines() {
    // After a genuine squash, the trunk keeps evolving — including editing
    // the very lines the branch introduced. Containment against the base
    // TIP three-way-conflicts then (branch adds FEAT where the tip has
    // FEAT-v2), so the cross-check must run at the matched squash commit,
    // where the work is contained by construction.
    let repo = memory_repository();
    let a = commit(&repo, "refs/heads/main", 1000, &[], &[("file.txt", "L1\nL2\nL3\n")]);
    let f = commit(&repo, "refs/heads/feature", 1100, &[a], &[("file.txt", "L1\nL2\nFEAT\nL3\n")]);
    let s = commit(&repo, "refs/heads/main", 2000, &[a], &[("file.txt", "L1\nL2\nFEAT\nL3\n")]);
    // Trunk later rewrites the landed line.
    let t = commit(&repo, "refs/heads/main", 3000, &[s], &[("file.txt", "L1\nL2\nFEAT-v2\nL3\n")]);

    // Sanity: the gap this test pins down — at the tip the branch is no
    // longer cleanly contained, so a tip-anchored gate would miss it.
    assert!(!branch_content_in_base(&repo, f, t));
    assert!(
        is_squash_merged(&repo, f, t),
        "a squashed branch must stay classified after trunk edits its lines"
    );
    assert_eq!(squash_merge_target(&repo, f, t), Some(s), "link target is the squash commit");
}

#[test]
fn advanced_base_but_unlanded_branch_is_not_squash_detected() {
    // Precision guard for the zero-context patch-id: the same advanced-base
    // shape, but the feature's change NEVER landed on the base. Dropping diff
    // context must not make an unrelated branch collide.
    let repo = memory_repository();
    let a = commit(&repo, "refs/heads/main", 1000, &[], &[("file.txt", "L1\nL2\nL3\nL4\nL5\n")]);
    let f = commit(&repo, "refs/heads/feature", 1100, &[a], &[("file.txt", "L1\nL2\nFEAT\nL3\nL4\nL5\n")]);
    // Base advances but never picks up FEAT.
    let adv = commit(&repo, "refs/heads/main", 2000, &[a], &[("file.txt", "L1x\nL2\nL3\nL4\nL5\n")]);
    assert!(!is_squash_merged(&repo, f, adv), "an unlanded branch must never be squash-detected");
    assert!(!is_merged_into(&repo, f, adv));
}

#[test]
fn same_line_inserted_at_a_different_place_does_not_collide() {
    // Precision guard for the zero-context patch-id: an unrelated trunk commit
    // and a feature branch each insert the SAME line into the SAME file but at
    // DIFFERENT places, and the feature never landed. Zero-context patch-ids
    // collide (identical added-line set), so the three-way containment
    // cross-check is what must keep the branch visible.
    let repo = memory_repository();
    let a = commit(&repo, "refs/heads/main", 1000, &[], &[("file.txt", "A\nB\nC\nD\nE\n")]);
    // Trunk commit inserts INSERTED after A.
    let p = commit(&repo, "refs/heads/main", 2000, &[a], &[("file.txt", "A\nINSERTED\nB\nC\nD\nE\n")]);
    // Feature inserts the SAME line after D — genuinely different, unlanded work.
    let f = commit(&repo, "refs/heads/feature", 2100, &[a], &[("file.txt", "A\nB\nC\nD\nINSERTED\nE\n")]);

    assert!(!branch_content_in_base(&repo, f, p), "the two insertions differ — not contained");
    assert!(
        !is_squash_merged(&repo, f, p),
        "a zero-context patch-id collision must not classify unlanded work as merged"
    );
    assert_eq!(squash_merge_target(&repo, f, p), None, "no genuine squash to name");
    assert!(!is_merged_into(&repo, f, p));
}

#[test]
fn conflict_resolved_squash_needs_the_gh_signal() {
    // Scenario (c): the landed squash differs slightly from the branch diff (a
    // maintainer resolved a conflict on the way in), so no local signal — not
    // patch-id, and not the three-way content check (the divergent lines
    // conflict) — can classify it. Only the GitHub PR signal can, and it must
    // NOT be rescued locally: local precision stays intact.
    let repo = memory_repository();
    let a = commit(&repo, "refs/heads/main", 1000, &[], &[("file.txt", "L1\nL2\nL3\n")]);
    let f = commit(&repo, "refs/heads/feature", 1100, &[a], &[("file.txt", "L1\nBRANCH\nL3\n")]);
    // The landed version differs (maintainer tweaked BRANCH -> BRANCH-fixed);
    // the base also advanced the same line, so a merge would conflict.
    let s = commit(&repo, "refs/heads/main", 3000, &[a], &[("file.txt", "L1\nBRANCH-fixed\nL3\n")]);
    assert!(!is_squash_merged(&repo, f, s), "content drift: patch-id cannot match");
    assert!(!branch_content_in_base(&repo, f, s), "divergent lines conflict, so not contained");
    // Without gh it stays visible; the gh signal alone can't rescue it either,
    // because the content cross-check (correctly) rejects the conflict.
    let branches = vec![local("main", s, true), local("feature", f, false)];
    assert!(!classify_merged_branches(&repo, &branches, s, "main", &gh(&["feature"])).contains("feature"));
}

#[test]
fn gh_signal_classifies_multi_commit_landing_onto_an_advanced_base() {
    // Scenario (b) via the GitHub fallback: the branch's work landed across
    // MULTIPLE base commits (so no single squash commit's patch-id matches),
    // AND the base advanced by editing a file the branch also carries an older
    // copy of. The old file-delta cross-check read that behind-file as novel
    // work and missed it; the three-way content check attributes the base's
    // edit to the base side and correctly sees the branch as contained.
    let repo = memory_repository();
    let a = commit(&repo, "refs/heads/main", 1000, &[], &[("shared.txt", "S1\nS2\nS3\n")]);
    // Feature adds x.txt and y.txt across two commits (no single squash equals
    // its combined diff), keeping shared.txt at the forked content.
    let f1 = commit(&repo, "refs/heads/feature", 1100, &[a], &[("shared.txt", "S1\nS2\nS3\n"), ("x.txt", "x")]);
    let f2 = commit(&repo, "refs/heads/feature", 1200, &[f1], &[("shared.txt", "S1\nS2\nS3\n"), ("x.txt", "x"), ("y.txt", "y")]);
    // Base lands x and y as two separate commits AND advances shared.txt.
    let b1 = commit(&repo, "refs/heads/main", 2000, &[a], &[("shared.txt", "S1x\nS2\nS3\n"), ("x.txt", "x")]);
    let b2 = commit(&repo, "refs/heads/main", 2100, &[b1], &[("shared.txt", "S1x\nS2\nS3\n"), ("x.txt", "x"), ("y.txt", "y")]);

    assert!(!is_ancestor_merged(&repo, f2, b2));
    assert!(!is_squash_merged(&repo, f2, b2), "no single squash commit matches");
    assert!(
        branch_content_in_base(&repo, f2, b2),
        "three-way check: branch content is contained despite the advanced shared file"
    );
    let branches = vec![local("main", b2, true), local("feature", f2, false)];
    // Without gh: content match alone isn't trusted → stays visible.
    assert!(!classify_merged_branches(&repo, &branches, b2, "main", &NameSet::new()).contains("feature"));
    // With gh: classified.
    assert!(classify_merged_branches(&repo, &branches, b2, "main", &gh(&["feature"])).contains("feature"));
}

fn remote(name: &str, tip: Oid) -> BranchInfo {
    BranchInfo {
        name: name.into(),
        is_head: false,
        is_remote: true,
        upstream: None,
        tip_oid: tip,
        ahead: 0,
        behind: 0,
    }
}

#[test]
fn squash_on_the_working_trunks_remote_lands_before_the_local_pull() {
    // A squash-merge PR
    // against the working trunk (chong-dev) lands on origin/chong-dev and
    // GitHub deletes the PR branch; the LOCAL trunk lags until the next
    // pull. The landed branch must classify in that window — the working
    // trunk's remote counterpart is a trunk tip too.
    let repo = memory_repository();
    let a = commit(&repo, "refs/heads/main", 1000, &[], &[("base.txt", "base")]);
    let d1 = commit(&repo, "refs/heads/dev", 2000, &[a], &[("base.txt", "base"), ("d.txt", "d")]);
    // Feature off the working trunk, two commits.
    let f1 = commit(&repo, "refs/heads/feature", 3000, &[d1], &[("base.txt", "base"), ("d.txt", "d"), ("f.txt", "one")]);
    let f2 = commit(&repo, "refs/heads/feature", 3100, &[f1], &[("base.txt", "base"), ("d.txt", "d"), ("f.txt", "one\ntwo")]);
    // The squash lands on origin/dev only; local dev stays at d1.
    let s = commit(&repo, "refs/remotes/origin/dev", 4000, &[d1], &[("base.txt", "base"), ("d.txt", "d"), ("f.txt", "one\ntwo")]);

    let dev = BranchInfo {
        name: "dev".into(),
        is_head: true,
        is_remote: false,
        upstream: Some("origin/dev".into()),
        tip_oid: d1,
        ahead: 0,
        behind: 1,
    };
    let branches = vec![
        local("main", a, false),
        dev,
        remote("origin/dev", s),
        local("feature", f2, false),
    ];
    let base = base_branch(&branches).unwrap();
    assert_eq!(base.name, "main");
    let (set, targets) = classify_merged_branches_with_targets(
        &repo,
        &branches,
        base.tip_oid,
        &base.name,
        &NameSet::new(),
    );
    assert!(set.contains("feature"), "landed branch classifies pre-pull: {set:?}");
    assert_eq!(targets.get("feature"), Some(s), "squash target on origin/dev");
    assert!(!set.contains("origin/dev"), "the working trunk's remote counterpart is a trunk");
    assert!(!set.contains("dev"), "HEAD never classifies");
}

#[test]
fn remote_mirror_behind_its_local_counterpart_is_never_merged() {
    // chong-dev is checked out with unpushed commits, so
    // origin/chong-dev lags the local tip. Since the checked-out tip is a
    // trunk tip, the mirror's tip is an ancestor of it and the
    // ancestry signal would dim/hide the remote copy of the very line the
    // user is working on.
    let repo = memory_repository();
    let a = commit(&repo, "refs/heads/main", 1000, &[], &[("base.txt", "base")]);
    let r = commit(&repo, "refs/remotes/origin/dev", 2000, &[a], &[("base.txt", "base"), ("d.txt", "one")]);
    let l = commit(&repo, "refs/heads/dev", 2100, &[r], &[("base.txt", "base"), ("d.txt", "one\ntwo")]);

    let branches = vec![
        local("main", a, false),
        local("dev", l, true), // checked out, ahead of its remote
        remote("origin/dev", r),
    ];
    let base = base_branch(&branches).unwrap();
    let set = classify_merged_branches(&repo, &branches, base.tip_oid, &base.name, &NameSet::new());
    assert!(
        !set.contains("origin/dev"),
        "the remote mirror of the live local line is stale, not merged: {set:?}"
    );
}

#[test]
fn non_selected_trunk_name_behind_the_checked_out_branch_is_never_merged() {
    // With both main and master present, main is the selected base — but
    // master (upstream-less, fully contained in the checked-out feature)
    // must not classify either: trunk-by-convention names are trunks.
    let repo = memory_repository();
    let a = commit(&repo, "refs/heads/main", 1000, &[], &[("base.txt", "base")]);
    let m = commit(&repo, "refs/heads/master", 1100, &[a], &[("base.txt", "base"), ("m.txt", "m")]);
    let f = commit(&repo, "refs/heads/feature", 2000, &[m], &[("base.txt", "base"), ("m.txt", "m"), ("f.txt", "f")]);

    let branches = vec![
        local("main", a, false),
        local("master", m, false),
        local("feature", f, true),
    ];
    let base = base_branch(&branches).unwrap();
    assert_eq!(base.name, "main");
    let set = classify_merged_branches(&repo, &branches, base.tip_oid, &base.name, &NameSet::new());
    assert!(!set.contains("master"), "a conventional trunk name never classifies: {set:?}");
    assert!(!set.contains("main"));
}

#[test]
fn local_branch_behind_its_upstream_is_never_marked_merged() {
    // Local `dev` lags `origin/dev`, and the checked-out
    // branch forked from origin/dev — so dev's tip is an ancestor of the
    // HEAD trunk tip. That is staleness (the remote counterpart is the live
    // line), not landed work; the ancestry signal must not classify it.
    let repo = memory_repository();
    let a = commit(&repo, "refs/heads/main", 1000, &[], &[("base.txt", "base")]);
    let d1 = commit(&repo, "refs/heads/dev", 2000, &[a], &[("base.txt", "base"), ("d.txt", "one")]);
    let d2 = commit(&repo, "refs/remotes/origin/dev", 2100, &[d1], &[("base.txt", "base"), ("d.txt", "one\ntwo")]);
    let f = commit(&repo, "refs/heads/feature", 3000, &[d2], &[("base.txt", "base"), ("d.txt", "one\ntwo"), ("f.txt", "f")]);

    let dev = BranchInfo {
        name: "dev".into(),
        is_head: false,
        is_remote: false,
        upstream: Some("origin/dev".into()),
        tip_oid: d1,
        ahead: 0,
        behind: 1,
    };
    let branches = vec![
        local("main", a, false),
        dev,
        remote("origin/dev", d2),
        local("feature", f, true), // checked out — its tip contains origin/dev
    ];
    let base = base_branch(&branches).unwrap();
    let set = classify_merged_branches(&repo, &branches, base.tip_oid, &base.name, &NameSet::new());
    assert!(
        !set.contains("dev"),
        "a branch strictly behind its upstream is stale, not merged: {set:?}"
    );
    // The live remote line ancestry-merged into the checked-out branch DOES
    // classify — hiding it is correct, its work is fully in view.
    assert!(set.contains("origin/dev"), "the contained live remote line classifies: {set:?}");
}

#[test]
fn branches_merged_into_the_checked_out_trunk_are_classified() {
    // The working
    // trunk is a long-lived non-main branch (chong-dev style). Branches are
    // merged INTO the checked-out branch; local main lags far behind and
    // knows nothing about them. They must still classify — the checked-out
    // tip is a trunk tip — while neither main nor the checked-out branch
    // itself ever classifies.
    let repo = memory_repository();
    let a = commit(&repo, "refs/heads/main", 1000, &[], &[("base.txt", "base")]);
    // Feature branched from main, merged into dev (real merge commit).
    let f = commit(&repo, "refs/heads/feature", 2000, &[a], &[("base.txt", "base"), ("f.txt", "f")]);
    let d1 = commit(&repo, "refs/heads/dev", 2100, &[a], &[("base.txt", "base"), ("d.txt", "d")]);
    let d2 = commit(&repo, "refs/heads/dev", 2200, &[d1, f], &[("base.txt", "base"), ("d.txt", "d"), ("f.txt", "f")]);
    // A second feature squash-merged into dev.
    let g = commit(&repo, "refs/heads/feature2", 3000, &[a], &[("base.txt", "base"), ("g.txt", "g")]);
    let s = commit(&repo, "refs/heads/dev", 3100, &[d2], &[("base.txt", "base"), ("d.txt", "d"), ("f.txt", "f"), ("g.txt", "g")]);
    // An unlanded branch.
    let u = commit(&repo, "refs/heads/wip", 4000, &[a], &[("base.txt", "base"), ("u.txt", "u")]);

    let branches = vec![
        local("main", a, false),
        local("dev", s, true), // checked out; d1..s never reached main
        local("feature", f, false),
        local("feature2", g, false),
        local("wip", u, false),
    ];
    let base = base_branch(&branches).unwrap();
    assert_eq!(base.name, "main", "main still selected as primary base");
    let (set, targets) = classify_merged_branches_with_targets(
        &repo,
        &branches,
        base.tip_oid,
        &base.name,
        &NameSet::new(),
    );
    assert!(set.contains("feature"), "merge-commit landing on the checked-out trunk: {set:?}");
    assert!(set.contains("feature2"), "squash landing on the checked-out trunk: {set:?}");
    assert_eq!(targets.get("feature2"), Some(s), "squash target on the checked-out trunk");
    assert!(!set.contains("wip"), "unlanded work stays visible");
    assert!(!set.contains("main"), "the lagging primary trunk is never classified");
    assert!(!set.contains("dev"), "the checked-out branch is never classified");
}

#[test]
fn user_flow_local_survivor_remote_branch_deleted_squash_on_drifted_remote_trunk() {
    // GitHub deletes the REMOTE branch after the
    // squash-merge, the LOCAL feature ref survives; the squash exists only
    // on origin/main (local main never pulled); origin/main also drifted
    // (another commit landed near the feature's edit before the squash);
    // HEAD sits on an unrelated dev branch.
    let repo = memory_repository();
    let a1 = commit(&repo, "refs/heads/main", 1000, &[], &[("file.txt", "L1\nL2\nL3\nL4\n")]);
    let a2 = commit(&repo, "refs/heads/main", 1100, &[a1], &[("file.txt", "L1\nL2\nL3\nL4\n"), ("readme.md", "r")]);
    // Local feature: two commits, ref survives the merge.
    let f1 = commit(&repo, "refs/heads/feature", 2000, &[a2], &[("file.txt", "L1\nL2\nFEAT\nL3\nL4\n"), ("readme.md", "r")]);
    let f2 = commit(&repo, "refs/heads/feature", 2100, &[f1], &[("file.txt", "L1\nL2\nFEAT\nL3\nL4\n"), ("readme.md", "r"), ("new.txt", "n")]);
    // origin/main: a drift commit editing a line adjacent to the feature's
    // change, then the squash. No origin/feature ref exists (deleted).
    let m3 = commit(&repo, "refs/remotes/origin/main", 3000, &[a2], &[("file.txt", "L1x\nL2\nL3\nL4\n"), ("readme.md", "r")]);
    let s = commit(&repo, "refs/remotes/origin/main", 4000, &[m3], &[("file.txt", "L1x\nL2\nFEAT\nL3\nL4\n"), ("readme.md", "r"), ("new.txt", "n")]);
    let d = commit(&repo, "refs/heads/dev", 5000, &[a2], &[("file.txt", "L1\nL2\nL3\nL4\n"), ("readme.md", "r"), ("dev.txt", "d")]);

    let branches = vec![
        local("main", a2, false),
        local("feature", f2, false),
        local("dev", d, true),
        remote("origin/main", s),
    ];
    let base = base_branch(&branches).unwrap();
    assert_eq!(base.name, "main", "local main preferred even though behind");
    let (set, targets) = classify_merged_branches_with_targets(
        &repo,
        &branches,
        base.tip_oid,
        &base.name,
        &NameSet::new(),
    );
    assert!(
        set.contains("feature"),
        "surviving local ref must classify via the drifted origin/main tip: {set:?}"
    );
    assert_eq!(targets.get("feature"), Some(s), "link target is the squash on origin/main");
    assert!(!set.contains("dev"), "unlanded work stays visible");
}

#[test]
fn squash_landed_on_remote_trunk_is_classified_when_local_trunk_lags() {
    // A feature is squash-merged onto `origin/main`; keifu has
    // fetched (so origin/main carries the squash) but the user hasn't pulled,
    // so local `main` still sits at the fork point. Classification must still
    // hide the feature — measured against the ahead remote tip, not just the
    // stale local one.
    let repo = memory_repository();
    // Fork point; local main stays here (stale).
    let a = commit(&repo, "refs/heads/main", 1000, &[], &[("base.txt", "base")]);
    // Feature: two commits building feat.txt (multi-commit, so only the
    // *cumulative* diff equals the squash).
    let f1 = commit(&repo, "refs/heads/feature", 2100, &[a], &[("base.txt", "base"), ("feat.txt", "one")]);
    let f2 = commit(&repo, "refs/heads/feature", 2200, &[f1], &[("base.txt", "base"), ("feat.txt", "one\ntwo")]);
    // Squash lands the feature's net diff on origin/main (single commit).
    let s = commit(&repo, "refs/remotes/origin/main", 3000, &[a], &[("base.txt", "base"), ("feat.txt", "one\ntwo")]);
    // An unrelated branch that genuinely never landed.
    let g = commit(&repo, "refs/heads/gone", 2300, &[a], &[("base.txt", "base"), ("other.txt", "x")]);

    let branches = vec![
        local("main", a, true), // stale local trunk, also HEAD
        remote("origin/main", s),
        local("feature", f2, false),
        local("gone", g, false),
    ];
    // Sanity: against the stale local tip alone, the squash is invisible.
    assert!(!is_squash_merged(&repo, f2, a), "stale local tip cannot see the squash");
    assert!(is_squash_merged(&repo, f2, s), "remote tip carries the squash");

    // base_branch prefers the (stale) local main; classification must reach
    // through to origin/main anyway.
    let base = base_branch(&branches).unwrap();
    assert_eq!(base.name, "main");
    let merged = merged_local_branches(&repo, &branches, base.tip_oid, &base.name);
    assert!(merged.contains("feature"), "squash on ahead remote trunk must be classified");
    assert!(!merged.contains("gone"), "genuinely unmerged branch stays visible");
    assert!(!merged.contains("main"), "the trunk itself is never classified");
    assert!(!merged.contains("origin/main"), "remote branches are never classified");
    assert_eq!(merged.len(), 1);
}

#[test]
fn ancestor_merge_on_remote_trunk_is_classified_when_local_trunk_lags() {
    // The same remote-tip reach must also cover a plain (non-squash) merge
    // that has been fetched into origin/main but not pulled to local main.
    let repo = memory_repository();
    let a = commit(&repo, "refs/heads/main", 1000, &[], &[("base.txt", "base")]);
    let t = commit(&repo, "refs/heads/topic", 2000, &[a], &[("base.txt", "base"), ("t.txt", "t")]);
    // origin/main advanced to include topic and one further commit; local
    // main lags at `a`. topic is a strict ancestor of origin/main's tip.
    let u = commit(&repo, "refs/remotes/origin/main", 2500, &[t], &[("base.txt", "base"), ("t.txt", "t"), ("u.txt", "u")]);
    let branches = vec![local("main", a, true), remote("origin/main", u), local("topic", t, false)];
    let base = base_branch(&branches).unwrap();
    let merged = merged_local_branches(&repo, &branches, base.tip_oid, &base.name);
    assert!(merged.contains("topic"), "ancestor merge visible only on remote trunk must classify");
}

#[test]
fn base_tips_omits_matching_or_absent_remote_trunk() {
    // When local main is up to date (origin/main equal), the remote adds no
    // second tip — behaviour is identical to before.
    let z = Oid::zero();
    let branches = vec![local("main", z, true), remote("origin/main", z)];
    assert_eq!(base_tips(&branches, z, "main"), vec![z], "equal remote adds no tip");
    // A remote base name has no bare `origin/…` counterpart to add.
    assert_eq!(base_tips(&branches, z, "origin/main"), vec![z]);
    // No remote trunk present at all → just the local tip.
    assert_eq!(base_tips(&[local("main", z, true)], z, "main"), vec![z]);
}

// ── Remote-branch classification ─────────────────────────
//
// After a GitHub squash-merge the surviving ref is frequently the *remote*
// branch (`origin/feature`): the local copy was deleted, or the branch was
// only ever fetched. These must be classified (hidden + link-lined) exactly
// like a surviving local ref.

#[test]
fn remote_only_squash_merged_branch_is_classified() {
    // The wild-repo failure shape, minimised: `origin/feature` is the only
    // surviving ref of a squash-merged PR (no local counterpart). It must be
    // classified merged AND name the squash landing commit for the link.
    let repo = memory_repository();
    let a = commit(&repo, "refs/heads/main", 1000, &[], &[("base.txt", "base")]);
    let b = commit(&repo, "refs/heads/main", 2000, &[a], &[("base.txt", "base"), ("main.txt", "main")]);
    // Feature (two commits) lives only on the remote after the merge.
    let f1 = commit(&repo, "refs/remotes/origin/feature", 2100, &[a], &[("base.txt", "base"), ("feat.txt", "one")]);
    let f2 = commit(&repo, "refs/remotes/origin/feature", 2200, &[f1], &[("base.txt", "base"), ("feat.txt", "one\ntwo")]);
    // Squash lands the feature's net diff on main.
    let s = commit(
        &repo,
        "refs/heads/main",
        3000,
        &[b],
        &[("base.txt", "base"), ("main.txt", "main"), ("feat.txt", "one\ntwo")],
    );

    let branches = vec![
        local("main", s, true),
        remote("origin/feature", f2),
    ];
    let (merged, targets) =
        classify_merged_branches_with_targets(&repo, &branches, s, "main", &NameSet::new());
    assert!(
        merged.contains("origin/feature"),
        "a squash-merged remote-only branch must be classified"
    );
    assert_eq!(
        targets.get("origin/feature"),
        Some(s),
        "the remote squash branch links to the squash commit"
    );
}

#[test]
fn remote_trunk_ref_is_never_classified_even_though_remotes_are_eligible() {
    // Precision guard: `origin/main` (the trunk's
    // own remote counterpart) must never be classified as merged into itself,
    // whether it is equal to, ahead of, or behind the local trunk. It is always
    // a base tip, so the base-tip guard drops it.
    let repo = memory_repository();
    let a = commit(&repo, "refs/heads/main", 1000, &[], &[("base.txt", "base")]);
    // origin/main ahead of local main by one commit.
    let u = commit(&repo, "refs/remotes/origin/main", 2000, &[a], &[("base.txt", "base"), ("u.txt", "u")]);
    let branches = vec![local("main", a, true), remote("origin/main", u)];
    let base = base_branch(&branches).unwrap();
    let merged = merged_local_branches(&repo, &branches, base.tip_oid, &base.name);
    assert!(!merged.contains("origin/main"), "the remote trunk is never classified as merged");
    assert!(merged.is_empty(), "no branch to classify here");
}

#[test]
fn second_remote_trunk_mirror_that_lags_the_base_is_not_classified() {
    // A *second* remote's trunk mirror (`upstream/main`)
    // that lags the base is an ANCESTOR of it, so without a trunk-name guard it
    // would read as a landed feature branch and be hidden/dimmed. It is a trunk,
    // not a feature — it must stay visible. (`base_tips` only exempts the
    // `origin/` mirror, so this needs the short-name guard.)
    let repo = memory_repository();
    let a = commit(&repo, "refs/heads/main", 1000, &[], &[("base.txt", "base")]);
    // Local main advances past `a`.
    let b = commit(&repo, "refs/heads/main", 2000, &[a], &[("base.txt", "base"), ("main.txt", "main")]);
    // upstream/main lags at `a` — a strict ancestor of local main's tip.
    // A genuinely-merged feature to prove the guard didn't over-suppress.
    let f = commit(&repo, "refs/remotes/origin/feature", 2100, &[a], &[("base.txt", "base"), ("main.txt", "main")]);

    let branches = vec![
        local("main", b, true),
        remote("upstream/main", a),
        remote("origin/feature", f),
    ];
    let merged = merged_local_branches(&repo, &branches, b, "main");
    assert!(
        !merged.contains("upstream/main"),
        "a second remote's trunk mirror must not be classified as a merged feature"
    );
    assert!(
        merged.contains("origin/feature"),
        "the guard is targeted: a genuinely-landed remote feature still classifies"
    );
}

#[test]
fn gh_signal_classifies_a_remote_branch_by_prefix_stripped_name() {
    // GitHub reports `headRefName` without a remote prefix ("feature"), but the
    // surviving ref is `origin/feature`. The gh cross-check must strip the
    // remote segment so the name matches — and the content check must still
    // guard it (name reuse safety carries over to remotes).
    let repo = memory_repository();
    let a = commit(&repo, "refs/heads/main", 1000, &[], &[("base.txt", "base")]);
    // Branch content lands across two base commits (no single squash matches),
    // so only the gh signal + content check can classify it.
    let f1 = commit(&repo, "refs/remotes/origin/feature", 1100, &[a], &[("base.txt", "base"), ("x.txt", "x")]);
    let f2 = commit(&repo, "refs/remotes/origin/feature", 1200, &[f1], &[("base.txt", "base"), ("x.txt", "x"), ("y.txt", "y")]);
    let b1 = commit(&repo, "refs/heads/main", 2000, &[a], &[("base.txt", "base"), ("x.txt", "x")]);
    let b2 = commit(&repo, "refs/heads/main", 2100, &[b1], &[("base.txt", "base"), ("x.txt", "x"), ("y.txt", "y")]);

    let branches = vec![local("main", b2, true), remote("origin/feature", f2)];
    assert!(!is_squash_merged(&repo, f2, b2), "no single squash commit matches");
    // Without gh: content match alone is not trusted → stays visible.
    assert!(!classify_merged_branches(&repo, &branches, b2, "main", &NameSet::new()).contains("origin/feature"));
    // With gh reporting head "feature" (no prefix): the remote ref classifies.
    assert!(classify_merged_branches(&repo, &branches, b2, "main", &gh(&["feature"])).contains("origin/feature"));
}

#[test]
fn remote_name_reuse_with_novel_content_is_not_classified() {
    // Name-reuse safety, remote edition: gh says a PR with head "feature"
    // merged, but the surviving `origin/feature` carries novel content the base
    // lacks (a new branch reused the name upstream). It must stay visible.
    let repo = memory_repository();
    let a = commit(&repo, "refs/heads/main", 1000, &[], &[("base.txt", "base")]);
    let b = commit(&repo, "refs/heads/main", 2000, &[a], &[("base.txt", "base"), ("main.txt", "main")]);
    let f = commit(&repo, "refs/remotes/origin/feature", 2100, &[a], &[("base.txt", "base"), ("novel.txt", "new work")]);
    let branches = vec![local("main", b, true), remote("origin/feature", f)];
    assert!(
        !classify_merged_branches(&repo, &branches, b, "main", &gh(&["feature"])).contains("origin/feature"),
        "remote name reuse with novel content must not be classified"
    );
}

// ── Update-merge / back-merge PR branches ─────────────────

#[test]
fn squash_detected_after_advanced_base_was_back_merged_into_the_branch() {
    // A real PR often has the advanced base merged INTO it ("Update branch")
    // before it squash-lands. The merge_base then advances to that sync point;
    // the branch's cumulative diff from there must still equal the squash's
    // diff. Verifies classification survives the back-merge.
    let repo = memory_repository();
    let a = commit(&repo, "refs/heads/main", 1000, &[], &[("base.txt", "base")]);
    // Feature: two commits building feat.txt.
    let f1 = commit(&repo, "refs/heads/feature", 1100, &[a], &[("base.txt", "base"), ("feat.txt", "one")]);
    let f2 = commit(&repo, "refs/heads/feature", 1200, &[f1], &[("base.txt", "base"), ("feat.txt", "one\ntwo")]);
    // Base advances (adds main.txt) while the PR is open.
    let adv = commit(&repo, "refs/heads/main", 2000, &[a], &[("base.txt", "base"), ("main.txt", "main")]);
    // "Update branch": merge the advanced base INTO the feature branch. First
    // parent = feature (f2), second = base (adv). Tree carries both sides.
    let m = commit(
        &repo,
        "refs/heads/feature",
        2500,
        &[f2, adv],
        &[("base.txt", "base"), ("feat.txt", "one\ntwo"), ("main.txt", "main")],
    );
    // Squash lands the feature's net diff on top of the advanced base.
    let s = commit(
        &repo,
        "refs/heads/main",
        3000,
        &[adv],
        &[("base.txt", "base"), ("main.txt", "main"), ("feat.txt", "one\ntwo")],
    );

    assert_eq!(merge_base(&repo, m, s).unwrap(), adv, "merge_base is the back-merge sync point");
    assert!(!is_ancestor_merged(&repo, m, s), "no shared commit after the squash");
    assert!(
        is_squash_merged(&repo, m, s),
        "a squash must still be detected after the base was back-merged into the branch"
    );
    assert_eq!(squash_merge_target(&repo, m, s), Some(s), "link target is the squash commit");
}

fn gh(names: &[&str]) -> NameSet {
    let names: Vec<String> = names.iter().map(|s| s.to_string()).collect();
    NameSet::from_list(&names)
}

#[test]
fn gh_signal_does_not_classify_a_name_reused_branch_with_novel_commits() {
    // Regression: an old PR whose head branch was "feature" merged (GitHub
    // reports "feature" as a merged head ref). A NEW, unmerged branch reuses
    // that name with novel work. It must NOT be dimmed/hidden just because the
    // name matches — its content is not in the base.
    let repo = memory_repository();
    let a = commit(&repo, "refs/heads/main", 1000, &[], &[("base.txt", "base")]);
    let b = commit(&repo, "refs/heads/main", 2000, &[a], &[("base.txt", "base"), ("main.txt", "main")]);
    // New "feature" adds a file the base has never seen.
    let f = commit(&repo, "refs/heads/feature", 2100, &[a], &[("base.txt", "base"), ("novel.txt", "new work")]);

    let branches = vec![local("main", b, true), local("feature", f, false)];
    // GitHub claims a merged PR with head "feature".
    let merged = classify_merged_branches(&repo, &branches, b, "main", &gh(&["feature"]));
    assert!(
        !merged.contains("feature"),
        "name reuse with novel content must not be classified merged"
    );
    assert!(!branch_content_in_base(&repo, f, b), "branch carries content the base lacks");
}

#[test]
fn gh_signal_classifies_a_landed_branch_that_patch_id_alone_would_miss() {
    // A branch whose changes all landed on the base (content ⊆ base), but via
    // two separate commits rather than one squash — so no single base commit's
    // patch-id matches the branch's cumulative diff, and it isn't an ancestor.
    // The GitHub signal + the content cross-check catch it.
    let repo = memory_repository();
    let a = commit(&repo, "refs/heads/main", 1000, &[], &[("base.txt", "base")]);
    // Branch adds x.txt and y.txt across two commits.
    let f1 = commit(&repo, "refs/heads/feature", 1100, &[a], &[("base.txt", "base"), ("x.txt", "x")]);
    let f2 = commit(&repo, "refs/heads/feature", 1200, &[f1], &[("base.txt", "base"), ("x.txt", "x"), ("y.txt", "y")]);
    // Base lands the same content, but as two separate commits (no single
    // squash commit equals the branch's combined diff).
    let b1 = commit(&repo, "refs/heads/main", 2000, &[a], &[("base.txt", "base"), ("x.txt", "x")]);
    let b2 = commit(&repo, "refs/heads/main", 2100, &[b1], &[("base.txt", "base"), ("x.txt", "x"), ("y.txt", "y")]);

    assert!(!is_ancestor_merged(&repo, f2, b2));
    assert!(!is_squash_merged(&repo, f2, b2), "no single squash commit matches");
    assert!(branch_content_in_base(&repo, f2, b2), "all content is present in the base");

    let branches = vec![local("main", b2, true), local("feature", f2, false)];
    // Without the GitHub signal it stays unclassified (content match alone is
    // not trusted); with it, it's merged.
    assert!(!classify_merged_branches(&repo, &branches, b2, "main", &NameSet::new()).contains("feature"));
    assert!(classify_merged_branches(&repo, &branches, b2, "main", &gh(&["feature"])).contains("feature"));
}

#[test]
fn net_empty_branch_against_allow_empty_trunk_commit_counts_as_landed() {
    // Edge case: a branch that introduces no content change (its tree equals
    // the fork point) and a base that advanced with an empty commit. The
    // branch has nothing to land, so content is trivially present in the base.
    let repo = memory_repository();
    let a = commit(&repo, "refs/heads/main", 1000, &[], &[("base.txt", "base")]);
    // Branch commit with the SAME tree as `a` (net-empty change).
    let f = commit(&repo, "refs/heads/feature", 1100, &[a], &[("base.txt", "base")]);
    // Base advances with an empty commit (same tree again).
    let b = commit(&repo, "refs/heads/main", 2000, &[a], &[("base.txt", "base")]);

    assert!(branch_content_in_base(&repo, f, b), "net-empty branch has nothing to land");
    let branches = vec![local("main", b, true), local("feature", f, false)];
    assert!(classify_merged_branches(&repo, &branches, b, "main", &gh(&["feature"])).contains("feature"));
}

// ── base-update ("back-merge") classification ──────────────

#[test]
fn back_merge_of_updated_base_into_pr_branch_is_detected() {
    // main:    a <- c            (base advances to c)
    // feature: a <- f            (PR branch)
    // back-merge: merge c INTO feature => m, on the feature branch.
    //   m's parents: [f (feature, first), c (base, second)].
    let repo = memory_repository();
    let a = commit(&repo, "refs/heads/main", 1000, &[], &[("base.txt", "base")]);
    let c = commit(&repo, "refs/heads/main", 2000, &[a], &[("base.txt", "base2")]);
    let f = commit(&repo, "refs/heads/feature", 1500, &[a], &[("base.txt", "base"), ("feat.txt", "x")]);
    // Merge the updated base (c) into the PR branch; first parent = feature.
    let m = commit(
        &repo,
        "refs/heads/feature",
        3000,
        &[f, c],
        &[("base.txt", "base2"), ("feat.txt", "x")],
    );
    let set = classify_base_update_merges(&repo, &[m], c);
    assert!(set.contains(&m), "the back-merge commit is classified");
    assert_eq!(set.len(), 1);
}

#[test]
fn pr_landing_merge_is_not_classified_as_back_merge() {
    // The opposite direction: feature lands ON main.
    // main:    a <- b
    // feature: a <- t
    // landing: merge t INTO main => m, ON main. Parents [b (main), t (feat)].
    // The PR head is `t`; `m` sits on the base, so it must NOT be muted.
    let repo = memory_repository();
    let a = commit(&repo, "refs/heads/main", 1000, &[], &[("base.txt", "base")]);
    let b = commit(&repo, "refs/heads/main", 2000, &[a], &[("base.txt", "base"), ("main.txt", "m")]);
    let t = commit(&repo, "refs/heads/feature", 1500, &[a], &[("base.txt", "base"), ("feat.txt", "x")]);
    let m = commit(
        &repo,
        "refs/heads/main",
        3000,
        &[b, t],
        &[("base.txt", "base"), ("main.txt", "m"), ("feat.txt", "x")],
    );
    // Base tip is the landing merge itself.
    let set = classify_base_update_merges(&repo, &[t], m);
    assert!(set.is_empty(), "a PR-landing merge is never a back-merge");
}

#[test]
fn merge_of_a_sibling_feature_not_on_base_is_not_classified() {
    // A merge on the PR branch that pulls in ANOTHER unmerged feature (not
    // the base) must not be muted — its second parent is not on the base.
    // main:    a <- c
    // feat:    a <- f
    // sibling: a <- s   (never merged to main)
    // merge s INTO feat => m. Parents [f, s]; s is not on base.
    let repo = memory_repository();
    let a = commit(&repo, "refs/heads/main", 1000, &[], &[("base.txt", "base")]);
    let c = commit(&repo, "refs/heads/main", 2000, &[a], &[("base.txt", "base2")]);
    let f = commit(&repo, "refs/heads/feat", 1500, &[a], &[("base.txt", "base"), ("f.txt", "f")]);
    let s = commit(&repo, "refs/heads/sibling", 1600, &[a], &[("base.txt", "base"), ("s.txt", "s")]);
    let m = commit(
        &repo,
        "refs/heads/feat",
        3000,
        &[f, s],
        &[("base.txt", "base"), ("f.txt", "f"), ("s.txt", "s")],
    );
    let set = classify_base_update_merges(&repo, &[m], c);
    assert!(set.is_empty(), "merging a non-base sibling is not a base-update");
}

#[test]
fn no_pr_heads_or_no_merges_yields_empty_set() {
    let repo = memory_repository();
    let a = commit(&repo, "refs/heads/main", 1000, &[], &[("base.txt", "base")]);
    let f = commit(&repo, "refs/heads/feature", 1500, &[a], &[("base.txt", "base"), ("x.txt", "x")]);
    // No PR heads at all.
    assert!(classify_base_update_merges(&repo, &[], a).is_empty());
    // A PR head whose branch has no merge commit.
    assert!(classify_base_update_merges(&repo, &[f], a).is_empty());
}

#[test]
fn back_merge_detected_when_head_is_above_the_merge() {
    // The PR head need not BE the back-merge; the merge can sit mid-branch.
    // feature: a <- f <- m <- g   where m merges base c into feature.
    let repo = memory_repository();
    let a = commit(&repo, "refs/heads/main", 1000, &[], &[("base.txt", "base")]);
    let c = commit(&repo, "refs/heads/main", 2000, &[a], &[("base.txt", "base2")]);
    let f = commit(&repo, "refs/heads/feature", 1500, &[a], &[("base.txt", "base"), ("feat.txt", "x")]);
    let m = commit(
        &repo,
        "refs/heads/feature",
        3000,
        &[f, c],
        &[("base.txt", "base2"), ("feat.txt", "x")],
    );
    let g = commit(&repo, "refs/heads/feature", 3500, &[m], &[("base.txt", "base2"), ("feat.txt", "y")]);
    let set = classify_base_update_merges(&repo, &[g], c);
    assert!(set.contains(&m), "a mid-branch back-merge is still found");
}

#[test]
fn the_trace_names_each_gate() {
    let repo = memory_repository();
    let a = commit(&repo, "main", 1000, &[], &[("base.txt", "base")]);
    let b = commit(&repo, "main", 2000, &[a], &[("base.txt", "base"), ("feat.txt", "two")]);
    let f = commit(&repo, "feature", 2100, &[a], &[("base.txt", "base"), ("feat.txt", "two")]);
    let branches = vec![local("main", b, true), local("feature", f, false), remote("origin/main", a)];
    let trace = explain(&repo, &branches, &NameSet::new());
    let short = |o: Oid| o.to_string()[..7].to_string();
    assert!(trace.starts_with(&format!("base: main @ {}\n", short(b))), "{trace}");
    assert!(trace.contains("gh merged-PR heads known: 0\n"));
    assert!(trace.contains("  guard: checked-out HEAD — never classified\n"));
    assert!(trace.contains(&format!("  => MERGED (squash target {})\n", short(b))), "{trace}");
    assert!(
        explain(&repo, &[], &NameSet::new()).starts_with("no base branch (no local/origin main or master, no HEAD)")
    );
}

#[test]
fn keys_and_protection() {
    assert_eq!(gh_key(&remote("origin/fix/x", Oid::zero())), "fix/x");
    assert_eq!(gh_key(&local("fix/x", Oid::zero(), false)), "fix/x");
    let one = Oid::from_bytes(&[1; 20]).unwrap();
    assert!(is_protected(&local("master", one, false), &[Oid::zero()], "main"));
    assert!(is_protected(&remote("fork/main", one), &[Oid::zero()], "main"));
    assert!(!is_protected(&local("topic", one, false), &[Oid::zero()], "main"));
    assert!(is_protected(&local("topic", one, false), &[one], "main"));
}
