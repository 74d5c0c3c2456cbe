//! Git operations: the invocations they consist of, the decisions between
//! them, and what their failures mean.
pub mod laws;

use vstd::prelude::*;
use vstd::string::*;

use crate::git::askpass::AskPass;
use crate::git::command;
use crate::git::command::{CommandRun, GitCommand, OpOutcome};
use crate::git::repository::OperationState;
use crate::oid;
use crate::oid::Oid;
use crate::scan;
use crate::search;
use crate::text;

verus! {

/// Fetch from a remote, dropping tracking refs of branches that are gone there.
pub fn fetch_remote(remote: &str, auth: Option<&AskPass>) -> (c: GitCommand)
    ensures
        c@ == command::git(seq!["fetch"@, "--prune"@, remote@], auth),
{
    let mut c = GitCommand::new(auth);
    c.arg("fetch");
    c.arg("--prune");
    c.arg(remote);
    assert(c@ =~= command::git(seq!["fetch"@, "--prune"@, remote@], auth));
    c
}

/// Drop the stale tracking refs of a remote.
pub fn prune_remote(remote: &str) -> (c: GitCommand)
    ensures
        c@ == command::git(seq!["remote"@, "prune"@, remote@], None),
{
    let mut c = GitCommand::new(None);
    c.arg("remote");
    c.arg("prune");
    c.arg(remote);
    assert(c@ =~= command::git(seq!["remote"@, "prune"@, remote@], None));
    c
}

/// Push the current branch to its upstream.
pub fn push_current(auth: Option<&AskPass>) -> (c: GitCommand)
    ensures
        c@ == command::git(seq!["push"@], auth),
{
    let mut c = GitCommand::new(auth);
    c.arg("push");
    assert(c@ =~= command::git(seq!["push"@], auth));
    c
}

/// Publish a branch to a remote and make that its upstream.
pub fn push_set_upstream(remote: &str, branch: &str, auth: Option<&AskPass>) -> (c: GitCommand)
    ensures
        c@ == command::git(seq!["push"@, "-u"@, remote@, branch@], auth),
{
    let mut c = GitCommand::new(auth);
    c.arg("push");
    c.arg("-u");
    c.arg(remote);
    c.arg(branch);
    assert(c@ =~= command::git(seq!["push"@, "-u"@, remote@, branch@], auth));
    c
}

/// Push HEAD to a remote without changing the upstream.
pub fn push_head_to_remote(remote: &str, auth: Option<&AskPass>) -> (c: GitCommand)
    ensures
        c@ == command::git(seq!["push"@, remote@, "HEAD"@], auth),
{
    let mut c = GitCommand::new(auth);
    c.arg("push");
    c.arg(remote);
    c.arg("HEAD");
    assert(c@ =~= command::git(seq!["push"@, remote@, "HEAD"@], auth));
    c
}

/// Push HEAD to `origin`.
pub fn push_to_origin() -> (c: GitCommand)
    ensures
        c@ == command::git(seq!["push"@, "origin"@, "HEAD"@], None),
{
    let mut c = GitCommand::new(None);
    c.arg("push");
    c.arg("origin");
    c.arg("HEAD");
    assert(c@ =~= command::git(seq!["push"@, "origin"@, "HEAD"@], None));
    c
}

/// Delete a branch on a remote.
pub fn push_delete(remote: &str, branch: &str, auth: Option<&AskPass>) -> (c: GitCommand)
    ensures
        c@ == command::git(seq!["push"@, remote@, "--delete"@, branch@], auth),
{
    let mut c = GitCommand::new(auth);
    c.arg("push");
    c.arg(remote);
    c.arg("--delete");
    c.arg(branch);
    assert(c@ =~= command::git(seq!["push"@, remote@, "--delete"@, branch@], auth));
    c
}

/// Stage a file.
pub fn stage_file(file_path: &str) -> (c: GitCommand)
    ensures
        c@ == command::git(seq!["add"@, "--"@, file_path@], None),
{
    let mut c = GitCommand::new(None);
    c.arg("add");
    c.arg("--");
    c.arg(file_path);
    assert(c@ =~= command::git(seq!["add"@, "--"@, file_path@], None));
    c
}

/// Unstage a file.
pub fn unstage_file(file_path: &str) -> (c: GitCommand)
    ensures
        c@ == command::git(seq!["reset"@, "HEAD"@, "--"@, file_path@], None),
{
    let mut c = GitCommand::new(None);
    c.arg("reset");
    c.arg("HEAD");
    c.arg("--");
    c.arg(file_path);
    assert(c@ =~= command::git(seq!["reset"@, "HEAD"@, "--"@, file_path@], None));
    c
}

/// Stage every change, untracked files and deletions too.
pub fn stage_all() -> (c: GitCommand)
    ensures
        c@ == command::git(seq!["add"@, "-A"@], None),
{
    let mut c = GitCommand::new(None);
    c.arg("add");
    c.arg("-A");
    assert(c@ =~= command::git(seq!["add"@, "-A"@], None));
    c
}

/// Unstage everything, leaving the working tree as it is.
pub fn unstage_all() -> (c: GitCommand)
    ensures
        c@ == command::git(seq!["reset"@], None),
{
    let mut c = GitCommand::new(None);
    c.arg("reset");
    assert(c@ =~= command::git(seq!["reset"@], None));
    c
}

/// Stage what a patch describes.
pub fn apply_patch_cached(patch: &str) -> (c: GitCommand)
    ensures
        c@ == command::git_with_stdin(seq!["apply"@, "--cached"@, "-"@], patch@),
{
    let mut c = GitCommand::with_stdin(patch);
    c.arg("apply");
    c.arg("--cached");
    c.arg("-");
    assert(c@ =~= command::git_with_stdin(seq!["apply"@, "--cached"@, "-"@], patch@));
    c
}

/// Unstage what a patch describes.
pub fn apply_patch_cached_reverse(patch: &str) -> (c: GitCommand)
    ensures
        c@ == command::git_with_stdin(seq!["apply"@, "--cached"@, "-R"@, "-"@], patch@),
{
    let mut c = GitCommand::with_stdin(patch);
    c.arg("apply");
    c.arg("--cached");
    c.arg("-R");
    c.arg("-");
    assert(c@ =~= command::git_with_stdin(seq!["apply"@, "--cached"@, "-R"@, "-"@], patch@));
    c
}

/// Discard what a patch describes from the working tree.
pub fn apply_patch_worktree_reverse(patch: &str) -> (c: GitCommand)
    ensures
        c@ == command::git_with_stdin(seq!["apply"@, "-R"@, "-"@], patch@),
{
    let mut c = GitCommand::with_stdin(patch);
    c.arg("apply");
    c.arg("-R");
    c.arg("-");
    assert(c@ =~= command::git_with_stdin(seq!["apply"@, "-R"@, "-"@], patch@));
    c
}

/// Commit what is staged.
pub fn commit_with_message(message: &str) -> (c: GitCommand)
    ensures
        c@ == command::git(seq!["commit"@, "-m"@, message@], None),
{
    let mut c = GitCommand::new(None);
    c.arg("commit");
    c.arg("-m");
    c.arg(message);
    assert(c@ =~= command::git(seq!["commit"@, "-m"@, message@], None));
    c
}

/// Amend the last commit with a new message.
pub fn commit_amend(message: &str) -> (c: GitCommand)
    ensures
        c@ == command::git(seq!["commit"@, "--amend"@, "-m"@, message@], None),
{
    let mut c = GitCommand::new(None);
    c.arg("commit");
    c.arg("--amend");
    c.arg("-m");
    c.arg(message);
    assert(c@ =~= command::git(seq!["commit"@, "--amend"@, "-m"@, message@], None));
    c
}

/// Amend the last commit and keep its message.
pub fn commit_amend_no_edit() -> (c: GitCommand)
    ensures
        c@ == command::git(seq!["commit"@, "--amend"@, "--no-edit"@], None),
{
    let mut c = GitCommand::new(None);
    c.arg("commit");
    c.arg("--amend");
    c.arg("--no-edit");
    assert(c@ =~= command::git(seq!["commit"@, "--amend"@, "--no-edit"@], None));
    c
}

/// Rename a local branch.
pub fn rename_branch(old_name: &str, new_name: &str) -> (c: GitCommand)
    ensures
        c@ == command::git(seq!["branch"@, "-m"@, old_name@, new_name@], None),
{
    let mut c = GitCommand::new(None);
    c.arg("branch");
    c.arg("-m");
    c.arg(old_name);
    c.arg(new_name);
    assert(c@ =~= command::git(seq!["branch"@, "-m"@, old_name@, new_name@], None));
    c
}

/// Delete a tag.
pub fn delete_tag(tag_name: &str) -> (c: GitCommand)
    ensures
        c@ == command::git(seq!["tag"@, "-d"@, tag_name@], None),
{
    let mut c = GitCommand::new(None);
    c.arg("tag");
    c.arg("-d");
    c.arg(tag_name);
    assert(c@ =~= command::git(seq!["tag"@, "-d"@, tag_name@], None));
    c
}

/// Push a tag to a remote.
pub fn push_tag(remote: &str, tag_name: &str) -> (c: GitCommand)
    ensures
        c@ == command::git(seq!["push"@, remote@, tag_name@], None),
{
    let mut c = GitCommand::new(None);
    c.arg("push");
    c.arg(remote);
    c.arg(tag_name);
    assert(c@ =~= command::git(seq!["push"@, remote@, tag_name@], None));
    c
}

/// List the configured remotes.
pub fn list_remotes_command() -> (c: GitCommand)
    ensures
        c@ == command::git(seq!["remote"@], None),
{
    let mut c = GitCommand::new(None);
    c.arg("remote");
    assert(c@ =~= command::git(seq!["remote"@], None));
    c
}

/// Print the message of the last commit.
pub fn last_message_command() -> (c: GitCommand)
    ensures
        c@ == command::git(seq!["log"@, "-1"@, "--format=%B"@], None),
{
    let mut c = GitCommand::new(None);
    c.arg("log");
    c.arg("-1");
    c.arg("--format=%B");
    assert(c@ =~= command::git(seq!["log"@, "-1"@, "--format=%B"@], None));
    c
}

/// Fetch from `origin`.
pub fn fetch_origin() -> (c: GitCommand)
    ensures
        c@ == command::git(seq!["fetch"@, "--prune"@, "origin"@], None),
{
    fetch_remote("origin", None)
}

/// How a pull reconciles divergent branches.
#[derive(Debug, Clone, Copy, PartialEq, Eq, Structural)]
pub enum PullMode {
    /// Refuse to merge or rebase; fail on divergence.
    FfOnly,
    /// Create a merge commit.
    Merge,
    /// Replay local commits on top of the remote.
    Rebase,
}

impl PullMode {
    /// The flag of `git pull`.
    pub open spec fn flag(self) -> Seq<char> {
        match self {
            PullMode::FfOnly => "--ff-only"@,
            PullMode::Merge => "--no-rebase"@,
            PullMode::Rebase => "--rebase"@,
        }
    }

    /// The flag of `git pull`.
    pub fn arg(self) -> (s: &'static str)
        ensures
            s@ == self.flag(),
            self == PullMode::FfOnly ==> s@ == "--ff-only"@,
            self == PullMode::Merge ==> s@ == "--no-rebase"@,
            self == PullMode::Rebase ==> s@ == "--rebase"@,
    {
        match self {
            PullMode::FfOnly => "--ff-only",
            PullMode::Merge => "--no-rebase",
            PullMode::Rebase => "--rebase",
        }
    }
}

/// The arguments of a pull: a branch is named only together with a remote.
pub open spec fn pull_args(remote: Option<&str>, branch: Option<&str>, mode: PullMode) -> Seq<Seq<char>> {
    let base = seq!["pull"@, mode.flag()];
    match remote {
        None => base,
        Some(r) => match branch {
            None => base.push(r@),
            Some(b) => base.push(r@).push(b@),
        },
    }
}

/// Fetch and integrate. Without a remote the configured upstream is used.
pub fn pull(remote: Option<&str>, branch: Option<&str>, mode: PullMode, auth: Option<&AskPass>) -> (c: GitCommand)
    ensures
        c@ == command::git_no_editor(pull_args(remote, branch, mode), auth),
{
    let mut c = GitCommand::no_editor(auth);
    c.arg("pull");
    c.arg(mode.arg());
    if let Some(r) = remote {
        c.arg(r);
        if let Some(b) = branch {
            c.arg(b);
        }
    }
    assert(c@ =~= command::git_no_editor(pull_args(remote, branch, mode), auth));
    c
}

/// Cherry-pick a commit.
pub fn cherry_pick(commit_oid: Oid) -> (c: GitCommand)
    ensures
        c@ == command::git_no_editor(seq!["cherry-pick"@, commit_oid.hex()], None),
{
    let mut c = GitCommand::no_editor(None);
    c.arg("cherry-pick");
    c.arg(commit_oid.to_string().as_str());
    assert(c@ =~= command::git_no_editor(seq!["cherry-pick"@, commit_oid.hex()], None));
    c
}

/// Revert a commit.
pub fn revert_commit(commit_oid: Oid) -> (c: GitCommand)
    ensures
        c@ == command::git_no_editor(seq!["revert"@, "--no-edit"@, commit_oid.hex()], None),
{
    let mut c = GitCommand::no_editor(None);
    c.arg("revert");
    c.arg("--no-edit");
    c.arg(commit_oid.to_string().as_str());
    assert(c@ =~= command::git_no_editor(seq!["revert"@, "--no-edit"@, commit_oid.hex()], None));
    c
}

/// What a reset touches besides HEAD.
#[derive(Debug, Clone, Copy, PartialEq, Eq, Structural)]
pub enum ResetMode {
    Soft,
    Mixed,
    Hard,
}

impl ResetMode {
    /// The flag of `git reset`.
    pub open spec fn flag(self) -> Seq<char> {
        match self {
            ResetMode::Soft => "--soft"@,
            ResetMode::Mixed => "--mixed"@,
            ResetMode::Hard => "--hard"@,
        }
    }
}

/// Reset HEAD to a commit.
pub fn reset_to_commit(commit_oid: Oid, mode: ResetMode) -> (c: GitCommand)
    ensures
        c@ == command::git(seq!["reset"@, mode.flag(), commit_oid.hex()], None),
        c@.args.len() == 3 && c@.args[0] == "reset"@ && c@.args[2] == commit_oid.hex(),
        mode == ResetMode::Soft ==> c@.args[1] == "--soft"@,
        mode == ResetMode::Mixed ==> c@.args[1] == "--mixed"@,
        mode == ResetMode::Hard ==> c@.args[1] == "--hard"@,
{
    let mut c = GitCommand::new(None);
    c.arg("reset");
    let flag = match mode {
        ResetMode::Soft => "--soft",
        ResetMode::Mixed => "--mixed",
        ResetMode::Hard => "--hard",
    };
    c.arg(flag);
    c.arg(commit_oid.to_string().as_str());
    assert(c@ =~= command::git(seq!["reset"@, mode.flag(), commit_oid.hex()], None));
    c
}

/// The two invocations that take one side of a conflicted path and stage it.
pub open spec fn take_side(side: Seq<char>, path: Seq<char>) -> (command::CommandView, command::CommandView) {
    (
        command::git(seq!["checkout"@, side, "--"@, path], None),
        command::git(seq!["add"@, "--"@, path], None),
    )
}

fn resolve_with(side: &str, path: &str) -> (c: (GitCommand, GitCommand))
    ensures
        (c.0@, c.1@) == take_side(side@, path@),
        c.0.subcommand() == "checkout"@,
        c.1.subcommand() == "add"@,
{
    let mut checkout = GitCommand::new(None);
    checkout.arg("checkout");
    checkout.arg(side);
    checkout.arg("--");
    checkout.arg(path);
    assert(checkout@ =~= command::git(seq!["checkout"@, side@, "--"@, path@], None));
    let add = stage_file(path);
    assert(checkout@.args.len() == checkout.args@.len() && checkout@.args.len() == 4);
    assert(checkout@.args[0] == checkout.args@[0]@);
    assert(add@.args.len() == add.args@.len() && add@.args.len() == 3);
    assert(add@.args[0] == add.args@[0]@);
    (checkout, add)
}

/// Resolve a conflicted path with our side.
pub fn accept_ours(path: &str) -> (c: (GitCommand, GitCommand))
    ensures
        (c.0@, c.1@) == take_side("--ours"@, path@),
        c.0.subcommand() == "checkout"@,
        c.1.subcommand() == "add"@,
{
    resolve_with("--ours", path)
}

/// Resolve a conflicted path with their side.
pub fn accept_theirs(path: &str) -> (c: (GitCommand, GitCommand))
    ensures
        (c.0@, c.1@) == take_side("--theirs"@, path@),
        c.0.subcommand() == "checkout"@,
        c.1.subcommand() == "add"@,
{
    resolve_with("--theirs", path)
}

/// What follows the checkout of one side of a conflicted path: the path is staged
/// only once the checkout succeeded, and a checkout that failed is the error.
pub fn after_checkout(checkout: &GitCommand, run: &CommandRun, add: GitCommand) -> (next: Result<GitCommand, String>)
    ensures
        match command::output(checkout.subcommand(), *run) {
            Ok(_) => next == Ok::<GitCommand, String>(add),
            Err(e) => next is Err && next->Err_0@ == e,
        },
{
    match checkout.finish(run) {
        Ok(_) => Ok(add),
        Err(e) => Err(e),
    }
}

/// How resolving a conflicted path with one side ended, once the path was to be
/// staged.
pub fn after_add(add: &GitCommand, run: &CommandRun) -> (done: Result<(), String>)
    ensures
        match command::output(add.subcommand(), *run) {
            Ok(_) => done is Ok,
            Err(e) => done is Err && done->Err_0@ == e,
        },
{
    match add.finish(run) {
        Ok(_) => Ok(()),
        Err(e) => Err(e),
    }
}

/// How resolving a conflicted path with one side ends: with the error of the
/// checkout, else with that of the staging, else well.
pub open spec fn side_taken(checkout: CommandRun, add: CommandRun) -> Result<(), Seq<char>> {
    match command::output("checkout"@, checkout) {
        Err(e) => Err(e),
        Ok(_) => match command::output("add"@, add) {
            Err(e) => Err(e),
            Ok(_) => Ok(()),
        },
    }
}

/// A conflicted path is resolved with one side exactly when both invocations
/// succeeded. If the checkout failed, its message is the result, whatever
/// staging would have given.
pub proof fn law_a_side_is_taken_iff_both_succeeded(checkout: CommandRun, add: CommandRun)
    ensures
        side_taken(checkout, add) is Ok <==> checkout.succeeded() && add.succeeded(),
        !checkout.succeeded() ==> command::output("checkout"@, checkout) is Err && side_taken(
            checkout,
            add,
        )->Err_0 == command::output("checkout"@, checkout)->Err_0,
{
}

/// How to abort or continue an operation.
#[derive(Debug)]
pub enum Resume {
    /// A rebase was started through the library, whose state the command line
    /// cannot drive.
    LibraryRebase,
    /// An invocation of `git`.
    Git(GitCommand),
}

/// What aborting an operation takes.
pub fn abort_operation(op: OperationState) -> (r: Result<Resume, String>)
    ensures
        match r {
            Ok(Resume::LibraryRebase) => op == OperationState::Rebase,
            Ok(Resume::Git(c)) => {
                &&& op != OperationState::Rebase
                &&& op.subcommand() is Some
                &&& c@ == command::git(seq![op.subcommand()->0, "--abort"@], None)
            },
            Err(e) => op == OperationState::Clean && e@ == "No operation in progress to abort"@,
        },
{
    if op == OperationState::Rebase {
        return Ok(Resume::LibraryRebase);
    }
    match op.git_subcommand() {
        None => Err("No operation in progress to abort".to_owned()),
        Some(sub) => {
            let mut c = GitCommand::new(None);
            c.arg(sub);
            c.arg("--abort");
            assert(c@ =~= command::git(seq![op.subcommand()->0, "--abort"@], None));
            Ok(Resume::Git(c))
        },
    }
}

/// What continuing an operation takes.
pub fn continue_operation(op: OperationState) -> (r: Result<Resume, String>)
    ensures
        match r {
            Ok(Resume::LibraryRebase) => op == OperationState::Rebase,
            Ok(Resume::Git(c)) => {
                &&& op != OperationState::Rebase
                &&& op.subcommand() is Some
                &&& c@ == command::git_no_editor(seq![op.subcommand()->0, "--continue"@], None)
            },
            Err(e) => op == OperationState::Clean && e@ == "No operation in progress to continue"@,
        },
{
    if op == OperationState::Rebase {
        return Ok(Resume::LibraryRebase);
    }
    match op.git_subcommand() {
        None => Err("No operation in progress to continue".to_owned()),
        Some(sub) => {
            let mut c = GitCommand::no_editor(None);
            c.arg(sub);
            c.arg("--continue");
            assert(c@ =~= command::git_no_editor(seq![op.subcommand()->0, "--continue"@], None));
            Ok(Resume::Git(c))
        },
    }
}

/// The name of a stash entry.
pub open spec fn stash_ref(index: usize) -> Seq<char> {
    "stash@{"@ + text::decimal(index as nat) + "}"@
}

fn stash_name(index: usize) -> (s: String)
    ensures
        s@ == stash_ref(index),
{
    let mut s = "stash@{".to_owned();
    text::push_decimal(&mut s, index as u64);
    s.append("}");
    s
}

/// Apply a stash entry and keep it.
pub fn stash_apply(index: usize) -> (c: GitCommand)
    ensures
        c@ == command::git_no_editor(seq!["stash"@, "apply"@, stash_ref(index)], None),
{
    let mut c = GitCommand::no_editor(None);
    c.arg("stash");
    c.arg("apply");
    c.arg(stash_name(index).as_str());
    assert(c@ =~= command::git_no_editor(seq!["stash"@, "apply"@, stash_ref(index)], None));
    c
}

/// Apply a stash entry and drop it once it applied.
pub fn stash_pop(index: usize) -> (c: GitCommand)
    ensures
        c@ == command::git_no_editor(seq!["stash"@, "pop"@, stash_ref(index)], None),
{
    let mut c = GitCommand::no_editor(None);
    c.arg("stash");
    c.arg("pop");
    c.arg(stash_name(index).as_str());
    assert(c@ =~= command::git_no_editor(seq!["stash"@, "pop"@, stash_ref(index)], None));
    c
}

/// Drop a stash entry.
pub fn stash_drop(index: usize) -> (c: GitCommand)
    ensures
        c@ == command::git(seq!["stash"@, "drop"@, stash_ref(index)], None),
{
    let mut c = GitCommand::new(None);
    c.arg("stash");
    c.arg("drop");
    c.arg(stash_name(index).as_str());
    assert(c@ =~= command::git(seq!["stash"@, "drop"@, stash_ref(index)], None));
    c
}

/// Turn a stash entry into a branch.
pub fn stash_branch(branch_name: &str, index: usize) -> (c: GitCommand)
    ensures
        c@ == command::git(seq!["stash"@, "branch"@, branch_name@, stash_ref(index)], None),
{
    let mut c = GitCommand::new(None);
    c.arg("stash");
    c.arg("branch");
    c.arg(branch_name);
    c.arg(stash_name(index).as_str());
    assert(c@ =~= command::git(seq!["stash"@, "branch"@, branch_name@, stash_ref(index)], None));
    c
}

/// The arguments of a stash: the flag, then a message where there is one.
pub open spec fn stash_args(flag: Option<Seq<char>>, message: Seq<char>) -> Seq<Seq<char>> {
    let base = match flag {
        None => seq!["stash"@, "push"@],
        Some(f) => seq!["stash"@, "push"@, f],
    };
    if message.len() == 0 {
        base
    } else {
        base.push("-m"@).push(message)
    }
}

fn stash_push(flag: Option<&str>, message: &str) -> (c: GitCommand)
    ensures
        c@ == command::git(
            stash_args(
                match flag {
                    Some(f) => Some(f@),
                    None => None,
                },
                message@,
            ),
            None,
        ),
{
    let ghost f = match flag {
        Some(f) => Some(f@),
        None => None,
    };
    let mut c = GitCommand::new(None);
    c.arg("stash");
    c.arg("push");
    if let Some(f) = flag {
        c.arg(f);
    }
    let chars = text::chars_of(message);
    if chars.len() > 0 {
        c.arg("-m");
        c.arg(message);
    }
    assert(c@ =~= command::git(stash_args(f, message@), None));
    c
}

/// Stash what is staged.
pub fn stash_staged(message: &str) -> (c: GitCommand)
    ensures
        c@ == command::git(stash_args(Some("--staged"@), message@), None),
{
    stash_push(Some("--staged"), message)
}

/// Stash all changes, untracked files too where asked.
pub fn stash_all(message: &str, include_untracked: bool) -> (c: GitCommand)
    ensures
        c@ == command::git(
            stash_args(
                if include_untracked {
                    Some("-u"@)
                } else {
                    None
                },
                message@,
            ),
            None,
        ),
{
    if include_untracked {
        stash_push(Some("-u"), message)
    } else {
        stash_push(None, message)
    }
}

/// List the commits that touched a path, newest first, following renames.
pub fn file_history_command(path: &str, limit: usize) -> (c: GitCommand)
    ensures
        c@ == command::git(
            seq!["log"@, "--follow"@, "-n"@, text::decimal(limit as nat), "--format=%H"@, "--"@, path@],
            None,
        ),
{
    let mut n = String::new();
    text::push_decimal(&mut n, limit as u64);
    assert(n@ =~= text::decimal(limit as nat));
    let mut c = GitCommand::new(None);
    c.arg("log");
    c.arg("--follow");
    c.arg("-n");
    c.arg(n.as_str());
    c.arg("--format=%H");
    c.arg("--");
    c.arg(path);
    assert(c@ =~= command::git(
        seq!["log"@, "--follow"@, "-n"@, text::decimal(limit as nat), "--format=%H"@, "--"@, path@],
        None,
    ));
    c
}

/// The lines of an output without surrounding white space, leaving out blank
/// ones.
pub open spec fn entries(lines: Seq<Seq<char>>) -> Seq<Seq<char>>
    decreases lines.len(),
{
    if lines.len() == 0 {
        Seq::empty()
    } else {
        let before = entries(lines.drop_last());
        let last = text::trim(lines.last());
        if last.len() == 0 {
            before
        } else {
            before.push(last)
        }
    }
}

fn entries_of(stdout: &str) -> (found: Vec<String>)
    ensures
        text::texts(found@) == entries(text::lines(stdout@)),
{
    let lines = text::lines_of(stdout);
    let ghost all = text::lines(stdout@);
    let mut found: Vec<String> = Vec::new();
    let mut i: usize = 0;
    assert(all.take(0) =~= Seq::empty());
    assert(text::texts(found@) =~= Seq::empty());
    while i < lines.len()
        invariant
            0 <= i <= lines.len(),
            all == text::char_lists(lines@),
            text::texts(found@) == entries(all.take(i as int)),
        decreases lines.len() - i,
    {
        assert(all.take(i + 1).drop_last() =~= all.take(i as int));
        assert(all.take(i + 1).last() == lines@[i as int]@);
        let line = text::trimmed(lines[i].as_slice());
        if line.len() > 0 {
            let ghost before = found@;
            found.push(text::text_of(line.as_slice()));
            assert(text::texts(found@) =~= text::texts(before).push(line@));
        }
        i = i + 1;
    }
    assert(all.take(i as int) =~= all);
    found
}

/// The remotes that `git remote` printed, in its order.
pub fn list_remotes(stdout: &str) -> (remotes: Vec<String>)
    ensures
        text::texts(remotes@) == entries(text::lines(stdout@)),
{
    entries_of(stdout)
}

/// The ids among some words, in their order.
pub open spec fn ids(words: Seq<Seq<char>>) -> Seq<Oid>
    decreases words.len(),
{
    if words.len() == 0 {
        Seq::empty()
    } else {
        match oid::read(words.last()) {
            Some(o) => ids(words.drop_last()).push(o),
            None => ids(words.drop_last()),
        }
    }
}

/// The commits that `git log` printed, leaving out any line that is no id.
pub fn file_history(stdout: &str) -> (oids: Vec<Oid>)
    ensures
        oids@ == ids(entries(text::lines(stdout@))),
{
    let words = entries_of(stdout);
    let ghost all = text::texts(words@);
    let mut oids: Vec<Oid> = Vec::new();
    let mut i: usize = 0;
    assert(all.take(0) =~= Seq::empty());
    while i < words.len()
        invariant
            0 <= i <= words.len(),
            all == text::texts(words@),
            oids@ == ids(all.take(i as int)),
        decreases words.len() - i,
    {
        assert(all.take(i + 1).drop_last() =~= all.take(i as int));
        assert(all.take(i + 1).last() == words@[i as int]@);
        if let Some(o) = Oid::from_str(words[i].as_str()) {
            oids.push(o);
        }
        i = i + 1;
    }
    assert(all.take(i as int) =~= all);
    oids
}

/// The message of the last commit, from what `git log` printed.
pub fn get_last_commit_message(stdout: &str) -> (message: String)
    ensures
        message@ == text::trim(stdout@),
{
    text::trim_text(stdout)
}

/// The complaints of the remotes whose fetch failed, in the order of the
/// remotes.
pub open spec fn fetch_failures(results: Seq<(Seq<char>, Option<Seq<char>>)>) -> Seq<Seq<char>>
    decreases results.len(),
{
    if results.len() == 0 {
        Seq::empty()
    } else {
        let before = fetch_failures(results.drop_last());
        match results.last().1 {
            None => before,
            Some(e) => before.push(results.last().0 + ": "@ + text::trim(e)),
        }
    }
}

/// Texts joined by a separator.
pub open spec fn join(parts: Seq<Seq<char>>, separator: Seq<char>) -> Seq<char>
    decreases parts.len(),
{
    if parts.len() == 0 {
        Seq::empty()
    } else if parts.len() == 1 {
        parts[0]
    } else {
        join(parts.drop_last(), separator) + separator + parts.last()
    }
}

/// How fetching one remote ended: `None` when it succeeded, else the error.
#[derive(Debug)]
pub struct RemoteFetch {
    pub remote: String,
    pub error: Option<String>,
}

impl View for RemoteFetch {
    type V = (Seq<char>, Option<Seq<char>>);

    open spec fn view(&self) -> (Seq<char>, Option<Seq<char>>) {
        (self.remote@, text::opt_text(self.error))
    }
}

/// The results of fetching each remote.
pub open spec fn fetches(v: Seq<RemoteFetch>) -> Seq<(Seq<char>, Option<Seq<char>>)> {
    v.map_values(|f: RemoteFetch| f@)
}

/// The invocations that fetch every remote, each on its own, so that a broken
/// remote cannot keep the others from being fetched.
pub fn fetch_all_commands(remotes: &[String], auth: Option<&AskPass>) -> (commands: Vec<GitCommand>)
    ensures
        commands@.len() == remotes@.len(),
        forall|i: int|
            0 <= i < commands@.len() ==> (#[trigger] commands@[i])@ == command::git(
                seq!["fetch"@, "--prune"@, remotes@[i]@],
                auth,
            ),
{
    let mut commands: Vec<GitCommand> = Vec::new();
    let mut i: usize = 0;
    while i < remotes.len()
        invariant
            0 <= i <= remotes.len(),
            commands@.len() == i,
            forall|k: int|
                0 <= k < i ==> (#[trigger] commands@[k])@ == command::git(
                    seq!["fetch"@, "--prune"@, remotes@[k]@],
                    auth,
                ),
        decreases remotes.len() - i,
    {
        commands.push(fetch_remote(remotes[i].as_str(), auth));
        i = i + 1;
    }
    commands
}

/// The result of fetching all remotes: success when none failed, else an error
/// naming each failed remote with its message.
pub fn fetch_all(results: &[RemoteFetch]) -> (r: Result<(), String>)
    ensures
        match r {
            Ok(_) => fetch_failures(fetches(results@)).len() == 0,
            Err(e) => fetch_failures(fetches(results@)).len() > 0 && e@ == "fetch failed for "@ + join(
                fetch_failures(fetches(results@)),
                "; for "@,
            ),
        },
{
    let ghost all = fetches(results@);
    let mut message = String::new();
    let mut failed = false;
    let mut i: usize = 0;
    assert(all.take(0) =~= Seq::empty());
    while i < results.len()
        invariant
            0 <= i <= results.len(),
            all == fetches(results@),
            failed == (fetch_failures(all.take(i as int)).len() > 0),
            message@ == join(fetch_failures(all.take(i as int)), "; for "@),
        decreases results.len() - i,
    {
        assert(all.take(i + 1).drop_last() =~= all.take(i as int));
        assert(all.take(i + 1).last() == results@[i as int]@);
        let ghost before = fetch_failures(all.take(i as int));
        if let Some(e) = &results[i].error {
            if failed {
                message.append("; for ");
            }
            message.append(results[i].remote.as_str());
            message.append(": ");
            message.append(text::trim_text(e.as_str()).as_str());
            failed = true;
            proof {
                let after = fetch_failures(all.take(i + 1));
                assert(after.drop_last() =~= before);
                assert(message@ =~= join(after, "; for "@));
            }
        }
        i = i + 1;
    }
    assert(all.take(i as int) =~= all);
    if failed {
        let mut e = "fetch failed for ".to_owned();
        e.append(message.as_str());
        Err(e)
    } else {
        Ok(())
    }
}

/// Whether a failed pull means that the branches diverged.
pub fn is_divergent_pull_error(stderr: &str) -> (yes: bool)
    ensures
        yes == (text::has(stderr@, "Not possible to fast-forward"@) || text::has(
            stderr@,
            "Need to specify how to reconcile"@,
        ) || text::has(stderr@, "fatal: Not possible"@)),
{
    text::contains_text(stderr, "Not possible to fast-forward") || text::contains_text(
        stderr,
        "Need to specify how to reconcile",
    ) || text::contains_text(stderr, "fatal: Not possible")
}

/// Whether a failed pull means that uncommitted changes are in the way.
pub fn is_dirty_worktree_pull_error(stderr: &str) -> (yes: bool)
    ensures
        yes == (text::has(stderr@, "would be overwritten"@) || text::has(stderr@, "cannot pull with rebase"@)
            || text::has(stderr@, "commit or stash them"@) || text::has(stderr@, "You have unstaged changes"@)
            || text::has(stderr@, "index contains uncommitted changes"@)),
{
    text::contains_text(stderr, "would be overwritten") || text::contains_text(
        stderr,
        "cannot pull with rebase",
    ) || text::contains_text(stderr, "commit or stash them") || text::contains_text(
        stderr,
        "You have unstaged changes",
    ) || text::contains_text(stderr, "index contains uncommitted changes")
}

/// What stands between the first `p` and the next one, or the end.
pub open spec fn after_first_text(s: Seq<char>, p: Seq<char>) -> Option<Seq<char>> {
    match scan::find(s, p) {
        None => None,
        Some(i) => {
            let rest = s.skip(i + p.len());
            match scan::find(rest, p) {
                None => Some(rest),
                Some(j) => Some(rest.take(j)),
            }
        },
    }
}

/// Without any of the trailing characters that end a message.
pub open spec fn without_tail(s: Seq<char>) -> Seq<char>
    decreases s.len(),
{
    if s.len() > 0 && (s.last() == '\n' || s.last() == '.' || s.last() == '\'') {
        without_tail(s.drop_last())
    } else {
        s
    }
}

/// The ref that a message says a remote lacks.
pub open spec fn missing_ref(stderr: Seq<char>) -> Option<Seq<char>> {
    match after_first_text(stderr, "couldn't find remote ref "@) {
        None => None,
        Some(rest) => {
            let name = without_tail(scan::first_word(rest));
            if name.len() == 0 {
                None
            } else {
                Some(name)
            }
        },
    }
}

fn parse_missing_ref(stderr: &str) -> (name: Option<String>)
    ensures
        text::opt_text(name) == missing_ref(stderr@),
{
    let s = text::chars_of(stderr);
    let p = text::chars_of("couldn't find remote ref ");
    let at = match scan::find_chars(s.as_slice(), p.as_slice()) {
        None => {
            return None;
        },
        Some(i) => i,
    };
    let n: usize = s.len();
    assert(at + p@.len() <= n);
    let rest = vstd::slice::slice_subrange(s.as_slice(), at + p.len(), n);
    assert(rest@ =~= s@.skip(at + p@.len()));
    let part = match scan::find_chars(rest, p.as_slice()) {
        None => rest,
        Some(j) => {
            let part = vstd::slice::slice_subrange(rest, 0, j);
            assert(part@ =~= rest@.take(j as int));
            part
        },
    };
    let word = scan::word_of(part);
    let mut n: usize = word.len();
    assert(word@.take(n as int) =~= word@);
    while n > 0 && (word[n - 1] == '\n' || word[n - 1] == '.' || word[n - 1] == '\'')
        invariant
            0 <= n <= word.len(),
            without_tail(word@) == without_tail(word@.take(n as int)),
        decreases n,
    {
        assert(word@.take(n as int).drop_last() =~= word@.take(n - 1));
        n = n - 1;
    }
    if n == 0 {
        None
    } else {
        let name = vstd::slice::slice_subrange(word.as_slice(), 0, n);
        assert(name@ =~= word@.take(n as int));
        Some(text::text_of(name))
    }
}

/// The advice for a known failure.
pub open spec fn advice(stderr: Seq<char>) -> Option<Seq<char>> {
    if text::has(stderr, "could not read Username"@) || text::has(stderr, "Authentication failed"@) || text::has(
        stderr,
        "Permission denied (publickey"@,
    ) {
        Some("Authentication failed — check your credentials / SSH key (e.g. `gh auth login`)"@)
    } else if text::has(stderr, "couldn't find remote ref"@) {
        Some(
            match missing_ref(stderr) {
                Some(r) => "Remote has no branch '"@ + r + "' — it may be renamed or not pushed yet"@,
                None => "That branch is missing on the remote — it may be renamed or not pushed yet"@,
            },
        )
    } else if text::has(stderr, "would be overwritten by merge"@) || text::has(
        stderr,
        "Your local changes to the following files would be overwritten"@,
    ) || text::has(stderr, "cannot pull with rebase"@) {
        Some("Local changes would be overwritten — commit or stash them first"@)
    } else if text::has(stderr, "index.lock"@) {
        Some("Another git operation is in progress (index.lock) — wait for it to finish"@)
    } else {
        None
    }
}

/// One line of advice for a known failure; `None` for any other, which is
/// shown as it is.
pub fn humanize_git_error(stderr: &str) -> (line: Option<String>)
    ensures
        text::opt_text(line) == advice(stderr@),
{
    if text::contains_text(stderr, "could not read Username") || text::contains_text(
        stderr,
        "Authentication failed",
    ) || text::contains_text(stderr, "Permission denied (publickey") {
        return Some("Authentication failed — check your credentials / SSH key (e.g. `gh auth login`)".to_owned());
    }
    if text::contains_text(stderr, "couldn't find remote ref") {
        return match parse_missing_ref(stderr) {
            Some(r) => {
                let mut line = "Remote has no branch '".to_owned();
                line.append(r.as_str());
                line.append("' — it may be renamed or not pushed yet");
                Some(line)
            },
            None => Some(
                "That branch is missing on the remote — it may be renamed or not pushed yet".to_owned(),
            ),
        };
    }
    if text::contains_text(stderr, "would be overwritten by merge") || text::contains_text(
        stderr,
        "Your local changes to the following files would be overwritten",
    ) || text::contains_text(stderr, "cannot pull with rebase") {
        return Some("Local changes would be overwritten — commit or stash them first".to_owned());
    }
    if text::contains_text(stderr, "index.lock") {
        return Some("Another git operation is in progress (index.lock) — wait for it to finish".to_owned());
    }
    None
}

/// A failure that asking for a user name and a token can fix: no key failure,
/// and a message that credentials are missing or wrong.
pub open spec fn https_auth_failure(stderr: Seq<char>) -> bool {
    &&& !text::has(stderr, "Permission denied (publickey"@)
    &&& text::has(stderr, "could not read Username"@) || text::has(stderr, "Authentication failed"@)
}

/// Whether asking for a user name and a token can fix a failure.
pub fn is_https_auth_failure(stderr: &str) -> (yes: bool)
    ensures
        yes == https_auth_failure(stderr@),
{
    if text::contains_text(stderr, "Permission denied (publickey") {
        return false;
    }
    text::contains_text(stderr, "could not read Username") || text::contains_text(stderr, "Authentication failed")
}

/// The host of a remote, and a user name its URL carries.
#[derive(Debug, Clone, PartialEq, Eq)]
pub struct AuthUrl {
    pub host: String,
    pub user: Option<String>,
}

/// The host of a URL: behind the scheme and a user, before a port and a path,
/// in lower case.
pub open spec fn host_of(url: Seq<char>) -> Option<Seq<char>> {
    let authority = scan::before_first(scan::after_last(url, "://"@), '/');
    let host = match scan::last_char(authority, '@') {
        Some(i) => authority.skip(i + 1),
        None => authority,
    };
    let name = scan::before_first(host, ':');
    if name.len() == 0 {
        None
    } else {
        Some(text::lower(name))
    }
}

fn host_chars(url: &[char]) -> (host: Option<String>)
    ensures
        text::opt_text(host) == host_of(url@),
{
    let scheme = text::chars_of("://");
    let rest = scan::chars_after_last(url, scheme.as_slice());
    let authority = scan::chars_before_first(rest.as_slice(), '/');
    let host = match scan::last_position(authority.as_slice(), '@') {
        Some(i) => {
            let host = vstd::slice::slice_subrange(authority.as_slice(), i + 1, authority.len());
            assert(host@ =~= authority@.skip(i + 1));
            vstd::slice::slice_to_vec(host)
        },
        None => authority,
    };
    let name = scan::chars_before_first(host.as_slice(), ':');
    if name.len() == 0 {
        None
    } else {
        Some(text::text_of(text::lower_chars(name.as_slice()).as_slice()))
    }
}

/// The host of a URL, the scheme being optional.
pub fn url_host(url: &str) -> (host: Option<String>)
    ensures
        text::opt_text(host) == host_of(url@),
{
    host_chars(text::chars_of(url).as_slice())
}

/// Whether a character ends a URL in a message.
pub open spec fn ends_url(c: char) -> bool {
    c == '\'' || c == '"' || text::is_space(c)
}

/// The characters before the first one that ends a URL.
pub open spec fn url_prefix(s: Seq<char>) -> Seq<char> {
    match search::first_such(s.len() as int, |i: int| ends_url(s[i])) {
        Some(i) => s.take(i),
        None => s,
    }
}

/// The user before the last `@` of an authority.
pub open spec fn user_of(authority: Seq<char>) -> Option<Seq<char>> {
    match scan::last_char(authority, '@') {
        Some(i) => if i == 0 {
            None
        } else {
            Some(authority.take(i))
        },
        None => None,
    }
}

/// The host and user of the first HTTPS URL in a message.
pub open spec fn auth_url_of(stderr: Seq<char>) -> Option<(Seq<char>, Option<Seq<char>>)> {
    match scan::find(stderr, "https://"@) {
        None => None,
        Some(i) => {
            let url = url_prefix(stderr.skip(i + "https://"@.len()));
            match host_of(url) {
                None => None,
                Some(host) => Some((host, user_of(scan::before_first(url, '/')))),
            }
        },
    }
}

fn url_end(s: &[char]) -> (n: usize)
    ensures
        n <= s.len(),
        url_prefix(s@) == s@.take(n as int),
{
    let ghost p = |i: int| ends_url(s@[i]);
    let mut i: usize = 0;
    while i < s.len()
        invariant
            0 <= i <= s.len(),
            p == (|i: int| ends_url(s@[i])),
            forall|j: int| 0 <= j < i ==> !(#[trigger] p(j)),
        decreases s.len() - i,
    {
        let c = s[i];
        if c == '\'' || c == '"' || text::is_space_char(c) {
            proof {
                assert(p(i as int));
                search::lemma_first_such(s@.len() as int, p, i as int);
            }
            return i;
        }
        assert(!p(i as int));
        i = i + 1;
    }
    proof {
        search::lemma_no_such(s@.len() as int, p);
        assert(s@.take(i as int) =~= s@);
    }
    i
}

/// The host, and any user, of the HTTPS URL in an authentication failure.
pub fn extract_auth_url(stderr: &str) -> (r: Option<AuthUrl>)
    ensures
        match r {
            Some(u) => auth_url_of(stderr@) == Some((u.host@, text::opt_text(u.user))),
            None => auth_url_of(stderr@) is None,
        },
{
    let s = text::chars_of(stderr);
    let scheme = text::chars_of("https://");
    let at = match scan::find_chars(s.as_slice(), scheme.as_slice()) {
        None => {
            return None;
        },
        Some(i) => i,
    };
    let n: usize = s.len();
    assert(at + scheme@.len() <= n);
    let rest = vstd::slice::slice_subrange(s.as_slice(), at + scheme.len(), n);
    assert(rest@ =~= s@.skip(at + scheme@.len()));
    let end: usize = url_end(rest);
    let url = vstd::slice::slice_subrange(rest, 0, end);
    assert(url@ =~= rest@.take(end as int));
    let authority = scan::chars_before_first(url, '/');
    let user = match scan::last_position(authority.as_slice(), '@') {
        Some(i) => if i == 0 {
            None
        } else {
            let user = vstd::slice::slice_subrange(authority.as_slice(), 0, i);
            assert(user@ =~= authority@.take(i as int));
            Some(text::text_of(user))
        },
        None => None,
    };
    match host_chars(url) {
        Some(host) => Some(AuthUrl { host, user }),
        None => None,
    }
}

/// A failed commit's message for the user.
pub open spec fn commit_advice(message: Seq<char>) -> Seq<char> {
    if text::has(message, "nothing to commit"@) || text::has(message, "nothing added to commit"@) {
        "No files staged for commit (use 's' to stage files)"@
    } else if text::has(message, "empty commit message"@) || text::has(message, "Aborting commit due to empty"@) {
        "Commit message cannot be empty"@
    } else if text::has(message, "Please tell me who you are"@) {
        "Git user not configured (run: git config user.email / user.name)"@
    } else {
        message
    }
}

/// A failed commit's message for the user; an unknown failure stays as it is.
pub fn friendly_commit_error(message: &str) -> (s: String)
    ensures
        s@ == commit_advice(message@),
{
    if text::contains_text(message, "nothing to commit") || text::contains_text(
        message,
        "nothing added to commit",
    ) {
        "No files staged for commit (use 's' to stage files)".to_owned()
    } else if text::contains_text(message, "empty commit message") || text::contains_text(
        message,
        "Aborting commit due to empty",
    ) {
        "Commit message cannot be empty".to_owned()
    } else if text::contains_text(message, "Please tell me who you are") {
        "Git user not configured (run: git config user.email / user.name)".to_owned()
    } else {
        message.to_owned()
    }
}

/// The result of a commit: the failure, if any, put in the user's words.
pub fn commit_result(c: &GitCommand, run: &CommandRun) -> (r: Result<(), String>)
    ensures
        match command::output(c.subcommand(), *run) {
            Ok(_) => r is Ok,
            Err(e) => r is Err && r->Err_0@ == commit_advice(e),
        },
{
    match c.finish(run) {
        Ok(_) => Ok(()),
        Err(e) => Err(friendly_commit_error(e.as_str())),
    }
}

/// The remote and the branch that a remote-tracking name stands for: the first
/// configured remote that the name starts with, followed by a slash and
/// something.
pub open spec fn split_ref(remotes: Seq<Seq<char>>, name: Seq<char>) -> Option<(Seq<char>, Seq<char>)>
    decreases remotes.len(),
{
    if remotes.len() == 0 {
        None
    } else {
        let prefix = remotes[0] + "/"@;
        if text::starts(name, prefix) && name.len() > prefix.len() {
            Some((remotes[0], name.skip(prefix.len() as int)))
        } else {
            split_ref(remotes.skip(1), name)
        }
    }
}

/// The remote and the branch that a remote-tracking name stands for.
pub fn split_remote_ref(remotes: &[String], name: &str) -> (r: Option<(String, String)>)
    ensures
        match r {
            Some(p) => split_ref(text::texts(remotes@), name@) == Some((p.0@, p.1@)),
            None => split_ref(text::texts(remotes@), name@) is None,
        },
{
    let chars = text::chars_of(name);
    let ghost all = text::texts(remotes@);
    let mut i: usize = 0;
    assert(all.skip(0) =~= all);
    while i < remotes.len()
        invariant
            0 <= i <= remotes.len(),
            all == text::texts(remotes@),
            chars@ == name@,
            split_ref(all, name@) == split_ref(all.skip(i as int), name@),
        decreases remotes.len() - i,
    {
        let mut prefix = remotes[i].clone();
        prefix.append("/");
        let p = text::chars_of(prefix.as_str());
        assert(all.skip(i as int)[0] == remotes@[i as int]@);
        assert(all.skip(i as int).skip(1) =~= all.skip(i + 1));
        if text::is_at(chars.as_slice(), p.as_slice(), 0) && chars.len() > p.len() {
            let rest = vstd::slice::slice_subrange(chars.as_slice(), p.len(), chars.len());
            assert(rest@ =~= name@.skip(p@.len() as int));
            return Some((remotes[i].clone(), text::text_of(rest)));
        }
        i = i + 1;
    }
    None
}

/// The full name of a local branch.
pub open spec fn local_ref(name: Seq<char>) -> Seq<char> {
    "refs/heads/"@ + name
}

/// How to check out a remote branch.
#[derive(Debug)]
pub enum RemoteCheckout {
    /// The local branch is already there: check it out.
    Local { name: String },
    /// The local branch is checked out and elsewhere: check out the remote's
    /// tree, then move the ref.
    MoveCurrent { refname: String },
    /// The local branch is elsewhere: overwrite it, then check it out.
    Overwrite { name: String, refname: String },
    /// There is no local branch: create one that tracks the remote branch,
    /// then check it out.
    Track { name: String, upstream: String, refname: String },
}

/// A local branch that has the name of a remote one.
#[derive(Debug, Clone, Copy, PartialEq, Eq, Structural)]
pub struct LocalTip {
    pub oid: Oid,
    pub is_head: bool,
}

fn local_refname(name: &str) -> (s: String)
    ensures
        s@ == local_ref(name@),
{
    let mut s = "refs/heads/".to_owned();
    s.append(name);
    s
}

fn around(before: &str, middle: &str, after: &str) -> (s: String)
    ensures
        s@ == before@ + middle@ + after@,
{
    let mut s = before.to_owned();
    s.append(middle);
    s.append(after);
    s
}

/// How to check out a remote branch, given the configured remotes, where the
/// remote branch points, and the local branch of the same name.
pub fn checkout_remote_branch(
    remotes: &[String],
    remote_branch: &str,
    remote_tip: Option<Oid>,
    local: Option<LocalTip>,
) -> (r: Result<RemoteCheckout, String>)
    ensures
        match split_ref(text::texts(remotes@), remote_branch@) {
            None => r is Err && r->Err_0@ == "Invalid remote branch format"@,
            Some(p) => match remote_tip {
                None => r is Err && r->Err_0@ == "Remote branch '"@ + remote_branch@ + "' not found"@,
                Some(tip) => r is Ok && match r->Ok_0 {
                    RemoteCheckout::Local { name } => local is Some && (local->0).oid == tip && name@ == p.1,
                    RemoteCheckout::MoveCurrent { refname } => local is Some && (local->0).oid != tip
                        && (local->0).is_head && refname@ == local_ref(p.1),
                    RemoteCheckout::Overwrite { name, refname } => local is Some && (local->0).oid != tip
                        && !(local->0).is_head && name@ == p.1 && refname@ == local_ref(p.1),
                    RemoteCheckout::Track { name, upstream, refname } => local is None && name@ == p.1
                        && upstream@ == remote_branch@ && refname@ == local_ref(p.1),
                },
            },
        },
{
    let name = match split_remote_ref(remotes, remote_branch) {
        None => {
            return Err("Invalid remote branch format".to_owned());
        },
        Some((_, name)) => name,
    };
    let tip = match remote_tip {
        None => {
            return Err(around("Remote branch '", remote_branch, "' not found"));
        },
        Some(tip) => tip,
    };
    match local {
        None => {
            let refname = local_refname(name.as_str());
            Ok(RemoteCheckout::Track { name, upstream: remote_branch.to_owned(), refname })
        },
        Some(l) => {
            if l.oid == tip {
                Ok(RemoteCheckout::Local { name })
            } else if l.is_head {
                Ok(RemoteCheckout::MoveCurrent { refname: local_refname(name.as_str()) })
            } else {
                let refname = local_refname(name.as_str());
                Ok(RemoteCheckout::Overwrite { name, refname })
            }
        },
    }
}

/// Whether a local branch may be deleted: it exists and is not checked out.
/// `is_head` is `None` where there is no such local branch.
pub fn delete_branch(branch_name: &str, is_head: Option<bool>) -> (r: Result<(), String>)
    ensures
        r is Ok <==> is_head == Some(false),
        r is Err ==> r->Err_0@ == (if is_head is None {
            "Local branch '"@ + branch_name@ + "' not found"@
        } else {
            "Cannot delete current branch"@
        }),
{
    match is_head {
        None => Err(around("Local branch '", branch_name, "' not found")),
        Some(true) => Err("Cannot delete current branch".to_owned()),
        Some(false) => Ok(()),
    }
}

/// Which refs a branch name is looked up in.
#[derive(Debug, Clone, Copy, PartialEq, Eq, Structural)]
pub enum BranchType {
    Local,
    Remote,
}

/// What merging a branch would amount to.
#[derive(Debug, Clone, Copy, PartialEq, Eq, Structural)]
pub struct MergeAnalysis {
    pub up_to_date: bool,
    pub fast_forward: bool,
    pub normal: bool,
}

/// What a merge does next.
#[derive(Debug, Clone, Copy, PartialEq, Eq, Structural)]
pub enum MergeStep {
    /// Nothing: the merge is complete.
    Done,
    /// Check out the branch's tip and move HEAD there.
    FastForward,
    /// Merge into the index, then look for conflicts.
    Merge,
}

/// What a merge does, by what it would amount to.
pub fn merge_step(analysis: MergeAnalysis) -> (step: MergeStep)
    ensures
        step == (if analysis.up_to_date {
            MergeStep::Done
        } else if analysis.fast_forward {
            MergeStep::FastForward
        } else if analysis.normal {
            MergeStep::Merge
        } else {
            MergeStep::Done
        }),
{
    if analysis.up_to_date {
        MergeStep::Done
    } else if analysis.fast_forward {
        MergeStep::FastForward
    } else if analysis.normal {
        MergeStep::Merge
    } else {
        MergeStep::Done
    }
}

/// The message of a merge commit, in git's own words.
pub open spec fn merge_text(branch_name: Seq<char>, branch_type: BranchType) -> Seq<char> {
    match branch_type {
        BranchType::Remote => "Merge remote-tracking branch '"@ + branch_name + "'"@,
        BranchType::Local => "Merge branch '"@ + branch_name + "'"@,
    }
}

/// What follows a merge into the index: `Ok` with the message to commit, or
/// `Err` with the outcome where conflicts stop it. The repository then stays in
/// the middle of the merge.
pub fn after_merge(
    branch_name: &str,
    branch_type: BranchType,
    has_conflicts: bool,
    conflicted: usize,
) -> (r: Result<String, OpOutcome>)
    ensures
        match r {
            Ok(message) => !has_conflicts && message@ == merge_text(branch_name@, branch_type),
            Err(outcome) => has_conflicts && outcome == (OpOutcome::Conflicts { count: conflicted }),
        },
{
    if has_conflicts {
        return Err(OpOutcome::Conflicts { count: conflicted });
    }
    match branch_type {
        BranchType::Remote => Ok(around("Merge remote-tracking branch '", branch_name, "'")),
        BranchType::Local => Ok(around("Merge branch '", branch_name, "'")),
    }
}

/// What a rebase meets at each turn.
#[derive(Debug, Clone, Copy, PartialEq, Eq, Structural)]
pub enum RebaseEvent {
    /// A rebase left in progress was opened again.
    Reopened { has_conflicts: bool, conflicted: usize },
    /// A commit was replayed onto the index.
    Replayed { has_conflicts: bool, conflicted: usize },
    /// No commit is left.
    Exhausted,
}

/// What a rebase does next.
#[derive(Debug, Clone, Copy, PartialEq, Eq, Structural)]
pub enum RebaseAction {
    /// Commit the index, then replay the next commit.
    Commit,
    /// Finish the rebase: it is complete.
    Finish,
    /// Leave the rebase in progress with this outcome.
    Stop(OpOutcome),
}

/// What a rebase does on each event: conflicts stop it where it is, a clean
/// index is committed, and with no commit left it is finished.
pub fn rebase_step(event: RebaseEvent) -> (action: RebaseAction)
    ensures
        action == match event {
            RebaseEvent::Reopened { has_conflicts, conflicted } => if has_conflicts {
                RebaseAction::Stop(OpOutcome::Conflicts { count: conflicted })
            } else {
                RebaseAction::Commit
            },
            RebaseEvent::Replayed { has_conflicts, conflicted } => if has_conflicts {
                RebaseAction::Stop(OpOutcome::Conflicts { count: conflicted })
            } else {
                RebaseAction::Commit
            },
            RebaseEvent::Exhausted => RebaseAction::Finish,
        },
{
    match event {
        RebaseEvent::Reopened { has_conflicts, conflicted } => if has_conflicts {
            RebaseAction::Stop(OpOutcome::Conflicts { count: conflicted })
        } else {
            RebaseAction::Commit
        },
        RebaseEvent::Replayed { has_conflicts, conflicted } => if has_conflicts {
            RebaseAction::Stop(OpOutcome::Conflicts { count: conflicted })
        } else {
            RebaseAction::Commit
        },
        RebaseEvent::Exhausted => RebaseAction::Finish,
    }
}

/// The state of one local branch against its upstream. `distance` is `None`
/// where the branch tracks no upstream that points anywhere.
#[derive(Debug, Clone, Copy)]
pub struct Tracking {
    pub distance: Option<(usize, usize)>,
    pub is_checked_out: bool,
}

/// How a branch is moved up to its upstream.
#[derive(Debug, Clone, Copy, PartialEq, Eq, Structural)]
pub enum FastForward {
    /// Leave it alone.
    Skip,
    /// Merge the upstream, which moves the working tree along.
    MergeUpstream,
    /// Point its ref at the upstream's tip.
    Retarget,
}

/// A branch with nothing of its own and something to gain.
pub open spec fn strictly_behind(t: Tracking) -> bool {
    t.distance matches Some(d) && d.0 == 0 && d.1 > 0
}

/// How a branch is moved up to its upstream: only where it is strictly behind,
/// and the checked-out branch only in a clean working tree.
pub fn fast_forward_one_behind(t: Tracking, working_tree_clean: bool) -> (step: FastForward)
    ensures
        step == (if !strictly_behind(t) {
            FastForward::Skip
        } else if !t.is_checked_out {
            FastForward::Retarget
        } else if working_tree_clean {
            FastForward::MergeUpstream
        } else {
            FastForward::Skip
        }),
{
    match t.distance {
        None => FastForward::Skip,
        Some((ahead, behind)) => {
            if ahead != 0 || behind == 0 {
                return FastForward::Skip;
            }
            if t.is_checked_out {
                if !working_tree_clean {
                    return FastForward::Skip;
                }
                FastForward::MergeUpstream
            } else {
                FastForward::Retarget
            }
        },
    }
}

/// What a fast-forward of every branch did.
#[derive(Debug, PartialEq, Eq)]
pub struct FastForwardSummary {
    /// The branches that moved.
    pub moved: Vec<String>,
    /// The branches whose move failed, with the error.
    pub failed: Vec<(String, String)>,
}

impl Default for FastForwardSummary {
    fn default() -> (s: FastForwardSummary)
        ensures
            s.moved@.len() == 0,
            s.failed@.len() == 0,
    {
        FastForwardSummary { moved: Vec::new(), failed: Vec::new() }
    }
}

/// What happened to one branch: it moved, it was left alone, or it failed.
#[derive(Debug)]
pub enum BranchMove {
    Moved,
    Skipped,
    Failed(String),
}

/// The names of the branches that moved.
pub open spec fn moved_names(moves: Seq<(String, BranchMove)>) -> Seq<Seq<char>>
    decreases moves.len(),
{
    if moves.len() == 0 {
        Seq::empty()
    } else {
        let before = moved_names(moves.drop_last());
        if moves.last().1 is Moved {
            before.push(moves.last().0@)
        } else {
            before
        }
    }
}

/// The names and errors of the branches that failed.
pub open spec fn failed_names(moves: Seq<(String, BranchMove)>) -> Seq<(Seq<char>, Seq<char>)>
    decreases moves.len(),
{
    if moves.len() == 0 {
        Seq::empty()
    } else {
        let before = failed_names(moves.drop_last());
        match moves.last().1 {
            BranchMove::Failed(e) => before.push((moves.last().0@, e@)),
            _ => before,
        }
    }
}

/// Pairs of texts.
pub open spec fn pairs(v: Seq<(String, String)>) -> Seq<(Seq<char>, Seq<char>)> {
    v.map_values(|p: (String, String)| (p.0@, p.1@))
}

/// The summary of moving every branch: a failure is recorded and never keeps
/// the others from being moved.
pub fn fast_forward_behind_branches(moves: &[(String, BranchMove)]) -> (s: FastForwardSummary)
    ensures
        text::texts(s.moved@) == moved_names(moves@),
        pairs(s.failed@) == failed_names(moves@),
{
    let mut moved: Vec<String> = Vec::new();
    let mut failed: Vec<(String, String)> = Vec::new();
    let mut i: usize = 0;
    assert(moves@.take(0) =~= Seq::empty());
    assert(text::texts(moved@) =~= Seq::empty());
    assert(pairs(failed@) =~= Seq::empty());
    while i < moves.len()
        invariant
            0 <= i <= moves.len(),
            text::texts(moved@) == moved_names(moves@.take(i as int)),
            pairs(failed@) == failed_names(moves@.take(i as int)),
        decreases moves.len() - i,
    {
        assert(moves@.take(i + 1).drop_last() =~= moves@.take(i as int));
        assert(moves@.take(i + 1).last() == moves@[i as int]);
        let name = &moves[i].0;
        match &moves[i].1 {
            BranchMove::Moved => {
                let ghost before = moved@;
                moved.push(name.clone());
                assert(text::texts(moved@) =~= text::texts(before).push(name@));
            },
            BranchMove::Skipped => {},
            BranchMove::Failed(e) => {
                let ghost before = failed@;
                failed.push((name.clone(), e.clone()));
                assert(pairs(failed@) =~= pairs(before).push((name@, e@)));
            },
        }
        i = i + 1;
    }
    assert(moves@.take(i as int) =~= moves@);
    FastForwardSummary { moved, failed }
}

impl FastForwardSummary {
    /// Whether nothing moved and nothing failed.
    pub fn is_empty(&self) -> (yes: bool)
        ensures
            yes == (self.moved@.len() == 0 && self.failed@.len() == 0),
    {
        self.moved.len() == 0 && self.failed.len() == 0
    }
}

/// Whether a hard reset may go ahead: only over a clean working tree.
pub fn reset_hard_checked(working_tree_clean: bool) -> (r: Result<(), String>)
    ensures
        r is Ok <==> working_tree_clean,
        r is Err ==> r->Err_0@ == "working tree has uncommitted changes"@,
{
    if working_tree_clean {
        Ok(())
    } else {
        Err("working tree has uncommitted changes".to_owned())
    }
}

/// The status of one path, as far as it tells what restoring it takes.
#[derive(Debug)]
pub struct PathStatus {
    /// `None` where the path is no valid text.
    pub path: Option<String>,
    /// New in the index or in the working tree.
    pub is_new: bool,
    /// Modified in the index or in the working tree.
    pub is_modified: bool,
}

/// Whether a path is new and not also modified.
pub open spec fn is_untracked(statuses: Seq<PathStatus>, path: Seq<char>) -> bool {
    exists|i: int|
        0 <= i < statuses.len() && text::opt_text((#[trigger] statuses[i]).path) == Some(path)
            && statuses[i].is_new && !statuses[i].is_modified
}

/// The paths that are untracked, or those that are not, in their order.
pub open spec fn chosen(statuses: Seq<PathStatus>, paths: Seq<Seq<char>>, untracked: bool) -> Seq<Seq<char>>
    decreases paths.len(),
{
    if paths.len() == 0 {
        Seq::empty()
    } else {
        let before = chosen(statuses, paths.drop_last(), untracked);
        if is_untracked(statuses, paths.last()) == untracked {
            before.push(paths.last())
        } else {
            before
        }
    }
}

/// What restoring some files takes.
#[derive(Debug)]
pub struct RestorePlan {
    /// Check the tracked files out of HEAD, where there are any.
    pub checkout: Option<GitCommand>,
    /// Move these untracked files to the recycle bin.
    pub trash: Vec<String>,
}

fn path_is_untracked(statuses: &[PathStatus], path: &str) -> (yes: bool)
    ensures
        yes == is_untracked(statuses@, path@),
{
    let mut i: usize = 0;
    while i < statuses.len()
        invariant
            0 <= i <= statuses.len(),
            forall|j: int|
                0 <= j < i ==> !(text::opt_text((#[trigger] statuses@[j]).path) == Some(path@)
                    && statuses@[j].is_new && !statuses@[j].is_modified),
        decreases statuses.len() - i,
    {
        let s = &statuses[i];
        if let Some(p) = &s.path {
            if text::same_text(p.as_str(), path) && s.is_new && !s.is_modified {
                assert(text::opt_text(statuses@[i as int].path) == Some(path@));
                return true;
            }
        }
        i = i + 1;
    }
    false
}

/// What restoring some files takes: tracked files are checked out of HEAD,
/// which discards staged and unstaged changes alike; untracked ones go to the
/// recycle bin.
pub fn restore_files(statuses: &[PathStatus], paths: &[String]) -> (plan: RestorePlan)
    ensures
        text::texts(plan.trash@) == chosen(statuses@, text::texts(paths@), true),
        match plan.checkout {
            None => chosen(statuses@, text::texts(paths@), false).len() == 0,
            Some(c) => {
                &&& chosen(statuses@, text::texts(paths@), false).len() > 0
                &&& c@ == command::git(
                    seq!["checkout"@, "HEAD"@, "--"@] + chosen(statuses@, text::texts(paths@), false),
                    None,
                )
            },
        },
{
    let ghost all = text::texts(paths@);
    let ghost head = seq!["checkout"@, "HEAD"@, "--"@];
    let mut c = GitCommand::new(None);
    c.arg("checkout");
    c.arg("HEAD");
    c.arg("--");
    let mut any_tracked = false;
    let mut trash: Vec<String> = Vec::new();
    let mut i: usize = 0;
    assert(all.take(0) =~= Seq::empty());
    assert(text::texts(trash@) =~= Seq::empty());
    assert(c@ =~= command::git(head + Seq::empty(), None));
    while i < paths.len()
        invariant
            0 <= i <= paths.len(),
            all == text::texts(paths@),
            text::texts(trash@) == chosen(statuses@, all.take(i as int), true),
            any_tracked == (chosen(statuses@, all.take(i as int), false).len() > 0),
            c@ == command::git(head + chosen(statuses@, all.take(i as int), false), None),
        decreases paths.len() - i,
    {
        assert(all.take(i + 1).drop_last() =~= all.take(i as int));
        assert(all.take(i + 1).last() == paths@[i as int]@);
        let path = &paths[i];
        if path_is_untracked(statuses, path.as_str()) {
            let ghost before = trash@;
            trash.push(path.clone());
            assert(text::texts(trash@) =~= text::texts(before).push(path@));
        } else {
            let ghost before = chosen(statuses@, all.take(i as int), false);
            c.arg(path.as_str());
            any_tracked = true;
            assert(c@ =~= command::git(head + before.push(path@), None));
        }
        i = i + 1;
    }
    assert(all.take(i as int) =~= all);
    if any_tracked {
        RestorePlan { checkout: Some(c), trash }
    } else {
        RestorePlan { checkout: None, trash }
    }
}

/// The files that go to the recycle bin once the tracked ones are checked out;
/// `run` is the run of the plan's checkout, where it has one. None do when that
/// failed: its message is the error.
pub fn after_restore_checkout(plan: RestorePlan, run: Option<&CommandRun>) -> (trash: Result<Vec<String>, String>)
    requires
        plan.checkout is Some ==> run is Some,
    ensures
        match plan.checkout {
            None => trash == Ok::<Vec<String>, String>(plan.trash),
            Some(c) => match command::output(c.subcommand(), *run->0) {
                Ok(_) => trash == Ok::<Vec<String>, String>(plan.trash),
                Err(e) => trash is Err && trash->Err_0@ == e,
            },
        },
{
    if let (Some(c), Some(r)) = (&plan.checkout, run) {
        if let Err(e) = c.finish(r) {
            return Err(e);
        }
    }
    Ok(plan.trash)
}

/// Credentials reach a child process through its environment alone: the
/// arguments and the input are the same with and without them.
pub proof fn law_credentials_stay_in_the_environment(args: Seq<Seq<char>>, auth: &AskPass)
    ensures
        command::git(args, Some(auth)).args == command::git(args, None).args,
        command::git(args, Some(auth)).stdin == command::git(args, None).stdin,
        command::git(args, Some(auth)).env == command::git(args, None).env + auth.vars(),
        command::git_no_editor(args, Some(auth)).args == command::git_no_editor(args, None).args,
        command::git_no_editor(args, Some(auth)).stdin == command::git_no_editor(args, None).stdin,
        command::git_no_editor(args, Some(auth)).env == command::git_no_editor(args, None).env + auth.vars(),
{
    assert(command::git(args, None).env + auth.vars() =~= command::git(args, Some(auth)).env);
    assert(command::git_no_editor(args, None).env + auth.vars() =~= command::git_no_editor(
        args,
        Some(auth),
    ).env);
}

/// No prompt for a user name and a token is offered for a key failure.
pub proof fn law_key_failures_are_not_https(stderr: Seq<char>)
    requires
        text::has(stderr, "Permission denied (publickey"@),
    ensures
        !https_auth_failure(stderr),
{
}

/// Every failure that a prompt can fix also has a line of advice.
pub proof fn law_https_failures_are_explained(stderr: Seq<char>)
    requires
        https_auth_failure(stderr),
    ensures
        advice(stderr) == Some(
            "Authentication failed — check your credentials / SSH key (e.g. `gh auth login`)"@,
        ),
{
}

/// Restoring treats every path once: what is not checked out is trashed, and
/// nothing else is touched.
pub proof fn law_restore_covers_every_path(statuses: Seq<PathStatus>, paths: Seq<Seq<char>>, path: Seq<char>)
    ensures
        chosen(statuses, paths, true).len() + chosen(statuses, paths, false).len() == paths.len(),
        chosen(statuses, paths, true).contains(path) <==> paths.contains(path) && is_untracked(statuses, path),
        chosen(statuses, paths, false).contains(path) <==> paths.contains(path) && !is_untracked(statuses, path),
    decreases paths.len(),
{
    if paths.len() > 0 {
        let front = paths.drop_last();
        let last = paths.last();
        law_restore_covers_every_path(statuses, front, path);
        assert(paths =~= front.push(last));
        lemma_contains_push(front, last, path);
        lemma_contains_push(chosen(statuses, front, true), last, path);
        lemma_contains_push(chosen(statuses, front, false), last, path);
    }
}

proof fn lemma_contains_push(s: Seq<Seq<char>>, x: Seq<char>, y: Seq<char>)
    ensures
        s.push(x).contains(y) <==> s.contains(y) || x == y,
{
    if s.contains(y) {
        let i = choose|i: int| 0 <= i < s.len() && s[i] == y;
        assert(s.push(x)[i] == y);
    }
    assert(s.push(x)[s.len() as int] == x);
    if s.push(x).contains(y) && x != y {
        let i = choose|i: int| 0 <= i < s.push(x).len() && s.push(x)[i] == y;
        assert(s[i] == y);
    }
}

/// A name that splits is its remote, a slash and its branch; the remote is one of
/// those configured, and the branch is not empty.
pub proof fn law_split_names_rejoin(remotes: Seq<Seq<char>>, name: Seq<char>)
    requires
        split_ref(remotes, name) is Some,
    ensures
        ({
            let (remote, branch) = split_ref(remotes, name)->0;
            &&& name == remote + "/"@ + branch
            &&& remotes.contains(remote)
            &&& branch.len() > 0
        }),
    decreases remotes.len(),
{
    let (remote, branch) = split_ref(remotes, name)->0;
    let prefix = remotes[0] + "/"@;
    if text::starts(name, prefix) && name.len() > prefix.len() {
        assert(remotes[0] == remote);
        assert(name =~= remote + "/"@ + branch);
    } else {
        law_split_names_rejoin(remotes.skip(1), name);
        let i = choose|i: int| 0 <= i < remotes.skip(1).len() && remotes.skip(1)[i] == remote;
        assert(remotes[i + 1] == remote);
    }
}

/// A fetch of all remotes succeeds exactly when the fetch of each one did.
pub proof fn law_fetch_all_succeeds_iff_each_did(results: Seq<(Seq<char>, Option<Seq<char>>)>)
    ensures
        fetch_failures(results).len() == 0 <==> (forall|i: int|
            0 <= i < results.len() ==> (#[trigger] results[i]).1 is None),
    decreases results.len(),
{
    if results.len() > 0 {
        let front = results.drop_last();
        law_fetch_all_succeeds_iff_each_did(front);
        if fetch_failures(front).len() == 0 && results.last().1 is None {
            assert forall|i: int| 0 <= i < results.len() implies (#[trigger] results[i]).1 is None by {
                if i < front.len() {
                    assert(front[i].1 is None);
                }
            }
        }
        if forall|i: int| 0 <= i < results.len() ==> (#[trigger] results[i]).1 is None {
            assert(results[results.len() - 1].1 is None);
            assert forall|i: int| 0 <= i < front.len() implies (#[trigger] front[i]).1 is None by {
                assert(results[i].1 is None);
            }
        }
    }
}

/// A branch with commits of its own is never moved.
pub proof fn law_diverged_branches_stay(t: Tracking)
    requires
        t.distance matches Some(d) && d.0 > 0,
    ensures
        !strictly_behind(t),
{
}

} // verus!
