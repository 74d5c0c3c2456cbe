//! What holds of every operation.
use crate::git::askpass::AskPass;
use crate::git::command;
use crate::git::command::{CommandRun, OpOutcome};
use crate::git::operations;
use crate::git::operations::{BranchMove, BranchType, PathStatus, PullMode, ResetMode, Tracking};
use crate::git::repository::OperationState;
use crate::oid::Oid;
use crate::scan;
use crate::search;
use crate::text;
use vstd::prelude::*;

verus! {

/// A soft reset is `--soft`, a mixed one `--mixed` and a hard one `--hard`.
pub proof fn law_reset_flags(mode: ResetMode)
    ensures
        match mode {
            ResetMode::Soft => mode.flag() == "--soft"@,
            ResetMode::Mixed => mode.flag() == "--mixed"@,
            ResetMode::Hard => mode.flag() == "--hard"@,
        },
{
}

/// A pull that may only fast-forward is `--ff-only`, one that merges is
/// `--no-rebase`, and one that rebases is `--rebase`; the flag comes before the
/// remote, and the remote before the branch.
pub proof fn law_pull_arguments(remote: &str, branch: &str, mode: PullMode)
    ensures
        ({
            let flag = match mode {
                PullMode::FfOnly => "--ff-only"@,
                PullMode::Merge => "--no-rebase"@,
                PullMode::Rebase => "--rebase"@,
            };
            &&& operations::pull_args(None, None, mode) == seq!["pull"@, flag]
            &&& operations::pull_args(None, Some(branch), mode) == seq!["pull"@, flag]
            &&& operations::pull_args(Some(remote), None, mode) == seq!["pull"@, flag, remote@]
            &&& operations::pull_args(Some(remote), Some(branch), mode) == seq!["pull"@, flag, remote@, branch@]
        }),
{
    let flag = match mode {
        PullMode::FfOnly => "--ff-only"@,
        PullMode::Merge => "--no-rebase"@,
        PullMode::Rebase => "--rebase"@,
    };
    assert(operations::pull_args(Some(remote), None, mode) =~= seq!["pull"@, flag, remote@]);
    assert(operations::pull_args(Some(remote), Some(branch), mode) =~= seq!["pull"@, flag, remote@, branch@]);
}

/// No invocation waits at a terminal: prompts are switched off, and one that may
/// stop on conflicts opens no editor. Credentials follow, and nothing else is set.
pub proof fn law_commands_never_wait(args: Seq<Seq<char>>, auth: &AskPass)
    ensures
        command::git(args, None).args == args,
        command::git(args, None).env == seq![("GIT_TERMINAL_PROMPT"@, "0"@)],
        command::git(args, None).stdin is None,
        command::git(args, Some(auth)).args == args,
        command::git(args, Some(auth)).stdin is None,
        command::git(args, Some(auth)).env == seq![
            ("GIT_TERMINAL_PROMPT"@, "0"@),
            ("GIT_ASKPASS"@, auth.shim@),
            ("KEIFU_ASKPASS_USER"@, auth.credentials.username@),
            ("KEIFU_ASKPASS_PASS"@, auth.credentials.password@),
        ],
        command::git_no_editor(args, None).args == args,
        command::git_no_editor(args, None).stdin is None,
        command::git_no_editor(args, None).env == seq![
            ("GIT_EDITOR"@, "true"@),
            ("GIT_SEQUENCE_EDITOR"@, "true"@),
            ("GIT_TERMINAL_PROMPT"@, "0"@),
        ],
        command::git_no_editor(args, Some(auth)).args == args,
        command::git_no_editor(args, Some(auth)).stdin is None,
        command::git_no_editor(args, Some(auth)).env == seq![
            ("GIT_EDITOR"@, "true"@),
            ("GIT_SEQUENCE_EDITOR"@, "true"@),
            ("GIT_TERMINAL_PROMPT"@, "0"@),
            ("GIT_ASKPASS"@, auth.shim@),
            ("KEIFU_ASKPASS_USER"@, auth.credentials.username@),
            ("KEIFU_ASKPASS_PASS"@, auth.credentials.password@),
        ],
{
    assert(command::git(args, None).env =~= seq![("GIT_TERMINAL_PROMPT"@, "0"@)]);
    assert(command::git_no_editor(args, None).env =~= seq![
        ("GIT_EDITOR"@, "true"@),
        ("GIT_SEQUENCE_EDITOR"@, "true"@),
        ("GIT_TERMINAL_PROMPT"@, "0"@),
    ]);
}

/// An invocation that reads a patch is given exactly that patch.
pub proof fn law_patches_are_handed_over(args: Seq<Seq<char>>, patch: Seq<char>)
    ensures
        command::git_with_stdin(args, patch).args == args,
        command::git_with_stdin(args, patch).stdin == Some(patch),
        command::git_with_stdin(args, patch).env.len() == 0,
{
}

/// A conflicted path is resolved by checking out one side of exactly that path and
/// then staging it.
pub proof fn law_taking_a_side(side: Seq<char>, path: Seq<char>)
    ensures
        operations::take_side(side, path).0.args == seq!["checkout"@, side, "--"@, path],
        operations::take_side(side, path).1.args == seq!["add"@, "--"@, path],
{
}

/// A run that ended well gives its output; any other gives an error that names the
/// subcommand or says what failed, with what the child printed.
pub proof fn law_results_of_runs(sub: Seq<char>, stdout: String, stderr: String)
    ensures
        command::output(sub, CommandRun::Exited { success: true, stdout, stderr }) == Ok::<Seq<char>, Seq<char>>(
            stdout@,
        ),
        command::output(sub, CommandRun::Exited { success: false, stdout, stderr }) == Err::<Seq<char>, Seq<char>>(
            "git "@ + sub + " failed: "@ + text::trim(stderr@),
        ),
        command::output(sub, CommandRun::NotStarted) == Err::<Seq<char>, Seq<char>>("Failed to execute git "@ + sub),
        command::output(sub, CommandRun::NotAwaited) == Err::<Seq<char>, Seq<char>>("Failed to run git "@ + sub),
        command::output(sub, CommandRun::NoStdin) == Err::<Seq<char>, Seq<char>>("Failed to open git stdin"@),
        command::output(sub, CommandRun::StdinFailed) == Err::<Seq<char>, Seq<char>>(
            "Failed to write patch to git stdin"@,
        ),
{
}

/// An integration that ended well is complete, whatever else is conflicted; one
/// that failed with conflicts is an outcome with their number; one that failed
/// without is an error.
pub proof fn law_conflicts_are_an_outcome(sub: Seq<char>, stdout: String, stderr: String, conflicts: usize)
    ensures
        command::integration(sub, CommandRun::Exited { success: true, stdout, stderr }, conflicts) == Ok::<
            OpOutcome,
            Seq<char>,
        >(OpOutcome::Completed),
        conflicts > 0 ==> command::integration(
            sub,
            CommandRun::Exited { success: false, stdout, stderr },
            conflicts,
        ) == Ok::<OpOutcome, Seq<char>>((OpOutcome::Conflicts { count: conflicts })),
        command::integration(sub, CommandRun::Exited { success: false, stdout, stderr }, 0) == Err::<
            OpOutcome,
            Seq<char>,
        >("git "@ + sub + " failed: "@ + text::trim(stderr@)),
        command::integration(sub, CommandRun::NotStarted, conflicts) == Err::<OpOutcome, Seq<char>>(
            "Failed to execute git "@ + sub,
        ),
        command::integration(sub, CommandRun::NoStdin, conflicts) is Err,
        command::integration(sub, CommandRun::StdinFailed, conflicts) is Err,
        command::integration(sub, CommandRun::NotAwaited, conflicts) is Err,
{
}

/// The operation in progress is aborted or continued by its own subcommand.
pub proof fn law_operations_and_their_subcommands(op: OperationState)
    ensures
        match op {
            OperationState::Clean => op.subcommand() is None,
            OperationState::Merge => op.subcommand() == Some("merge"@),
            OperationState::Rebase => op.subcommand() == Some("rebase"@),
            OperationState::CherryPick => op.subcommand() == Some("cherry-pick"@),
            OperationState::Revert => op.subcommand() == Some("revert"@),
        },
{
}

/// Different stash entries have different names, each with its number in braces.
pub proof fn law_stash_names(index: usize, other: usize)
    ensures
        operations::stash_ref(index) == "stash@{"@ + text::decimal(index as nat) + "}"@,
        operations::stash_ref(index) == operations::stash_ref(other) ==> index == other,
{
    let a = operations::stash_ref(index);
    let b = operations::stash_ref(other);
    if a == b {
        let da = text::decimal(index as nat);
        let db = text::decimal(other as nat);
        let n = "stash@{"@.len() as int;
        assert(a.len() == n + da.len() + "}"@.len());
        assert(b.len() == n + db.len() + "}"@.len());
        assert(a.subrange(n, n + da.len()) =~= da);
        assert(b.subrange(n, n + db.len()) =~= db);
        text::laws::law_decimal(index as nat);
        text::laws::law_decimal(other as nat);
    }
}

/// A stash is pushed with its flag and, if there is one, with its message.
pub proof fn law_stash_arguments(flag: Seq<char>, message: Seq<char>)
    ensures
        message.len() == 0 ==> operations::stash_args(None, message) == seq!["stash"@, "push"@],
        message.len() == 0 ==> operations::stash_args(Some(flag), message) == seq!["stash"@, "push"@, flag],
        message.len() > 0 ==> operations::stash_args(None, message) == seq!["stash"@, "push"@, "-m"@, message],
        message.len() > 0 ==> operations::stash_args(Some(flag), message) == seq![
            "stash"@,
            "push"@,
            flag,
            "-m"@,
            message,
        ],
{
    if message.len() > 0 {
        assert(operations::stash_args(None, message) =~= seq!["stash"@, "push"@, "-m"@, message]);
        assert(operations::stash_args(Some(flag), message) =~= seq!["stash"@, "push"@, flag, "-m"@, message]);
    }
}

/// Every line that is not blank is an entry, without the white space around it
/// and in its order.
pub proof fn law_entries_are_the_lines_that_are_not_blank(lines: Seq<Seq<char>>, line: Seq<char>)
    ensures
        operations::entries(Seq::<Seq<char>>::empty()).len() == 0,
        text::trim(line).len() == 0 ==> operations::entries(lines.push(line)) == operations::entries(lines),
        text::trim(line).len() > 0 ==> operations::entries(lines.push(line)) == operations::entries(lines).push(
            text::trim(line),
        ),
{
    assert(lines.push(line).drop_last() =~= lines);
}

/// Every word that is an id counts, in its order, and no other does.
pub proof fn law_ids_are_the_words_that_are_ids(words: Seq<Seq<char>>, o: Oid, word: Seq<char>)
    ensures
        operations::ids(Seq::<Seq<char>>::empty()).len() == 0,
        operations::ids(words.push(o.hex())) == operations::ids(words).push(o),
        !crate::oid::is_hex_oid(word) ==> operations::ids(words.push(word)) == operations::ids(words),
{
    crate::oid::law_hex_round_trip(o);
    assert(words.push(o.hex()).drop_last() =~= words);
    assert(words.push(word).drop_last() =~= words);
}

/// Each remote that failed is reported by its name with what it said; one that
/// succeeded is not.
pub proof fn law_failed_remotes_are_reported(
    results: Seq<(Seq<char>, Option<Seq<char>>)>,
    remote: Seq<char>,
    error: Seq<char>,
)
    ensures
        operations::fetch_failures(results.push((remote, None))) == operations::fetch_failures(results),
        operations::fetch_failures(results.push((remote, Some(error)))) == operations::fetch_failures(results).push(
            remote + ": "@ + text::trim(error),
        ),
{
    assert(results.push((remote, None)).drop_last() =~= results);
    assert(results.push((remote, Some(error))).drop_last() =~= results);
}

/// Texts are joined in their order, with the separator between any two.
pub proof fn law_texts_are_joined(parts: Seq<Seq<char>>, separator: Seq<char>, last: Seq<char>)
    ensures
        operations::join(Seq::<Seq<char>>::empty(), separator).len() == 0,
        operations::join(seq![last], separator) == last,
        parts.len() > 0 ==> operations::join(parts.push(last), separator) == operations::join(parts, separator)
            + separator + last,
{
    assert(parts.push(last).drop_last() =~= parts);
}

/// The advice for known failures, the first that applies: credentials, a branch
/// that the remote lacks, local changes in the way, and a lock. Any other failure
/// has none.
pub proof fn law_advice_for_known_failures(e: Seq<char>)
    ensures
        ({
            let credentials = text::has(e, "could not read Username"@) || text::has(e, "Authentication failed"@)
                || text::has(e, "Permission denied (publickey"@);
            let branch = text::has(e, "couldn't find remote ref"@);
            let changes = text::has(e, "would be overwritten by merge"@) || text::has(
                e,
                "Your local changes to the following files would be overwritten"@,
            ) || text::has(e, "cannot pull with rebase"@);
            let lock = text::has(e, "index.lock"@);
            &&& credentials ==> operations::advice(e) == Some(
                "Authentication failed — check your credentials / SSH key (e.g. `gh auth login`)"@,
            )
            &&& !credentials && branch ==> operations::advice(e) == Some(
                match operations::missing_ref(e) {
                    Some(r) => "Remote has no branch '"@ + r + "' — it may be renamed or not pushed yet"@,
                    None => "That branch is missing on the remote — it may be renamed or not pushed yet"@,
                },
            )
            &&& !credentials && !branch && changes ==> operations::advice(e) == Some(
                "Local changes would be overwritten — commit or stash them first"@,
            )
            &&& !credentials && !branch && !changes && lock ==> operations::advice(e) == Some(
                "Another git operation is in progress (index.lock) — wait for it to finish"@,
            )
            &&& !credentials && !branch && !changes && !lock ==> operations::advice(e) is None
        }),
{
}

/// A prompt for a user name and a token is offered exactly for a failure about
/// them that no key is the cause of.
pub proof fn law_prompts_are_for_https(e: Seq<char>)
    ensures
        operations::https_auth_failure(e) <==> !text::has(e, "Permission denied (publickey"@) && (text::has(
            e,
            "could not read Username"@,
        ) || text::has(e, "Authentication failed"@)),
{
}

/// A failed commit in the user's words; any other failure in its own.
pub proof fn law_commit_failures_in_words(m: Seq<char>)
    ensures
        ({
            let nothing = text::has(m, "nothing to commit"@) || text::has(m, "nothing added to commit"@);
            let empty = text::has(m, "empty commit message"@) || text::has(m, "Aborting commit due to empty"@);
            let who = text::has(m, "Please tell me who you are"@);
            &&& nothing ==> operations::commit_advice(m) == "No files staged for commit (use 's' to stage files)"@
            &&& !nothing && empty ==> operations::commit_advice(m) == "Commit message cannot be empty"@
            &&& !nothing && !empty && who ==> operations::commit_advice(m)
                == "Git user not configured (run: git config user.email / user.name)"@
            &&& !nothing && !empty && !who ==> operations::commit_advice(m) == m
        }),
{
}

/// A remote-tracking name splits at the first configured remote that it starts
/// with; what follows the slash is the branch, slashes of its own and all.
pub proof fn law_names_split_at_their_remote(remotes: Seq<Seq<char>>, k: int, branch: Seq<char>)
    requires
        0 <= k < remotes.len(),
        branch.len() > 0,
        forall|j: int, rest: Seq<char>|
            0 <= j < k && rest.len() > 0 ==> remotes[k] + "/"@ + branch != #[trigger] (remotes[j] + "/"@ + rest),
    ensures
        operations::split_ref(remotes, remotes[k] + "/"@ + branch) == Some((remotes[k], branch)),
    decreases k,
{
    let name = remotes[k] + "/"@ + branch;
    let prefix = remotes[0] + "/"@;
    if k == 0 {
        assert(name.subrange(0, prefix.len() as int) =~= prefix);
        assert(name.skip(prefix.len() as int) =~= branch);
    } else {
        if text::starts(name, prefix) && name.len() > prefix.len() {
            let rest = name.skip(prefix.len() as int);
            assert(name =~= remotes[0] + "/"@ + rest);
        }
        let tail = remotes.skip(1);
        assert(tail[k - 1] == remotes[k]);
        assert forall|j: int, rest: Seq<char>| 0 <= j < k - 1 && rest.len() > 0 implies tail[k - 1] + "/"@ + branch
            != #[trigger] (tail[j] + "/"@ + rest) by {
            assert(tail[j] == remotes[j + 1]);
            assert(remotes[k] + "/"@ + branch != remotes[j + 1] + "/"@ + rest);
        }
        law_names_split_at_their_remote(tail, k - 1, branch);
    }
}

/// A local branch's ref stands under `refs/heads/`.
pub proof fn law_local_refs(name: Seq<char>)
    ensures
        operations::local_ref(name) == "refs/heads/"@ + name,
{
}

/// A merge commit says in git's own words what was merged.
pub proof fn law_merge_messages(name: Seq<char>)
    ensures
        operations::merge_text(name, BranchType::Local) == "Merge branch '"@ + name + "'"@,
        operations::merge_text(name, BranchType::Remote) == "Merge remote-tracking branch '"@ + name + "'"@,
{
}

/// A branch may be fast-forwarded exactly if it has an upstream, nothing that the
/// upstream lacks, and lacks something of it.
pub proof fn law_branches_that_may_be_forwarded(t: Tracking)
    ensures
        t.distance is None ==> !operations::strictly_behind(t),
        t.distance matches Some(d) ==> (operations::strictly_behind(t) <==> d.0 == 0 && d.1 > 0),
{
}

/// A summary names every branch that moved and every one that failed, with its
/// error, in their order, and no other.
pub proof fn law_every_move_is_reported(moves: Seq<(String, BranchMove)>, name: String, error: String)
    ensures
        operations::moved_names(moves.push((name, BranchMove::Moved))) == operations::moved_names(moves).push(name@),
        operations::moved_names(moves.push((name, BranchMove::Skipped))) == operations::moved_names(moves),
        operations::moved_names(moves.push((name, BranchMove::Failed(error)))) == operations::moved_names(moves),
        operations::failed_names(moves.push((name, BranchMove::Moved))) == operations::failed_names(moves),
        operations::failed_names(moves.push((name, BranchMove::Skipped))) == operations::failed_names(moves),
        operations::failed_names(moves.push((name, BranchMove::Failed(error)))) == operations::failed_names(
            moves,
        ).push((name@, error@)),
{
    assert(moves.push((name, BranchMove::Moved)).drop_last() =~= moves);
    assert(moves.push((name, BranchMove::Skipped)).drop_last() =~= moves);
    assert(moves.push((name, BranchMove::Failed(error))).drop_last() =~= moves);
}

/// A file goes to the recycle bin exactly if some entry says that it is new and
/// not modified: what HEAD can give back is checked out instead.
pub proof fn law_only_new_files_are_trashed(statuses: Seq<PathStatus>, path: Seq<char>)
    ensures
        operations::is_untracked(statuses, path) <==> exists|i: int|
            0 <= i < statuses.len() && (#[trigger] statuses[i]).path is Some && (statuses[i].path->0)@ == path
                && statuses[i].is_new && !statuses[i].is_modified,
{
    if operations::is_untracked(statuses, path) {
        let i = choose|i: int|
            0 <= i < statuses.len() && text::opt_text((#[trigger] statuses[i]).path) == Some(path)
                && statuses[i].is_new && !statuses[i].is_modified;
        assert(statuses[i].path is Some);
    }
}

proof fn lemma_before(x: Seq<char>, y: Seq<char>, c: char)
    requires
        !x.contains(c),
        y.len() > 0 ==> y[0] == c,
    ensures
        scan::before_first(x + y, c) == x,
{
    if y.len() > 0 {
        text::laws::law_before_first(x, c, y.skip(1));
        assert(x + seq![c] + y.skip(1) =~= x + y);
    } else {
        text::laws::law_before_first(x, c, y);
        assert(x + y =~= x);
    }
}

/// The host of an address is what stands behind its user and before its port and
/// its path, in lower case.
pub proof fn law_hosts_of_addresses(
    user: Seq<char>,
    host: Seq<char>,
    port: Seq<char>,
    path: Seq<char>,
)
    requires
        !user.contains('/'),
        host.len() > 0,
        !host.contains('/') && !host.contains('@') && !host.contains(':'),
        port.len() > 0 ==> port[0] == ':',
        !port.contains('/') && !port.contains('@'),
        path.len() > 0 ==> path[0] == '/',
    ensures
        !text::has(host + port + path, "://"@) ==> operations::host_of(host + port + path) == Some(
            text::lower(host),
        ),
        !text::has(user + seq!['@'] + host + port + path, "://"@) ==> operations::host_of(
            user + seq!['@'] + host + port + path,
        ) == Some(text::lower(host)),
{
    reveal_strlit("://");
    let plain = host + port;
    assert(!plain.contains('/') && !plain.contains('@')) by {
        assert forall|k: int| 0 <= k < plain.len() implies plain[k] != '/' && plain[k] != '@' by {
            if k < host.len() {
                assert(host.contains(host[k]));
            } else {
                assert(port.contains(port[k - host.len()]));
            }
        }
    }
    lemma_before(host, port, ':');
    lemma_before(plain, path, '/');
    scan::law_last_char(plain, '@');
    let url = plain + path;
    if !text::has(url, "://"@) {
        scan::law_after_last(url, "://"@, 0);
    }
    let named = user + seq!['@'] + plain;
    assert(user + seq!['@'] + host + port + path =~= named + path);
    assert(user + seq!['@'] + host + port =~= named);
    assert(!named.contains('/')) by {
        assert forall|k: int| 0 <= k < named.len() implies named[k] != '/' by {
            if k < user.len() {
                assert(user.contains(user[k]));
            } else if k > user.len() {
                assert(plain.contains(plain[k - user.len() - 1]));
            }
        }
    }
    lemma_before(named, path, '/');
    scan::law_last_char(named, '@');
    assert(named[user.len() as int] == '@');
    assert(named.contains('@'));
    let i = scan::last_char(named, '@')->0;
    assert(i == user.len()) by {
        if i > user.len() {
            assert(plain.contains(plain[i - user.len() - 1]));
        }
    }
    assert(named.skip(i + 1) =~= plain);
    if !text::has(named + path, "://"@) {
        scan::law_after_last(named + path, "://"@, 0);
    }
}

/// A scheme changes nothing of an address's host.
pub proof fn law_schemes_are_left_out(scheme: Seq<char>, rest: Seq<char>)
    requires
        !text::has(rest, "://"@),
    ensures
        operations::host_of(scheme + "://"@ + rest) == operations::host_of(rest),
{
    reveal_strlit("://");
    let p = "://"@;
    let url = scheme + p + rest;
    let at = scheme.len() as int;
    assert(url.subrange(at, at + p.len()) =~= p);
    assert forall|j: int| at < j implies !text::occurs_at(url, p, j) by {
        if text::occurs_at(url, p, j) {
            let found = url.subrange(j, j + p.len());
            assert(found[0] == ':');
            assert(url[j] == ':');
            let k = j - at - p.len();
            assert(k >= 0) by {
                if k < 0 {
                    assert(url[j] == p[j - at]);
                }
            }
            assert(rest.subrange(k, k + p.len()) =~= found);
            assert(text::occurs_at(rest, p, k));
        }
    }
    scan::law_after_last(url, p, at);
    assert(url.skip(at + p.len()) =~= rest);
    scan::law_after_last(rest, p, 0);
}

/// A URL in a message goes on up to a quote of either kind or white space.
pub proof fn law_urls_end_at_quotes_and_spaces(s: Seq<char>)
    ensures
        ({
            let url = operations::url_prefix(s);
            &&& url.len() <= s.len()
            &&& url == s.take(url.len() as int)
            &&& url.len() < s.len() ==> (s[url.len() as int] == '\'' || s[url.len() as int] == '"'
                || text::is_space(s[url.len() as int]))
            &&& forall|k: int|
                0 <= k < url.len() ==> #[trigger] s[k] != '\'' && s[k] != '"' && !text::is_space(s[k])
        }),
{
    let p = |i: int| operations::ends_url(s[i]);
    search::lemma_first_such_holds(s.len() as int, p);
    let n = match search::first_such(s.len() as int, p) {
        Some(i) => i,
        None => s.len() as int,
    };
    assert(operations::url_prefix(s) =~= s.take(n));
    assert forall|k: int| 0 <= k < n implies #[trigger] s[k] != '\'' && s[k] != '"' && !text::is_space(
        s[k],
    ) by {
        assert(!p(k));
    }
    if n < s.len() {
        assert(p(n));
    }
}

/// The user of an address is what stands before its last `@`, and nobody where
/// that is nothing.
pub proof fn law_users_of_addresses(authority: Seq<char>)
    ensures
        match operations::user_of(authority) {
            Some(user) => {
                &&& 0 < user.len() < authority.len()
                &&& authority[user.len() as int] == '@'
                &&& user == authority.take(user.len() as int)
                &&& forall|k: int| user.len() < k < authority.len() ==> #[trigger] authority[k] != '@'
            },
            None => forall|k: int| 0 < k < authority.len() ==> #[trigger] authority[k] != '@',
        },
{
    scan::law_last_char(authority, '@');
    if operations::user_of(authority) is None {
        assert forall|k: int| 0 < k < authority.len() implies #[trigger] authority[k] != '@' by {
            if authority[k] == '@' {
                assert(authority.contains(authority[k]));
            }
        }
    }
}

/// The address that a prompt is for: that of the first HTTPS URL in the message.
pub proof fn law_prompts_name_the_first_url(stderr: Seq<char>, i: int)
    requires
        text::occurs_at(stderr, "https://"@, i),
        forall|j: int| 0 <= j < i ==> !text::occurs_at(stderr, "https://"@, j),
    ensures
        ({
            let url = operations::url_prefix(stderr.skip(i + 8));
            match operations::auth_url_of(stderr) {
                Some((host, user)) => operations::host_of(url) == Some(host) && user == operations::user_of(
                    scan::before_first(url, '/'),
                ),
                None => operations::host_of(url) is None,
            }
        }),
{
    reveal_strlit("https://");
    text::laws::law_find(stderr, "https://"@);
    assert(text::has(stderr, "https://"@));
    let k = scan::find(stderr, "https://"@)->0;
    assert(k == i) by {
        if i < k {
            assert(!text::occurs_at(stderr, "https://"@, i));
        } else if k < i {
            assert(text::occurs_at(stderr, "https://"@, k));
        }
    }
}

/// The end of a message is cut off: line feeds, full stops and quotes, and
/// nothing else.
pub proof fn law_ends_of_messages(s: Seq<char>)
    ensures
        ({
            let name = operations::without_tail(s);
            &&& name.len() <= s.len()
            &&& name == s.take(name.len() as int)
            &&& name.len() > 0 ==> name.last() != '\n' && name.last() != '.' && name.last() != '\''
            &&& forall|k: int|
                name.len() <= k < s.len() ==> #[trigger] s[k] == '\n' || s[k] == '.' || s[k] == '\''
        }),
    decreases s.len(),
{
    if s.len() > 0 && (s.last() == '\n' || s.last() == '.' || s.last() == '\'') {
        let rest = s.drop_last();
        law_ends_of_messages(rest);
        let name = operations::without_tail(s);
        assert(s.take(name.len() as int) =~= rest.take(name.len() as int));
        assert forall|k: int| name.len() <= k < s.len() implies #[trigger] s[k] == '\n' || s[k] == '.' || s[k]
            == '\'' by {
            if k < rest.len() {
                assert(rest[k] == s[k]);
            }
        }
    } else {
        assert(s.take(s.len() as int) =~= s);
    }
}

/// The ref that a remote lacks is the first word behind the words that say so, up
/// to where they are said again, without what ends a message.
pub proof fn law_refs_that_are_missing(stderr: Seq<char>, i: int)
    requires
        text::occurs_at(stderr, "couldn't find remote ref "@, i),
        forall|j: int| 0 <= j < i ==> !text::occurs_at(stderr, "couldn't find remote ref "@, j),
    ensures
        ({
            let said = "couldn't find remote ref "@;
            let rest = stderr.skip(i + said.len());
            let part = match scan::find(rest, said) {
                Some(k) => rest.take(k),
                None => rest,
            };
            let name = operations::without_tail(scan::first_word(part));
            match operations::missing_ref(stderr) {
                Some(found) => found == name && name.len() > 0,
                None => name.len() == 0,
            }
        }),
{
    let said = "couldn't find remote ref "@;
    text::laws::law_find(stderr, said);
    assert(text::has(stderr, said));
    let k = scan::find(stderr, said)->0;
    assert(k == i) by {
        if i < k {
            assert(!text::occurs_at(stderr, said, i));
        } else if k < i {
            assert(text::occurs_at(stderr, said, k));
        }
    }
}

/// A message that names no missing ref names none.
pub proof fn law_refs_that_are_not_missing(stderr: Seq<char>)
    requires
        !text::has(stderr, "couldn't find remote ref "@),
    ensures
        operations::missing_ref(stderr) is None,
{
    text::laws::law_find(stderr, "couldn't find remote ref "@);
    if let Some(i) = scan::find(stderr, "couldn't find remote ref "@) {
        assert(text::occurs_at(stderr, "couldn't find remote ref "@, i));
    }
}

} // verus!
