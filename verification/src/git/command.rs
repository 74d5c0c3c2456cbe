//! Invocations of `git` and what they leave.
use vstd::prelude::*;
use vstd::string::*;

use crate::git::askpass::AskPass;
use crate::text;

verus! {

/// An environment variable for a child process.
#[derive(Debug)]
pub struct EnvVar {
    pub name: String,
    pub value: String,
}

impl View for EnvVar {
    type V = (Seq<char>, Seq<char>);

    open spec fn view(&self) -> (Seq<char>, Seq<char>) {
        (self.name@, self.value@)
    }
}

/// The variables of an environment.
pub open spec fn vars(env: Seq<EnvVar>) -> Seq<(Seq<char>, Seq<char>)> {
    env.map_values(|v: EnvVar| v@)
}

/// One invocation of `git` in the repository. Without `stdin` the child reads
/// from nowhere.
#[derive(Debug)]
pub struct GitCommand {
    pub args: Vec<String>,
    pub env: Vec<EnvVar>,
    pub stdin: Option<String>,
}

/// An invocation as a mathematical value.
#[verifier::ext_equal]
pub struct CommandView {
    pub args: Seq<Seq<char>>,
    pub env: Seq<(Seq<char>, Seq<char>)>,
    pub stdin: Option<Seq<char>>,
}

impl View for GitCommand {
    type V = CommandView;

    open spec fn view(&self) -> CommandView {
        CommandView { args: text::texts(self.args@), env: vars(self.env@), stdin: text::opt_text(self.stdin) }
    }
}

/// The variables for a retry with credentials, or none.
pub open spec fn auth_vars(auth: Option<&AskPass>) -> Seq<(Seq<char>, Seq<char>)> {
    match auth {
        Some(a) => a.vars(),
        None => Seq::empty(),
    }
}

/// An ordinary invocation: a missing credential is an error at once, never a
/// prompt on the terminal.
pub open spec fn git(args: Seq<Seq<char>>, auth: Option<&AskPass>) -> CommandView {
    CommandView { args, env: seq![("GIT_TERMINAL_PROMPT"@, "0"@)] + auth_vars(auth), stdin: None }
}

/// An invocation that may stop on conflicts: neither an editor nor a prompt
/// may block it.
pub open spec fn git_no_editor(args: Seq<Seq<char>>, auth: Option<&AskPass>) -> CommandView {
    CommandView {
        args,
        env: seq![("GIT_EDITOR"@, "true"@), ("GIT_SEQUENCE_EDITOR"@, "true"@), ("GIT_TERMINAL_PROMPT"@, "0"@)]
            + auth_vars(auth),
        stdin: None,
    }
}

/// An invocation that reads a patch.
pub open spec fn git_with_stdin(args: Seq<Seq<char>>, patch: Seq<char>) -> CommandView {
    CommandView { args, env: Seq::empty(), stdin: Some(patch) }
}

fn push_var(env: &mut Vec<EnvVar>, name: &str, value: &str)
    ensures
        vars(final(env)@) == vars(old(env)@).push((name@, value@)),
{
    env.push(EnvVar { name: name.to_owned(), value: value.to_owned() });
    assert(vars(env@) =~= vars(old(env)@).push((name@, value@)));
}

fn push_auth(env: &mut Vec<EnvVar>, auth: Option<&AskPass>)
    ensures
        vars(final(env)@) == vars(old(env)@) + auth_vars(auth),
{
    if let Some(a) = auth {
        let mut more = a.env();
        let ghost added = more@;
        env.append(&mut more);
        assert(vars(env@) =~= vars(old(env)@) + vars(added));
    }
    assert(vars(env@) =~= vars(old(env)@) + auth_vars(auth));
}

impl GitCommand {
    /// An ordinary invocation with no arguments yet.
    pub fn new(auth: Option<&AskPass>) -> (c: GitCommand)
        ensures
            c@ == git(Seq::empty(), auth),
    {
        let mut env: Vec<EnvVar> = Vec::new();
        assert(vars(env@) =~= Seq::empty());
        push_var(&mut env, "GIT_TERMINAL_PROMPT", "0");
        push_auth(&mut env, auth);
        let c = GitCommand { args: Vec::new(), env, stdin: None };
        assert(c@ =~= git(Seq::empty(), auth));
        c
    }

    /// An invocation that may stop on conflicts, with no arguments yet.
    pub fn no_editor(auth: Option<&AskPass>) -> (c: GitCommand)
        ensures
            c@ == git_no_editor(Seq::empty(), auth),
    {
        let mut env: Vec<EnvVar> = Vec::new();
        assert(vars(env@) =~= Seq::empty());
        push_var(&mut env, "GIT_EDITOR", "true");
        push_var(&mut env, "GIT_SEQUENCE_EDITOR", "true");
        push_var(&mut env, "GIT_TERMINAL_PROMPT", "0");
        push_auth(&mut env, auth);
        let c = GitCommand { args: Vec::new(), env, stdin: None };
        assert(c@ =~= git_no_editor(Seq::empty(), auth));
        c
    }

    /// An invocation that reads a patch, with no arguments yet.
    pub fn with_stdin(patch: &str) -> (c: GitCommand)
        ensures
            c@ == git_with_stdin(Seq::empty(), patch@),
    {
        let c = GitCommand { args: Vec::new(), env: Vec::new(), stdin: Some(patch.to_owned()) };
        assert(c@ =~= git_with_stdin(Seq::empty(), patch@));
        c
    }

    /// Add an argument.
    pub fn arg(&mut self, word: &str)
        ensures
            final(self)@ == (CommandView {
                args: old(self)@.args.push(word@),
                env: old(self)@.env,
                stdin: old(self)@.stdin,
            }),
    {
        self.args.push(word.to_owned());
        assert(text::texts(self.args@) =~= text::texts(old(self).args@).push(word@));
    }

    /// The subcommand, empty where there is none.
    pub open spec fn subcommand(self) -> Seq<char> {
        if self.args@.len() > 0 {
            self.args@[0]@
        } else {
            Seq::empty()
        }
    }

    fn name(&self) -> (s: String)
        ensures
            s@ == self.subcommand(),
    {
        if self.args.len() > 0 {
            self.args[0].clone()
        } else {
            String::new()
        }
    }
}

/// How running an invocation ended.
#[derive(Debug)]
pub enum CommandRun {
    /// The child could not be started.
    NotStarted,
    /// The child was started without an input to write to.
    NoStdin,
    /// Writing the input failed.
    StdinFailed,
    /// Waiting for the child failed.
    NotAwaited,
    /// The child ended.
    Exited { success: bool, stdout: String, stderr: String },
}

impl CommandRun {
    /// The child ended well.
    pub open spec fn succeeded(self) -> bool {
        self matches CommandRun::Exited { success, stdout, stderr } && success
    }
}

/// A failed invocation's message.
pub open spec fn failure(subcommand: Seq<char>, stderr: Seq<char>) -> Seq<char> {
    "git "@ + subcommand + " failed: "@ + text::trim(stderr)
}

/// The output of a run, or the message of its failure.
pub open spec fn output(subcommand: Seq<char>, run: CommandRun) -> Result<Seq<char>, Seq<char>> {
    match run {
        CommandRun::NotStarted => Err("Failed to execute git "@ + subcommand),
        CommandRun::NoStdin => Err("Failed to open git stdin"@),
        CommandRun::StdinFailed => Err("Failed to write patch to git stdin"@),
        CommandRun::NotAwaited => Err("Failed to run git "@ + subcommand),
        CommandRun::Exited { success, stdout, stderr } => if success {
            Ok(stdout@)
        } else {
            Err(failure(subcommand, stderr@))
        },
    }
}

/// A result with texts as characters.
pub open spec fn text_result(r: Result<String, String>) -> Result<Seq<char>, Seq<char>> {
    match r {
        Ok(s) => Ok(s@),
        Err(e) => Err(e@),
    }
}

/// How an operation that integrates history ended. A conflict is an outcome,
/// not an error: the repository is left in the middle of the operation.
#[derive(Debug, Clone, Copy, PartialEq, Eq, Structural)]
pub enum OpOutcome {
    /// The operation finished.
    Completed,
    /// The operation stopped on conflicts.
    Conflicts { count: usize },
}

/// The outcome of a run that may stop on conflicts, given how many paths are
/// conflicted after it.
pub open spec fn integration(subcommand: Seq<char>, run: CommandRun, conflicts: usize) -> Result<OpOutcome, Seq<char>> {
    match run {
        CommandRun::Exited { success, stdout, stderr } => if success {
            Ok(OpOutcome::Completed)
        } else if conflicts > 0 {
            Ok(OpOutcome::Conflicts { count: conflicts })
        } else {
            Err(failure(subcommand, stderr@))
        },
        _ => match output(subcommand, run) {
            Ok(_) => Ok(OpOutcome::Completed),
            Err(e) => Err(e),
        },
    }
}

/// A result with its message as characters.
pub open spec fn outcome<T>(r: Result<T, String>) -> Result<T, Seq<char>> {
    match r {
        Ok(v) => Ok(v),
        Err(e) => Err(e@),
    }
}

impl GitCommand {
    /// What running this invocation gave: its output, or a message naming the
    /// subcommand and what it printed.
    pub fn finish(&self, run: &CommandRun) -> (r: Result<String, String>)
        ensures
            text_result(r) == output(self.subcommand(), *run),
    {
        let name = self.name();
        match run {
            CommandRun::NotStarted => Err(text::joined("Failed to execute git ", name.as_str())),
            CommandRun::NoStdin => Err("Failed to open git stdin".to_owned()),
            CommandRun::StdinFailed => Err("Failed to write patch to git stdin".to_owned()),
            CommandRun::NotAwaited => Err(text::joined("Failed to run git ", name.as_str())),
            CommandRun::Exited { success, stdout, stderr } => {
                if *success {
                    Ok(stdout.clone())
                } else {
                    let mut message = text::joined("git ", name.as_str());
                    message.append(" failed: ");
                    message.append(text::trim_text(stderr.as_str()).as_str());
                    Err(message)
                }
            },
        }
    }

    /// What running this invocation gave, where a failure with conflicts left
    /// behind is an outcome of its own.
    pub fn finish_allow_conflict(&self, run: &CommandRun, conflicts: usize) -> (r: Result<OpOutcome, String>)
        ensures
            outcome(r) == integration(self.subcommand(), *run, conflicts),
    {
        if let CommandRun::Exited { success, stdout, stderr } = run {
            if !*success && conflicts > 0 {
                return Ok(OpOutcome::Conflicts { count: conflicts });
            }
        }
        match self.finish(run) {
            Ok(_) => Ok(OpOutcome::Completed),
            Err(e) => Err(e),
        }
    }
}

} // verus!
