//! Changes to issues through `gh`: create, comment, edit, close and reopen.
//!
//! This module says which commands to run and what their output means. A body
//! travels in a file, so that no shell ever sees it.
use vstd::prelude::*;
use vstd::string::*;

use crate::gh;
use crate::issue::blocked;
use crate::scan;
use crate::search;
use crate::text;

verus! {

/// How long an action may take, in nanoseconds.
pub const ACTION_TIMEOUT: u64 = 30_000_000_000;

/// How long the upload of an attachment may take, in nanoseconds.
pub const ATTACHMENT_TIMEOUT: u64 = 90_000_000_000;

/// How long the look for the uploader may take, in nanoseconds.
pub const UPLOADER_CHECK_TIMEOUT: u64 = 2_000_000_000;

/// A change to an issue.
#[derive(Debug, Clone, PartialEq, Eq)]
pub enum IssueAction {
    /// Open an issue. The body may be empty.
    Create {
        title: String,
        body: String,
        /// The repository as `owner/name`; the open one where it is missing.
        repository: Option<String>,
        /// The path of an image to upload, as bytes.
        attachment: Option<Vec<u8>>,
    },
    /// Comment on an issue.
    Comment { number: u64, body: String },
    /// Replace the title and body of an issue.
    EditContent { number: u64, title: String, body: String },
    Close { number: u64 },
    Reopen { number: u64 },
    /// Add and remove labels.
    EditLabels { number: u64, add: Vec<String>, remove: Vec<String> },
    /// Add and remove assignees.
    EditAssignees { number: u64, add: Vec<String>, remove: Vec<String> },
}

/// The arguments that name the file with the body.
pub open spec fn body_args(body_file: Option<Seq<char>>) -> Seq<Seq<char>> {
    match body_file {
        Some(path) => seq!["--body-file"@, path],
        None => Seq::empty(),
    }
}

/// A flag before each of some words.
pub open spec fn flagged(flag: Seq<char>, words: Seq<Seq<char>>) -> Seq<Seq<char>>
    decreases words.len(),
{
    if words.len() == 0 {
        Seq::empty()
    } else {
        flagged(flag, words.drop_last()).push(flag).push(words.last())
    }
}

/// The arguments of an edit that adds and removes.
pub open spec fn edit(
    number: u64,
    add: Seq<Seq<char>>,
    add_flag: Seq<char>,
    remove: Seq<Seq<char>>,
    remove_flag: Seq<char>,
) -> Seq<Seq<char>> {
    seq!["issue"@, "edit"@, text::decimal(number as nat)] + flagged(add_flag, add) + flagged(remove_flag, remove)
}

impl IssueAction {
    /// The body that the action carries.
    pub open spec fn carried_body(self) -> Option<Seq<char>> {
        match self {
            IssueAction::Create { body, .. } => Some(body@),
            IssueAction::Comment { body, .. } => Some(body@),
            IssueAction::EditContent { body, .. } => Some(body@),
            _ => None,
        }
    }

    /// The arguments of `gh` that perform the action.
    pub open spec fn args(self, body_file: Option<Seq<char>>) -> Seq<Seq<char>> {
        match self {
            IssueAction::Create { title, repository, .. } => seq!["issue"@, "create"@, "--title"@, title@] + (
            match repository {
                Some(r) => seq!["--repo"@, r@],
                None => Seq::empty(),
            }) + body_args(body_file),
            IssueAction::Comment { number, .. } => seq!["issue"@, "comment"@, text::decimal(number as nat)]
                + body_args(body_file),
            IssueAction::EditContent { number, title, .. } => seq![
                "issue"@,
                "edit"@,
                text::decimal(number as nat),
                "--title"@,
                title@,
            ] + body_args(body_file),
            IssueAction::Close { number } => seq!["issue"@, "close"@, text::decimal(number as nat)],
            IssueAction::Reopen { number } => seq!["issue"@, "reopen"@, text::decimal(number as nat)],
            IssueAction::EditLabels { number, add, remove } => edit(
                number,
                text::texts(add@),
                "--add-label"@,
                text::texts(remove@),
                "--remove-label"@,
            ),
            IssueAction::EditAssignees { number, add, remove } => edit(
                number,
                text::texts(add@),
                "--add-assignee"@,
                text::texts(remove@),
                "--remove-assignee"@,
            ),
        }
    }

    /// What the action asks for.
    pub open spec fn phrase(self) -> Seq<char> {
        match self {
            IssueAction::Create { .. } => "Create issue"@,
            IssueAction::Comment { number, .. } => "Comment on issue #"@ + text::decimal(number as nat),
            IssueAction::EditContent { number, .. } => "Edit issue #"@ + text::decimal(number as nat),
            IssueAction::Close { number } => "Close issue #"@ + text::decimal(number as nat),
            IssueAction::Reopen { number } => "Reopen issue #"@ + text::decimal(number as nat),
            IssueAction::EditLabels { number, .. } => "Edit labels on issue #"@ + text::decimal(number as nat),
            IssueAction::EditAssignees { number, .. } => "Edit assignees on issue #"@ + text::decimal(number as nat),
        }
    }

    /// The body that the action carries.
    pub fn body(&self) -> (b: Option<&str>)
        ensures
            match b {
                Some(t) => self.carried_body() == Some(t@),
                None => self.carried_body() is None,
            },
    {
        match self {
            IssueAction::Create { body, .. } => Some(body.as_str()),
            IssueAction::Comment { body, .. } => Some(body.as_str()),
            IssueAction::EditContent { body, .. } => Some(body.as_str()),
            _ => None,
        }
    }

    /// The arguments of `gh` that perform the action. `body_file` is the path
    /// of the file with the body; an action without a body ignores it.
    pub fn build_args(&self, body_file: Option<&str>) -> (args: Vec<String>)
        ensures
            text::texts(args@) == self.args(
                match body_file {
                    Some(path) => Some(path@),
                    None => None,
                },
            ),
    {
        match self {
            IssueAction::Create { title, repository, .. } => {
                let mut args = command("create");
                text::push_text(&mut args, "--title");
                text::push_text(&mut args, title.as_str());
                if let Some(r) = repository {
                    text::push_text(&mut args, "--repo");
                    text::push_text(&mut args, r.as_str());
                }
                push_body(&mut args, body_file);
                assert(text::texts(args@) =~= self.args(
                    match body_file {
                        Some(path) => Some(path@),
                        None => None,
                    },
                ));
                args
            },
            IssueAction::Comment { number, .. } => {
                let mut args = numbered("comment", *number);
                push_body(&mut args, body_file);
                args
            },
            IssueAction::EditContent { number, title, .. } => {
                let mut args = numbered("edit", *number);
                text::push_text(&mut args, "--title");
                text::push_text(&mut args, title.as_str());
                push_body(&mut args, body_file);
                assert(text::texts(args@) =~= self.args(
                    match body_file {
                        Some(path) => Some(path@),
                        None => None,
                    },
                ));
                args
            },
            IssueAction::Close { number } => numbered("close", *number),
            IssueAction::Reopen { number } => numbered("reopen", *number),
            IssueAction::EditLabels { number, add, remove } => edit_args(
                *number,
                add.as_slice(),
                "--add-label",
                remove.as_slice(),
                "--remove-label",
            ),
            IssueAction::EditAssignees { number, add, remove } => edit_args(
                *number,
                add.as_slice(),
                "--add-assignee",
                remove.as_slice(),
                "--remove-assignee",
            ),
        }
    }

    /// What the action asks for, for a confirmation.
    pub fn describe(&self) -> (s: String)
        ensures
            s@ == self.phrase(),
    {
        match self {
            IssueAction::Create { .. } => "Create issue".to_owned(),
            IssueAction::Comment { number, .. } => with_number("Comment on issue #", *number),
            IssueAction::EditContent { number, .. } => with_number("Edit issue #", *number),
            IssueAction::Close { number } => with_number("Close issue #", *number),
            IssueAction::Reopen { number } => with_number("Reopen issue #", *number),
            IssueAction::EditLabels { number, .. } => with_number("Edit labels on issue #", *number),
            IssueAction::EditAssignees { number, .. } => with_number("Edit assignees on issue #", *number),
        }
    }
}

fn with_number(before: &str, number: u64) -> (s: String)
    ensures
        s@ == before@ + text::decimal(number as nat),
{
    let mut s = before.to_owned();
    text::push_decimal(&mut s, number);
    s
}

fn push_body(args: &mut Vec<String>, body_file: Option<&str>)
    ensures
        text::texts(final(args)@) == text::texts(old(args)@) + body_args(
            match body_file {
                Some(path) => Some(path@),
                None => None,
            },
        ),
{
    if let Some(path) = body_file {
        text::push_text(args, "--body-file");
        text::push_text(args, path);
    }
}

fn command(verb: &str) -> (args: Vec<String>)
    ensures
        text::texts(args@) == seq!["issue"@, verb@],
{
    let mut args: Vec<String> = Vec::new();
    text::push_text(&mut args, "issue");
    text::push_text(&mut args, verb);
    assert(text::texts(args@) =~= seq!["issue"@, verb@]);
    args
}

fn numbered(verb: &str, number: u64) -> (args: Vec<String>)
    ensures
        text::texts(args@) == seq!["issue"@, verb@, text::decimal(number as nat)],
{
    let mut args = command(verb);
    let digits = with_number("", number);
    proof {
        reveal_strlit("");
    }
    assert(digits@ =~= text::decimal(number as nat));
    text::push_text(&mut args, digits.as_str());
    assert(text::texts(args@) =~= seq!["issue"@, verb@, text::decimal(number as nat)]);
    args
}

fn push_flagged(args: &mut Vec<String>, flag: &str, words: &[String])
    ensures
        text::texts(final(args)@) == text::texts(old(args)@) + flagged(flag@, text::texts(words@)),
{
    let ghost start = text::texts(args@);
    let ghost all = text::texts(words@);
    let mut i: usize = 0;
    assert(all.take(0) =~= Seq::empty());
    assert(start + flagged(flag@, all.take(0)) =~= start);
    while i < words.len()
        invariant
            0 <= i <= words.len(),
            all == text::texts(words@),
            text::texts(args@) == start + flagged(flag@, all.take(i as int)),
        decreases words.len() - i,
    {
        assert(all.take(i + 1).drop_last() =~= all.take(i as int));
        assert(all.take(i + 1).last() == words@[i as int]@);
        text::push_text(args, flag);
        text::push_text(args, words[i].as_str());
        assert(text::texts(args@) =~= start + flagged(flag@, all.take(i + 1)));
        i = i + 1;
    }
    assert(all.take(i as int) =~= all);
}

/// The arguments of an edit that adds and removes, a flag before each word.
pub fn edit_args(number: u64, add: &[String], add_flag: &str, remove: &[String], remove_flag: &str) -> (args: Vec<
    String,
>)
    ensures
        text::texts(args@) == edit(number, text::texts(add@), add_flag@, text::texts(remove@), remove_flag@),
{
    let mut args = numbered("edit", number);
    push_flagged(&mut args, add_flag, add);
    push_flagged(&mut args, remove_flag, remove);
    args
}

/// The number of the issue whose address a text holds.
pub open spec fn created_number(stdout: Seq<char>) -> Option<u64> {
    match scan::find(stdout, "/issues/"@) {
        Some(i) => blocked::leading_number(stdout.skip(i + "/issues/"@.len())),
        None => None,
    }
}

/// The number of a created issue, out of the address that `gh` printed.
pub fn parse_created_issue_number(stdout: &str) -> (n: Option<u64>)
    ensures
        n == created_number(stdout@),
{
    let s = text::chars_of(stdout);
    let p = text::chars_of("/issues/");
    match scan::find_chars(s.as_slice(), p.as_slice()) {
        None => None,
        Some(i) => {
            let n: usize = s.len();
            assert(i + p@.len() <= n);
            let rest = vstd::slice::slice_subrange(s.as_slice(), i + p.len(), n);
            assert(rest@ =~= stdout@.skip(i + p@.len()));
            blocked::number_at_start(rest)
        },
    }
}

/// What to tell after an action succeeded.
pub open spec fn success(action: IssueAction, stdout: Seq<char>) -> Seq<char> {
    match action {
        IssueAction::Create { repository, .. } => {
            let target = match repository {
                Some(r) => " "@ + r@,
                None => Seq::empty(),
            };
            match created_number(stdout) {
                Some(n) => "Created"@ + target + " issue #"@ + text::decimal(n as nat),
                None => "Created"@ + target + " issue"@,
            }
        },
        IssueAction::Comment { number, .. } => "Commented on issue #"@ + text::decimal(number as nat),
        IssueAction::EditContent { number, .. } => "Updated issue #"@ + text::decimal(number as nat),
        IssueAction::Close { number } => "Closed issue #"@ + text::decimal(number as nat),
        IssueAction::Reopen { number } => "Reopened issue #"@ + text::decimal(number as nat),
        IssueAction::EditLabels { number, .. } => "Updated labels on issue #"@ + text::decimal(number as nat),
        IssueAction::EditAssignees { number, .. } => "Updated assignees on issue #"@ + text::decimal(number as nat),
    }
}

/// What to tell after an action succeeded, given what `gh` printed.
pub fn success_message(action: &IssueAction, stdout: &str) -> (s: String)
    ensures
        s@ == success(*action, stdout@),
{
    match action {
        IssueAction::Create { repository, .. } => {
            let mut s = "Created".to_owned();
            if let Some(r) = repository {
                s.append(" ");
                s.append(r.as_str());
            }
            match parse_created_issue_number(stdout) {
                Some(n) => {
                    s.append(" issue #");
                    text::push_decimal(&mut s, n);
                },
                None => {
                    s.append(" issue");
                },
            }
            assert(s@ =~= success(*action, stdout@));
            s
        },
        IssueAction::Comment { number, .. } => with_number("Commented on issue #", *number),
        IssueAction::EditContent { number, .. } => with_number("Updated issue #", *number),
        IssueAction::Close { number } => with_number("Closed issue #", *number),
        IssueAction::Reopen { number } => with_number("Reopened issue #", *number),
        IssueAction::EditLabels { number, .. } => with_number("Updated labels on issue #", *number),
        IssueAction::EditAssignees { number, .. } => with_number("Updated assignees on issue #", *number),
    }
}

/// What a look at the worker that performs an action found.
#[derive(Debug)]
pub enum ActionEvent {
    /// The worker is still running.
    Pending,
    /// The worker ended with the action and its outcome.
    Done(IssueAction, Result<String, String>),
    /// The worker ended without sending anything.
    Died,
}

/// An action and what became of it.
pub type IssueActionOutcome = (IssueAction, Result<String, String>);

/// Performs one action at a time.
#[derive(Debug, Clone, Copy, PartialEq, Eq, Structural)]
pub struct IssueActionRunner {
    in_flight: bool,
}

impl IssueActionRunner {
    /// Whether an action is being performed.
    pub closed spec fn busy(self) -> bool {
        self.in_flight
    }

    /// No action in flight.
    pub fn new() -> (r: IssueActionRunner)
        ensures
            !r.busy(),
    {
        IssueActionRunner { in_flight: false }
    }

    /// Whether an action is being performed.
    pub fn is_busy(&self) -> (b: bool)
        ensures
            b == self.busy(),
    {
        self.in_flight
    }

    /// Start an action, unless one is being performed: whether to start it.
    pub fn start(&mut self) -> (started: bool)
        ensures
            started == !old(self).busy(),
            final(self).busy(),
    {
        if self.in_flight {
            return false;
        }
        self.in_flight = true;
        true
    }

    /// What became of the action, once. A worker that ended without an answer
    /// yields an error.
    pub fn poll(&mut self, event: ActionEvent) -> (r: Option<IssueActionOutcome>)
        ensures
            !old(self).busy() || event is Pending ==> r is None && final(self).busy() == old(self).busy(),
            old(self).busy() && !(event is Pending) ==> {
                &&& !final(self).busy()
                &&& match event {
                    ActionEvent::Done(action, result) => r == Some((action, result)),
                    _ => r matches Some((action, Err(e))) && action == (IssueAction::Close { number: 0 }) && e@
                        == "issue action worker exited"@,
                }
            },
    {
        if !self.in_flight {
            return None;
        }
        match event {
            ActionEvent::Pending => None,
            ActionEvent::Done(action, result) => {
                self.in_flight = false;
                Some((action, result))
            },
            ActionEvent::Died => {
                self.in_flight = false;
                Some((IssueAction::Close { number: 0 }, Err("issue action worker exited".to_owned())))
            },
        }
    }
}

impl Default for IssueActionRunner {
    fn default() -> (r: IssueActionRunner)
        ensures
            !r.busy(),
    {
        IssueActionRunner::new()
    }
}

/// The next step of an action.
#[derive(Debug)]
pub enum ActionStep {
    /// Upload the attachment, with these arguments of `gh`.
    Upload(Vec<String>),
    /// Perform the action with this body in a file, where there is one.
    Send(Option<String>),
    /// Give up.
    Fail(String),
}

/// A step as a value.
pub enum StepView {
    Upload(Seq<Seq<char>>),
    Send(Option<Seq<char>>),
    Fail(Seq<char>),
}

impl View for ActionStep {
    type V = StepView;

    open spec fn view(&self) -> StepView {
        match self {
            ActionStep::Upload(args) => StepView::Upload(text::texts(args@)),
            ActionStep::Send(body) => StepView::Send(text::opt_text(*body)),
            ActionStep::Fail(e) => StepView::Fail(e@),
        }
    }
}

/// The arguments of `gh` that upload an attachment.
pub open spec fn upload(path: Seq<char>, repository: Option<Seq<char>>) -> Seq<Seq<char>> {
    match repository {
        Some(r) => seq!["image"@, path, "--repo"@, r],
        None => seq!["image"@, path],
    }
}

/// The arguments of `gh` that upload an attachment.
pub fn attachment_args(path: &str, repository: Option<&str>) -> (args: Vec<String>)
    ensures
        text::texts(args@) == upload(
            path@,
            match repository {
                Some(r) => Some(r@),
                None => None,
            },
        ),
{
    let mut args: Vec<String> = Vec::new();
    text::push_text(&mut args, "image");
    text::push_text(&mut args, path);
    if let Some(r) = repository {
        text::push_text(&mut args, "--repo");
        text::push_text(&mut args, r);
    }
    assert(text::texts(args@) =~= upload(
        path@,
        match repository {
            Some(r) => Some(r@),
            None => None,
        },
    ));
    args
}

/// The first step of an action. `path` is the path of its attachment as text,
/// `None` where its bytes are no text.
pub open spec fn begun(action: IssueAction, path: Option<Seq<char>>) -> StepView {
    match action {
        IssueAction::Create { repository, attachment: Some(_), .. } => match path {
            Some(p) => StepView::Upload(upload(p, text::opt_text(repository))),
            None => StepView::Fail("Clipboard image path is not valid UTF-8"@),
        },
        _ => StepView::Send(action.carried_body()),
    }
}

/// The first step of an action. `path` is the path of its attachment as text,
/// `None` where its bytes are no text.
pub fn run_action(action: &IssueAction, path: Option<&str>) -> (step: ActionStep)
    ensures
        step@ == begun(
            *action,
            match path {
                Some(p) => Some(p@),
                None => None,
            },
        ),
{
    if let IssueAction::Create { repository, attachment: Some(_), .. } = action {
        return match path {
            None => ActionStep::Fail("Clipboard image path is not valid UTF-8".to_owned()),
            Some(p) => ActionStep::Upload(
                attachment_args(
                    p,
                    match repository {
                        Some(r) => Some(r.as_str()),
                        None => None,
                    },
                ),
            ),
        };
    }
    match action.body() {
        Some(b) => ActionStep::Send(Some(b.to_owned())),
        None => ActionStep::Send(None),
    }
}

/// The first line of a text, or another text where it has none.
pub open spec fn first_line_or(s: Seq<char>, other: Seq<char>) -> Seq<char> {
    if text::lines(s).len() > 0 {
        text::lines(s)[0]
    } else {
        other
    }
}

/// Whether a line holds the address of an uploaded file.
pub open spec fn holds_address(lines: Seq<Seq<char>>) -> spec_fn(int) -> bool {
    |i: int| text::has(text::trim(lines[i]), "github.com/user-attachments/"@)
}

/// The markup for an upload, given what `gh` printed: the first line that
/// holds the address of an uploaded file.
pub open spec fn uploaded(stdout: Seq<char>) -> Option<Seq<char>> {
    let lines = text::lines(stdout);
    match search::first_such(lines.len() as int, holds_address(lines)) {
        Some(i) => Some(text::trim(lines[i])),
        None => None,
    }
}

/// The markup for an upload, or why it failed.
pub open spec fn upload_result(out: Result<gh::Output, String>) -> Result<Seq<char>, Seq<char>> {
    match out {
        Err(e) => Err(e@),
        Ok(o) => if o.success {
            match uploaded(o.stdout@) {
                Some(line) => Ok(line),
                None => Err("gh image returned no GitHub attachment URL"@),
            }
        } else {
            Err(
                "Clipboard upload failed; install/configure gh-image (`gh extension install drogers0/gh-image`): "@
                    + first_line_or(gh::failure(o.stderr@, "gh image failed"@), "gh image failed"@),
            )
        },
    }
}

/// The markup for an upload, given the run that uploaded, or why it failed.
pub fn upload_attachment(out: Result<gh::Output, String>) -> (r: Result<String, String>)
    ensures
        match upload_result(out) {
            Ok(line) => r is Ok && (r->Ok_0)@ == line,
            Err(e) => r is Err && (r->Err_0)@ == e,
        },
{
    let run = match out {
        Err(e) => {
            return Err(e);
        },
        Ok(o) => o,
    };
    if !run.success {
        let detail = gh::failure_text(&run.stderr, "gh image failed");
        let lines = text::lines_of(detail.as_str());
        let mut message = "Clipboard upload failed; install/configure gh-image (`gh extension install drogers0/gh-image`): ".to_owned();
        if lines.len() > 0 {
            let first = text::text_of(lines[0].as_slice());
            assert(text::char_lists(lines@)[0] == lines@[0]@);
            message.append(first.as_str());
        } else {
            message.append("gh image failed");
        }
        return Err(message);
    }
    let lines = text::lines_of(run.stdout.as_str());
    let wanted = text::chars_of("github.com/user-attachments/");
    let ghost all = text::lines(run.stdout@);
    let ghost p = holds_address(all);
    let mut i: usize = 0;
    while i < lines.len()
        invariant
            0 <= i <= lines.len(),
            all == text::char_lists(lines@),
            p == holds_address(all),
            wanted@ == "github.com/user-attachments/"@,
            all == text::lines(run.stdout@),
            run.success,
            out == Ok::<gh::Output, String>(run),
            forall|k: int| 0 <= k < i ==> !#[trigger] p(k),
        decreases lines.len() - i,
    {
        let line = text::trimmed(lines[i].as_slice());
        assert(line@ == text::trim(all[i as int]));
        if text::contains_chars(line.as_slice(), wanted.as_slice()) {
            assert(p(i as int));
            proof {
                search::lemma_first_such(all.len() as int, p, i as int);
            }
            return Ok(text::text_of(line.as_slice()));
        }
        i = i + 1;
    }
    proof {
        search::lemma_no_such(all.len() as int, p);
    }
    Err("gh image returned no GitHub attachment URL".to_owned())
}

/// A body with markup below it; the markup alone where the body is blank.
pub open spec fn with_attachment(body: Seq<char>, markdown: Seq<char>) -> Seq<char> {
    if text::blank(body) {
        markdown
    } else {
        text::trim_end(body) + "\n\n"@ + markdown
    }
}

/// A body with the markup of an attachment below it; the markup alone where
/// the body is blank.
pub fn body_with_attachment(body: &str, markdown: &str) -> (s: String)
    ensures
        s@ == with_attachment(body@, markdown@),
{
    if text::is_blank(body) {
        return markdown.to_owned();
    }
    let mut s = text::trim_end_text(body);
    s.append("\n\n");
    s.append(markdown);
    s
}

/// The step after an upload.
pub open spec fn continued(action: IssueAction, out: Result<gh::Output, String>) -> StepView {
    match upload_result(out) {
        Err(e) => StepView::Fail(e),
        Ok(line) => StepView::Send(
            match action.carried_body() {
                Some(body) => Some(with_attachment(body, line)),
                None => None,
            },
        ),
    }
}

/// The step after an upload: perform the action with the markup below its
/// body, or give up.
pub fn after_upload(action: &IssueAction, out: Result<gh::Output, String>) -> (step: ActionStep)
    ensures
        step@ == continued(*action, out),
{
    match upload_attachment(out) {
        Err(e) => ActionStep::Fail(e),
        Ok(line) => match action.body() {
            Some(body) => ActionStep::Send(Some(body_with_attachment(body, line.as_str()))),
            None => ActionStep::Send(None),
        },
    }
}

/// What became of an action, given the run that performed it: what it printed,
/// or why it failed.
pub fn action_result(out: Result<gh::Output, String>) -> (r: Result<String, String>)
    ensures
        match out {
            Err(e) => r is Err && (r->Err_0)@ == e@,
            Ok(o) => if o.success {
                r is Ok && (r->Ok_0)@ == o.stdout@
            } else {
                r is Err && (r->Err_0)@ == gh::failure(o.stderr@, "gh action failed"@)
            },
        },
{
    match out {
        Err(e) => Err(e),
        Ok(o) => if o.success {
            Ok(o.stdout)
        } else {
            Err(gh::failure_text(&o.stderr, "gh action failed"))
        },
    }
}

/// The arguments of `gh` that show whether the uploader is there.
pub fn uploader_args() -> (args: Vec<&'static str>)
    ensures
        args@ == seq!["image", "--help"],
{
    let mut args: Vec<&'static str> = Vec::new();
    args.push("image");
    args.push("--help");
    args
}

/// Whether the uploader is there, given the run that showed it.
pub fn attachment_uploader_available(out: &Result<gh::Output, String>) -> (yes: bool)
    ensures
        yes == (out matches Ok(o) && o.success),
{
    match out {
        Ok(o) => o.success,
        Err(_) => false,
    }
}

/// The words of an action pass to `gh` unchanged, each as one argument: a title
/// is never split or quoted.
pub proof fn law_titles_pass_unchanged(action: IssueAction, body_file: Option<Seq<char>>)
    ensures
        action matches IssueAction::Create { title, .. } ==> action.args(body_file)[3] == title@,
        action matches IssueAction::EditContent { title, .. } ==> action.args(body_file)[4] == title@,
{
}

/// The body itself is no argument of `gh`: the arguments depend on the file
/// alone.
pub proof fn law_bodies_travel_in_files(number: u64, a: String, b: String, body_file: Option<Seq<char>>)
    ensures
        (IssueAction::Comment { number, body: a }).args(body_file) == (IssueAction::Comment { number, body: b }).args(
            body_file,
        ),
{
}

/// How long things may take.
pub proof fn law_action_timeouts()
    ensures
        ACTION_TIMEOUT == 30_000_000_000,
        ATTACHMENT_TIMEOUT == 90_000_000_000,
        UPLOADER_CHECK_TIMEOUT == 2_000_000_000,
{
}

/// The invocation of `gh` for every action on an issue.
pub proof fn law_arguments_of_actions(
    number: u64,
    title: String,
    body: String,
    repository: String,
    attachment: Option<Vec<u8>>,
    add: Vec<String>,
    remove: Vec<String>,
    path: Seq<char>,
)
    ensures
        ({
            let n = text::decimal(number as nat);
            let file = seq!["--body-file"@, path];
            &&& (IssueAction::Create { title, body, repository: None, attachment }).args(Some(path)) == seq![
                "issue"@,
                "create"@,
                "--title"@,
                title@,
            ] + file
            &&& (IssueAction::Create { title, body, repository: Some(repository), attachment }).args(Some(path))
                == seq!["issue"@, "create"@, "--title"@, title@, "--repo"@, repository@] + file
            &&& (IssueAction::Comment { number, body }).args(Some(path)) == seq!["issue"@, "comment"@, n] + file
            &&& (IssueAction::EditContent { number, title, body }).args(Some(path)) == seq![
                "issue"@,
                "edit"@,
                n,
                "--title"@,
                title@,
            ] + file
            &&& (IssueAction::Close { number }).args(Some(path)) == seq!["issue"@, "close"@, n]
            &&& (IssueAction::Reopen { number }).args(Some(path)) == seq!["issue"@, "reopen"@, n]
            &&& (IssueAction::EditLabels { number, add, remove }).args(Some(path)) == seq!["issue"@, "edit"@, n]
                + flagged("--add-label"@, text::texts(add@)) + flagged("--remove-label"@, text::texts(remove@))
            &&& (IssueAction::EditAssignees { number, add, remove }).args(Some(path)) == seq!["issue"@, "edit"@, n]
                + flagged("--add-assignee"@, text::texts(add@)) + flagged("--remove-assignee"@, text::texts(remove@))
        }),
{
    let file = seq!["--body-file"@, path];
    assert((IssueAction::Create { title, body, repository: None, attachment }).args(Some(path)) =~= seq![
        "issue"@,
        "create"@,
        "--title"@,
        title@,
    ] + file);
    assert((IssueAction::Create { title, body, repository: Some(repository), attachment }).args(Some(path)) =~= seq![
        "issue"@,
        "create"@,
        "--title"@,
        title@,
        "--repo"@,
        repository@,
    ] + file);
}

/// Without a file no body is named.
pub proof fn law_no_file_no_body(action: IssueAction, path: Seq<char>)
    ensures
        body_args(None).len() == 0,
        action.carried_body() is Some ==> action.args(Some(path)) == action.args(None) + seq!["--body-file"@, path],
        action.carried_body() is None ==> action.args(Some(path)) == action.args(None),
{
    if action.carried_body() is Some {
        assert(action.args(Some(path)) =~= action.args(None) + seq!["--body-file"@, path]);
    }
}

/// Each word gets its own flag, in order.
pub proof fn law_every_word_has_its_flag(flag: Seq<char>, words: Seq<Seq<char>>, word: Seq<char>)
    ensures
        flagged(flag, Seq::<Seq<char>>::empty()).len() == 0,
        flagged(flag, words.push(word)) == flagged(flag, words) + seq![flag, word],
{
    assert(words.push(word).drop_last() =~= words);
    assert(flagged(flag, words.push(word)) =~= flagged(flag, words) + seq![flag, word]);
}

/// Creating, commenting and editing carry their body; nothing else has one.
pub proof fn law_bodies_that_are_carried(action: IssueAction)
    ensures
        match action {
            IssueAction::Create { body, .. } => action.carried_body() == Some(body@),
            IssueAction::Comment { body, .. } => action.carried_body() == Some(body@),
            IssueAction::EditContent { body, .. } => action.carried_body() == Some(body@),
            _ => action.carried_body() is None,
        },
{
}

/// What an action is called before it is performed.
pub proof fn law_actions_are_named(action: IssueAction)
    ensures
        match action {
            IssueAction::Create { .. } => action.phrase() == "Create issue"@,
            IssueAction::Comment { number, .. } => action.phrase() == "Comment on issue #"@ + text::decimal(
                number as nat,
            ),
            IssueAction::EditContent { number, .. } => action.phrase() == "Edit issue #"@ + text::decimal(
                number as nat,
            ),
            IssueAction::Close { number } => action.phrase() == "Close issue #"@ + text::decimal(number as nat),
            IssueAction::Reopen { number } => action.phrase() == "Reopen issue #"@ + text::decimal(number as nat),
            IssueAction::EditLabels { number, .. } => action.phrase() == "Edit labels on issue #"@ + text::decimal(
                number as nat,
            ),
            IssueAction::EditAssignees { number, .. } => action.phrase() == "Edit assignees on issue #"@
                + text::decimal(number as nat),
        },
{
}

/// What is told once it was performed.
pub proof fn law_success_is_told(action: IssueAction, stdout: Seq<char>)
    ensures
        match action {
            IssueAction::Create { repository: None, .. } => match created_number(stdout) {
                Some(n) => success(action, stdout) == "Created"@ + " issue #"@ + text::decimal(n as nat),
                None => success(action, stdout) == "Created"@ + " issue"@,
            },
            IssueAction::Create { repository: Some(r), .. } => match created_number(stdout) {
                Some(n) => success(action, stdout) == "Created"@ + (" "@ + r@) + " issue #"@ + text::decimal(n as nat),
                None => success(action, stdout) == "Created"@ + (" "@ + r@) + " issue"@,
            },
            IssueAction::Comment { number, .. } => success(action, stdout) == "Commented on issue #"@ + text::decimal(
                number as nat,
            ),
            IssueAction::EditContent { number, .. } => success(action, stdout) == "Updated issue #"@ + text::decimal(
                number as nat,
            ),
            IssueAction::Close { number } => success(action, stdout) == "Closed issue #"@ + text::decimal(
                number as nat,
            ),
            IssueAction::Reopen { number } => success(action, stdout) == "Reopened issue #"@ + text::decimal(
                number as nat,
            ),
            IssueAction::EditLabels { number, .. } => success(action, stdout) == "Updated labels on issue #"@
                + text::decimal(number as nat),
            IssueAction::EditAssignees { number, .. } => success(action, stdout) == "Updated assignees on issue #"@
                + text::decimal(number as nat),
        },
{
    assert("Created"@ + Seq::<char>::empty() =~= "Created"@);
}

/// The number of a created issue is the one behind the first `/issues/` printed.
pub proof fn law_number_of_a_created_issue(before: Seq<char>, n: u64, rest: Seq<char>)
    requires
        rest.len() == 0 || !('0' <= rest[0] <= '9'),
        forall|j: int|
            0 <= j < before.len() ==> !text::occurs_at(
                before + "/issues/"@ + (text::decimal(n as nat) + rest),
                "/issues/"@,
                j,
            ),
    ensures
        created_number(before + "/issues/"@ + (text::decimal(n as nat) + rest)) == Some(n),
{
    let p = "/issues/"@;
    let tail = text::decimal(n as nat) + rest;
    let s = before + p + tail;
    text::laws::law_find(s, p);
    assert(s.subrange(before.len() as int, before.len() as int + p.len()) =~= p);
    assert(text::occurs_at(s, p, before.len() as int));
    let i = scan::find(s, p)->0;
    assert(text::occurs_at(s, p, i));
    assert(i == before.len());
    assert(s.skip(i + p.len()) =~= tail);
    blocked::law_numbers_are_read_whole(n, rest);
}

/// An attachment is uploaded first, to the repository of the issue; anything else
/// is sent at once with its body.
pub proof fn law_attachments_are_uploaded_first(action: IssueAction, path: Seq<char>)
    ensures
        match action {
            IssueAction::Create { attachment: Some(_), repository: Some(r), .. } => {
                &&& begun(action, Some(path)) == StepView::Upload(seq!["image"@, path, "--repo"@, r@])
                &&& begun(action, None) == StepView::Fail("Clipboard image path is not valid UTF-8"@)
            },
            IssueAction::Create { attachment: Some(_), repository: None, .. } => {
                &&& begun(action, Some(path)) == StepView::Upload(seq!["image"@, path])
                &&& begun(action, None) == StepView::Fail("Clipboard image path is not valid UTF-8"@)
            },
            _ => begun(action, Some(path)) == StepView::Send(action.carried_body()) && begun(action, None)
                == StepView::Send(action.carried_body()),
        },
{
}

/// The markup of an upload is the first line printed that holds the address of an
/// uploaded file, without white space around it.
pub proof fn law_markup_of_an_upload(stdout: Seq<char>)
    ensures
        match uploaded(stdout) {
            Some(line) => exists|i: int|
                0 <= i < text::lines(stdout).len() && line == text::trim(#[trigger] text::lines(stdout)[i])
                    && text::has(line, "github.com/user-attachments/"@) && forall|j: int|
                    0 <= j < i ==> !text::has(
                        text::trim(#[trigger] text::lines(stdout)[j]),
                        "github.com/user-attachments/"@,
                    ),
            None => forall|j: int|
                0 <= j < text::lines(stdout).len() ==> !text::has(
                    text::trim(#[trigger] text::lines(stdout)[j]),
                    "github.com/user-attachments/"@,
                ),
        },
{
    let lines = text::lines(stdout);
    let p = holds_address(lines);
    search::lemma_first_such_holds(lines.len() as int, p);
    let n = match search::first_such(lines.len() as int, p) {
        Some(i) => i,
        None => lines.len() as int,
    };
    assert forall|j: int| 0 <= j < n implies !text::has(
        text::trim(#[trigger] lines[j]),
        "github.com/user-attachments/"@,
    ) by {
        assert(!p(j));
    }
    if n < lines.len() {
        assert(p(n));
        assert(text::trim(lines[n]) == uploaded(stdout)->0);
    }
}

/// After the upload the markup stands below the body, alone if the body is blank;
/// a failed upload ends the action.
pub proof fn law_markup_stands_below_the_body(body: Seq<char>, markup: Seq<char>)
    ensures
        text::blank(body) ==> with_attachment(body, markup) == markup,
        !text::blank(body) ==> with_attachment(body, markup) == text::trim_end(body) + "\n\n"@ + markup,
{
}

/// How an upload ends, and what follows it.
pub proof fn law_after_an_upload(action: IssueAction, o: gh::Output, e: String)
    ensures
        upload_result(Err(e)) == Err::<Seq<char>, Seq<char>>(e@),
        continued(action, Err(e)) == StepView::Fail(e@),
        o.success && uploaded(o.stdout@) is Some ==> upload_result(Ok(o)) == Ok::<Seq<char>, Seq<char>>(
            uploaded(o.stdout@)->0,
        ),
        o.success && uploaded(o.stdout@) is None ==> continued(action, Ok(o)) == StepView::Fail(
            "gh image returned no GitHub attachment URL"@,
        ),
        !o.success ==> continued(action, Ok(o)) is Fail,
        o.success && uploaded(o.stdout@) is Some && action.carried_body() is Some ==> continued(action, Ok(o))
            == StepView::Send(Some(with_attachment(action.carried_body()->0, uploaded(o.stdout@)->0))),
{
}

} // verus!
