//! The table of commands that can be bound to keys.
use vstd::prelude::*;

use crate::action::Action;
use crate::keymap::BindingDescriptor;
use crate::keymap::DescriptorView;
use crate::keymap::{
    ALL, BRANCH_FILTER, CI_CHECKS, COMPOSE, CONFIRM, DETAIL, EDITOR, FILES, FILE_DIFF, GRAPH, HELP, INPUT,
    ISSUE_DETAIL, ISSUE_LABELS, ISSUE_LIST, MENU, NORMAL, PALETTE, PR_THREAD, REBASE_PLAN, SEARCH, SETTINGS,
};

verus! {

/// One row of the table.
pub open spec fn row(id: &str, action: Action, scopes: u32, defaults: Seq<&str>) -> DescriptorView {
    DescriptorView { id: id@, action, scopes, defaults: defaults.map_values(|d: &str| d@) }
}

/// The views of some descriptors.
pub open spec fn rows(v: Seq<BindingDescriptor>) -> Seq<DescriptorView> {
    v.map_values(|d: BindingDescriptor| d@)
}

fn bind(out: &mut Vec<BindingDescriptor>, id: &'static str, action: Action, scopes: u32, defaults: Vec<&'static str>)
    ensures
        rows(final(out)@) == rows(old(out)@).push(row(id, action, scopes, defaults@)),
{
    out.push(BindingDescriptor { id, action, scopes, defaults });
    assert(rows(out@) =~= rows(old(out)@).push(row(id, action, scopes, defaults@)));
}

fn unbound() -> (v: Vec<&'static str>)
    ensures
        v@ == Seq::<&'static str>::empty(),
{
    Vec::new()
}

fn one(a: &'static str) -> (v: Vec<&'static str>)
    ensures
        v@ == seq![a],
{
    let mut v = Vec::new();
    v.push(a);
    v
}

fn two(a: &'static str, b: &'static str) -> (v: Vec<&'static str>)
    ensures
        v@ == seq![a, b],
{
    let mut v = one(a);
    v.push(b);
    v
}

fn three(a: &'static str, b: &'static str, c: &'static str) -> (v: Vec<&'static str>)
    ensures
        v@ == seq![a, b, c],
{
    let mut v = two(a, b);
    v.push(c);
    v
}

/// Available everywhere, or in every panel.
pub open spec fn program_rows() -> Seq<DescriptorView> {
    seq![
        row("force-quit", Action::ForceQuit, ALL, seq!["Ctrl+Q"]),
        row("report-keifu-issue", Action::ReportKeifuIssue, ALL, seq!["Alt+K"]),
        row("new-issue", Action::NewIssue, ALL | ISSUE_LIST, seq!["Alt+I"]),
        row("toggle-debug-keys", Action::ToggleDebugKeys, ALL, seq!["F12"]),
        row("toggle-layout", Action::ToggleLayout, ALL, seq!["Alt+/"]),
        row("full-update", Action::FullUpdate, NORMAL, seq!["F5"]),
        row("open-command-palette", Action::OpenCommandPalette, NORMAL, seq!["Ctrl+P", "Ctrl+Alt+P", ":"]),
        row("search", Action::Search, GRAPH, seq!["/"]),
        row("start-commit-filter", Action::StartCommitFilter, GRAPH, seq!["Ctrl+F"]),
        row("open-settings", Action::OpenSettings, NORMAL, seq!["Ctrl+,", ","]),
        row("open-issue-list", Action::OpenIssueList, NORMAL, seq!["Shift+I"]),
        row("toggle-files-pane", Action::ToggleFilesPane, NORMAL, seq!["Shift+F"]),
        row("toggle-commit-pane", Action::ToggleCommitPane, NORMAL, seq!["Shift+C"]),
    ]
}

fn program_descriptors() -> (v: Vec<BindingDescriptor>)
    ensures
        rows(v@) == program_rows(),
{
    let mut v: Vec<BindingDescriptor> = Vec::new();
    assert(rows(v@) =~= Seq::empty());
    bind(&mut v, "force-quit", Action::ForceQuit, ALL, one("Ctrl+Q"));
    bind(&mut v, "report-keifu-issue", Action::ReportKeifuIssue, ALL, one("Alt+K"));
    bind(&mut v, "new-issue", Action::NewIssue, ALL | ISSUE_LIST, one("Alt+I"));
    bind(&mut v, "toggle-debug-keys", Action::ToggleDebugKeys, ALL, one("F12"));
    bind(&mut v, "toggle-layout", Action::ToggleLayout, ALL, one("Alt+/"));
    bind(&mut v, "full-update", Action::FullUpdate, NORMAL, one("F5"));
    bind(&mut v, "open-command-palette", Action::OpenCommandPalette, NORMAL, three("Ctrl+P", "Ctrl+Alt+P", ":"));
    bind(&mut v, "search", Action::Search, GRAPH, one("/"));
    bind(&mut v, "start-commit-filter", Action::StartCommitFilter, GRAPH, one("Ctrl+F"));
    bind(&mut v, "open-settings", Action::OpenSettings, NORMAL, two("Ctrl+,", ","));
    bind(&mut v, "open-issue-list", Action::OpenIssueList, NORMAL, one("Shift+I"));
    bind(&mut v, "toggle-files-pane", Action::ToggleFilesPane, NORMAL, one("Shift+F"));
    bind(&mut v, "toggle-commit-pane", Action::ToggleCommitPane, NORMAL, one("Shift+C"));
    v
}

/// Moving around the panels and lists.
pub open spec fn movement_rows() -> Seq<DescriptorView> {
    seq![
        row("panel-left", Action::PanelLeft, NORMAL, seq!["Left", "Shift+BackTab"]),
        row("panel-right", Action::PanelRight, NORMAL, seq!["Right", "Tab"]),
        row("move-up", Action::MoveUp, GRAPH | FILES | DETAIL | MENU | REBASE_PLAN | SETTINGS | PR_THREAD | ISSUE_LIST | ISSUE_DETAIL | ISSUE_LABELS | CI_CHECKS | BRANCH_FILTER | PALETTE, seq!["Up", "k"]),
        row("move-down", Action::MoveDown, GRAPH | FILES | DETAIL | MENU | REBASE_PLAN | SETTINGS | PR_THREAD | ISSUE_LIST | ISSUE_DETAIL | ISSUE_LABELS | CI_CHECKS | BRANCH_FILTER | PALETTE, seq!["Down", "j"]),
        row("page-up", Action::PageUp, GRAPH | FILES | DETAIL | PR_THREAD | ISSUE_LIST | ISSUE_DETAIL | CI_CHECKS | FILE_DIFF, seq!["PageUp", "Ctrl+U"]),
        row("page-down", Action::PageDown, GRAPH | FILES | DETAIL | PR_THREAD | ISSUE_LIST | ISSUE_DETAIL | CI_CHECKS | FILE_DIFF, seq!["PageDown", "Ctrl+D"]),
        row("go-to-top", Action::GoToTop, GRAPH | FILES | DETAIL | PR_THREAD | ISSUE_LIST | ISSUE_DETAIL | CI_CHECKS, seq!["Home", "g"]),
        row("go-to-bottom", Action::GoToBottom, GRAPH | FILES | DETAIL | PR_THREAD | ISSUE_LIST | ISSUE_DETAIL | CI_CHECKS, seq!["End", "Shift+G"]),
    ]
}

fn movement_descriptors() -> (v: Vec<BindingDescriptor>)
    ensures
        rows(v@) == movement_rows(),
{
    let mut v: Vec<BindingDescriptor> = Vec::new();
    assert(rows(v@) =~= Seq::empty());
    bind(&mut v, "panel-left", Action::PanelLeft, NORMAL, two("Left", "Shift+BackTab"));
    bind(&mut v, "panel-right", Action::PanelRight, NORMAL, two("Right", "Tab"));
    bind(&mut v, "move-up", Action::MoveUp, GRAPH | FILES | DETAIL | MENU | REBASE_PLAN | SETTINGS | PR_THREAD | ISSUE_LIST | ISSUE_DETAIL | ISSUE_LABELS | CI_CHECKS | BRANCH_FILTER | PALETTE, two("Up", "k"));
    bind(&mut v, "move-down", Action::MoveDown, GRAPH | FILES | DETAIL | MENU | REBASE_PLAN | SETTINGS | PR_THREAD | ISSUE_LIST | ISSUE_DETAIL | ISSUE_LABELS | CI_CHECKS | BRANCH_FILTER | PALETTE, two("Down", "j"));
    bind(&mut v, "page-up", Action::PageUp, GRAPH | FILES | DETAIL | PR_THREAD | ISSUE_LIST | ISSUE_DETAIL | CI_CHECKS | FILE_DIFF, two("PageUp", "Ctrl+U"));
    bind(&mut v, "page-down", Action::PageDown, GRAPH | FILES | DETAIL | PR_THREAD | ISSUE_LIST | ISSUE_DETAIL | CI_CHECKS | FILE_DIFF, two("PageDown", "Ctrl+D"));
    bind(&mut v, "go-to-top", Action::GoToTop, GRAPH | FILES | DETAIL | PR_THREAD | ISSUE_LIST | ISSUE_DETAIL | CI_CHECKS, two("Home", "g"));
    bind(&mut v, "go-to-bottom", Action::GoToBottom, GRAPH | FILES | DETAIL | PR_THREAD | ISSUE_LIST | ISSUE_DETAIL | CI_CHECKS, two("End", "Shift+G"));
    v
}

/// The graph panel.
pub open spec fn graph_rows() -> Seq<DescriptorView> {
    seq![
        row("same-lane-up", Action::SameLaneUp, GRAPH, seq!["Ctrl+Up"]),
        row("same-lane-down", Action::SameLaneDown, GRAPH, seq!["Ctrl+Down"]),
        row("jump-to-head", Action::JumpToHead, GRAPH | FILES, seq!["@"]),
        row("next-branch", Action::NextBranch, GRAPH, seq!["]"]),
        row("previous-branch", Action::PrevBranch, GRAPH, seq!["["]),
        row("open-commit-menu", Action::OpenCommitMenu, GRAPH, seq!["Enter"]),
        row("mark-for-compare", Action::MarkForCompare, GRAPH, seq!["m"]),
        row("jump-to-merge-base", Action::JumpToMergeBase, GRAPH, seq!["^"]),
        row("undo-last-operation", Action::UndoLastOp, GRAPH, seq!["Ctrl+Z"]),
        row("open-pr", Action::OpenPr, GRAPH | PR_THREAD | CI_CHECKS, seq!["o"]),
        row("open-ci-checks", Action::OpenCiChecks, GRAPH, seq!["c"]),
        row("open-pr-thread", Action::OpenPrThread, GRAPH, seq!["v"]),
        row("open-review-picker", Action::OpenReviewPicker, PR_THREAD, seq!["r"]),
        row("open-metadata-menu", Action::OpenMetadataMenu, GRAPH, seq!["Shift+M"]),
        row("toggle-trace", Action::ToggleTrace, GRAPH, seq!["t"]),
        row("shrink-graph-width", Action::ShrinkGraphWidth, GRAPH, seq!["<"]),
        row("widen-graph-width", Action::WidenGraphWidth, GRAPH, seq![">"]),
        row("create-branch", Action::CreateBranch, GRAPH, seq!["b"]),
        row("delete-branch", Action::DeleteBranch, GRAPH, seq!["d"]),
        row("fetch", Action::Fetch, GRAPH, seq!["f"]),
        row("pull", Action::Pull, GRAPH, seq!["p"]),
        row("push", Action::Push, GRAPH, seq!["Shift+P"]),
        row("open-file-diff", Action::OpenFileDiff, GRAPH | FILES, seq!["Space", "Enter"]),
        row("open-branch-filter", Action::OpenBranchFilter, GRAPH, seq!["Shift+B"]),
        row("toggle-remote-branches", Action::ToggleRemoteBranches, GRAPH, seq!["Shift+O"]),
        row("toggle-merged-branches", Action::ToggleMergedBranches, GRAPH, seq!["Shift+H"]),
        row("refresh", Action::Refresh, GRAPH, seq!["Shift+R"]),
        row("toggle-help", Action::ToggleHelp, NORMAL | HELP, seq!["?"]),
        row("quit", Action::Quit, GRAPH, seq!["Esc"]),
    ]
}

fn graph_descriptors() -> (v: Vec<BindingDescriptor>)
    ensures
        rows(v@) == graph_rows(),
{
    let mut v: Vec<BindingDescriptor> = Vec::new();
    assert(rows(v@) =~= Seq::empty());
    bind(&mut v, "same-lane-up", Action::SameLaneUp, GRAPH, one("Ctrl+Up"));
    bind(&mut v, "same-lane-down", Action::SameLaneDown, GRAPH, one("Ctrl+Down"));
    bind(&mut v, "jump-to-head", Action::JumpToHead, GRAPH | FILES, one("@"));
    bind(&mut v, "next-branch", Action::NextBranch, GRAPH, one("]"));
    bind(&mut v, "previous-branch", Action::PrevBranch, GRAPH, one("["));
    bind(&mut v, "open-commit-menu", Action::OpenCommitMenu, GRAPH, one("Enter"));
    bind(&mut v, "mark-for-compare", Action::MarkForCompare, GRAPH, one("m"));
    bind(&mut v, "jump-to-merge-base", Action::JumpToMergeBase, GRAPH, one("^"));
    bind(&mut v, "undo-last-operation", Action::UndoLastOp, GRAPH, one("Ctrl+Z"));
    bind(&mut v, "open-pr", Action::OpenPr, GRAPH | PR_THREAD | CI_CHECKS, one("o"));
    bind(&mut v, "open-ci-checks", Action::OpenCiChecks, GRAPH, one("c"));
    bind(&mut v, "open-pr-thread", Action::OpenPrThread, GRAPH, one("v"));
    bind(&mut v, "open-review-picker", Action::OpenReviewPicker, PR_THREAD, one("r"));
    bind(&mut v, "open-metadata-menu", Action::OpenMetadataMenu, GRAPH, one("Shift+M"));
    bind(&mut v, "toggle-trace", Action::ToggleTrace, GRAPH, one("t"));
    bind(&mut v, "shrink-graph-width", Action::ShrinkGraphWidth, GRAPH, one("<"));
    bind(&mut v, "widen-graph-width", Action::WidenGraphWidth, GRAPH, one(">"));
    bind(&mut v, "create-branch", Action::CreateBranch, GRAPH, one("b"));
    bind(&mut v, "delete-branch", Action::DeleteBranch, GRAPH, one("d"));
    bind(&mut v, "fetch", Action::Fetch, GRAPH, one("f"));
    bind(&mut v, "pull", Action::Pull, GRAPH, one("p"));
    bind(&mut v, "push", Action::Push, GRAPH, one("Shift+P"));
    bind(&mut v, "open-file-diff", Action::OpenFileDiff, GRAPH | FILES, two("Space", "Enter"));
    bind(&mut v, "open-branch-filter", Action::OpenBranchFilter, GRAPH, one("Shift+B"));
    bind(&mut v, "toggle-remote-branches", Action::ToggleRemoteBranches, GRAPH, one("Shift+O"));
    bind(&mut v, "toggle-merged-branches", Action::ToggleMergedBranches, GRAPH, one("Shift+H"));
    bind(&mut v, "refresh", Action::Refresh, GRAPH, one("Shift+R"));
    bind(&mut v, "toggle-help", Action::ToggleHelp, NORMAL | HELP, one("?"));
    bind(&mut v, "quit", Action::Quit, GRAPH, one("Esc"));
    v
}

/// The files panel.
pub open spec fn files_rows() -> Seq<DescriptorView> {
    seq![
        row("toggle-stage", Action::ToggleStage, FILES, seq!["s"]),
        row("stage-all", Action::StageAll, FILES, seq!["Shift+S"]),
        row("unstage-all", Action::UnstageAll, FILES, seq!["Shift+U"]),
        row("add-to-gitignore", Action::AddToGitignore, FILES, seq!["i"]),
        row("archive-file", Action::ArchiveFile, FILES, seq!["v"]),
        row("trash-file", Action::TrashFile, FILES, seq!["Delete"]),
        row("undo-last-file-operation", Action::UndoLastFileOp, FILES, seq!["Ctrl+Z"]),
        row("toggle-folder-view", Action::ToggleFolderView, FILES, seq!["f"]),
        row("restore-file", Action::RestoreFile, FILES, seq!["r"]),
        row("next-conflict", Action::NextConflict, FILES, seq!["]"]),
        row("previous-conflict", Action::PrevConflict, FILES, seq!["["]),
        row("accept-ours", Action::AcceptOurs, FILES, seq!["o"]),
        row("accept-theirs", Action::AcceptTheirs, FILES, seq!["t"]),
        row("continue-operation", Action::ContinueOperation, FILES, seq!["c"]),
        row("abort-operation", Action::AbortOperation, FILES, seq!["Shift+A"]),
        row("open-with-default", Action::OpenWithDefault, FILES, seq!["Space"]),
        row("copy-path", Action::CopyPath, FILES, seq!["y"]),
        row("file-history", Action::FileHistory, FILES, seq!["h"]),
        row("start-files-filter", Action::StartFilesFilter, FILES, seq!["Ctrl+F"]),
        row("focus-graph", Action::FocusGraph, FILES | DETAIL, seq!["Esc"]),
    ]
}

fn files_descriptors() -> (v: Vec<BindingDescriptor>)
    ensures
        rows(v@) == files_rows(),
{
    let mut v: Vec<BindingDescriptor> = Vec::new();
    assert(rows(v@) =~= Seq::empty());
    bind(&mut v, "toggle-stage", Action::ToggleStage, FILES, one("s"));
    bind(&mut v, "stage-all", Action::StageAll, FILES, one("Shift+S"));
    bind(&mut v, "unstage-all", Action::UnstageAll, FILES, one("Shift+U"));
    bind(&mut v, "add-to-gitignore", Action::AddToGitignore, FILES, one("i"));
    bind(&mut v, "archive-file", Action::ArchiveFile, FILES, one("v"));
    bind(&mut v, "trash-file", Action::TrashFile, FILES, one("Delete"));
    bind(&mut v, "undo-last-file-operation", Action::UndoLastFileOp, FILES, one("Ctrl+Z"));
    bind(&mut v, "toggle-folder-view", Action::ToggleFolderView, FILES, one("f"));
    bind(&mut v, "restore-file", Action::RestoreFile, FILES, one("r"));
    bind(&mut v, "next-conflict", Action::NextConflict, FILES, one("]"));
    bind(&mut v, "previous-conflict", Action::PrevConflict, FILES, one("["));
    bind(&mut v, "accept-ours", Action::AcceptOurs, FILES, one("o"));
    bind(&mut v, "accept-theirs", Action::AcceptTheirs, FILES, one("t"));
    bind(&mut v, "continue-operation", Action::ContinueOperation, FILES, one("c"));
    bind(&mut v, "abort-operation", Action::AbortOperation, FILES, one("Shift+A"));
    bind(&mut v, "open-with-default", Action::OpenWithDefault, FILES, one("Space"));
    bind(&mut v, "copy-path", Action::CopyPath, FILES, one("y"));
    bind(&mut v, "file-history", Action::FileHistory, FILES, one("h"));
    bind(&mut v, "start-files-filter", Action::StartFilesFilter, FILES, one("Ctrl+F"));
    bind(&mut v, "focus-graph", Action::FocusGraph, FILES | DETAIL, one("Esc"));
    v
}

/// The commit panel and the message editor.
pub open spec fn editor_rows() -> Seq<DescriptorView> {
    seq![
        row("start-editing", Action::StartEditing, DETAIL, seq!["Enter"]),
        row("amend-commit", Action::AmendCommit, DETAIL | EDITOR, seq!["Ctrl+Enter"]),
        row("stash-staged", Action::StashStaged, DETAIL | EDITOR, seq!["Ctrl+S"]),
        row("toggle-commit-detail-wrap", Action::ToggleCommitDetailWrap, DETAIL, seq!["Ctrl+Alt+W"]),
        row("commit-changes", Action::CommitChanges, EDITOR, seq!["Enter"]),
        row("stop-editing", Action::StopEditing, EDITOR, seq!["Esc"]),
        row("editor-newline", Action::EditorNewline, EDITOR | COMPOSE, seq!["Shift+Enter"]),
        row("editor-backspace", Action::EditorBackspace, EDITOR | COMPOSE, seq!["Backspace"]),
        row("editor-delete", Action::EditorDelete, EDITOR | COMPOSE, seq!["Delete"]),
        row("editor-backspace-word", Action::EditorBackspaceWord, EDITOR, seq!["Ctrl+Backspace", "Alt+Backspace"]),
        row("editor-delete-word", Action::EditorDeleteWord, EDITOR, seq!["Ctrl+Delete", "Alt+D"]),
        row("editor-kill-line", Action::EditorKillLine, EDITOR, seq!["Ctrl+K"]),
    ]
}

fn editor_descriptors() -> (v: Vec<BindingDescriptor>)
    ensures
        rows(v@) == editor_rows(),
{
    let mut v: Vec<BindingDescriptor> = Vec::new();
    assert(rows(v@) =~= Seq::empty());
    bind(&mut v, "start-editing", Action::StartEditing, DETAIL, one("Enter"));
    bind(&mut v, "amend-commit", Action::AmendCommit, DETAIL | EDITOR, one("Ctrl+Enter"));
    bind(&mut v, "stash-staged", Action::StashStaged, DETAIL | EDITOR, one("Ctrl+S"));
    bind(&mut v, "toggle-commit-detail-wrap", Action::ToggleCommitDetailWrap, DETAIL, one("Ctrl+Alt+W"));
    bind(&mut v, "commit-changes", Action::CommitChanges, EDITOR, one("Enter"));
    bind(&mut v, "stop-editing", Action::StopEditing, EDITOR, one("Esc"));
    bind(&mut v, "editor-newline", Action::EditorNewline, EDITOR | COMPOSE, one("Shift+Enter"));
    bind(&mut v, "editor-backspace", Action::EditorBackspace, EDITOR | COMPOSE, one("Backspace"));
    bind(&mut v, "editor-delete", Action::EditorDelete, EDITOR | COMPOSE, one("Delete"));
    bind(&mut v, "editor-backspace-word", Action::EditorBackspaceWord, EDITOR, two("Ctrl+Backspace", "Alt+Backspace"));
    bind(&mut v, "editor-delete-word", Action::EditorDeleteWord, EDITOR, two("Ctrl+Delete", "Alt+D"));
    bind(&mut v, "editor-kill-line", Action::EditorKillLine, EDITOR, one("Ctrl+K"));
    v
}

/// Menus, prompts and text fields.
pub open spec fn menu_rows() -> Seq<DescriptorView> {
    seq![
        row("menu-select", Action::MenuSelect, MENU | SETTINGS | ISSUE_LABELS | CI_CHECKS | BRANCH_FILTER | PALETTE, seq!["Enter"]),
        row("cancel", Action::Cancel, INPUT | SEARCH | CONFIRM | MENU | SETTINGS | PR_THREAD | ISSUE_LIST | ISSUE_DETAIL | ISSUE_LABELS | COMPOSE | CI_CHECKS | BRANCH_FILTER | FILE_DIFF | PALETTE, seq!["Esc", "q"]),
        row("confirm", Action::Confirm, INPUT | SEARCH | CONFIRM | REBASE_PLAN | BRANCH_FILTER, seq!["Enter", "y"]),
        row("confirm-delete-branch-and-remote", Action::ConfirmDeleteBranchAndRemote, CONFIRM, seq!["Ctrl+Enter", "Shift+R"]),
        row("input-backspace", Action::InputBackspace, INPUT | SEARCH | MENU | SETTINGS | BRANCH_FILTER | PALETTE, seq!["Backspace"]),
        row("input-backspace-word", Action::InputBackspaceWord, INPUT | SEARCH | MENU | SETTINGS | BRANCH_FILTER | PALETTE, seq!["Ctrl+Backspace", "Alt+Backspace", "Ctrl+H"]),
        row("input-clear-line", Action::InputClearLine, INPUT | SEARCH | MENU | SETTINGS | BRANCH_FILTER | PALETTE, seq!["Ctrl+U"]),
        row("select-all", Action::SelectAll, ISSUE_LABELS | BRANCH_FILTER, seq!["Ctrl+A"]),
        row("select-none", Action::SelectNone, ISSUE_LABELS | BRANCH_FILTER, seq!["Ctrl+O"]),
    ]
}

fn menu_descriptors() -> (v: Vec<BindingDescriptor>)
    ensures
        rows(v@) == menu_rows(),
{
    let mut v: Vec<BindingDescriptor> = Vec::new();
    assert(rows(v@) =~= Seq::empty());
    bind(&mut v, "menu-select", Action::MenuSelect, MENU | SETTINGS | ISSUE_LABELS | CI_CHECKS | BRANCH_FILTER | PALETTE, one("Enter"));
    bind(&mut v, "cancel", Action::Cancel, INPUT | SEARCH | CONFIRM | MENU | SETTINGS | PR_THREAD | ISSUE_LIST | ISSUE_DETAIL | ISSUE_LABELS | COMPOSE | CI_CHECKS | BRANCH_FILTER | FILE_DIFF | PALETTE, two("Esc", "q"));
    bind(&mut v, "confirm", Action::Confirm, INPUT | SEARCH | CONFIRM | REBASE_PLAN | BRANCH_FILTER, two("Enter", "y"));
    bind(&mut v, "confirm-delete-branch-and-remote", Action::ConfirmDeleteBranchAndRemote, CONFIRM, two("Ctrl+Enter", "Shift+R"));
    bind(&mut v, "input-backspace", Action::InputBackspace, INPUT | SEARCH | MENU | SETTINGS | BRANCH_FILTER | PALETTE, one("Backspace"));
    bind(&mut v, "input-backspace-word", Action::InputBackspaceWord, INPUT | SEARCH | MENU | SETTINGS | BRANCH_FILTER | PALETTE, three("Ctrl+Backspace", "Alt+Backspace", "Ctrl+H"));
    bind(&mut v, "input-clear-line", Action::InputClearLine, INPUT | SEARCH | MENU | SETTINGS | BRANCH_FILTER | PALETTE, one("Ctrl+U"));
    bind(&mut v, "select-all", Action::SelectAll, ISSUE_LABELS | BRANCH_FILTER, one("Ctrl+A"));
    bind(&mut v, "select-none", Action::SelectNone, ISSUE_LABELS | BRANCH_FILTER, one("Ctrl+O"));
    v
}

/// The rebase plan, the help popup and the search prompt.
pub open spec fn rebase_rows() -> Seq<DescriptorView> {
    seq![
        row("rebase-move-commit-up", Action::RebaseMoveCommitUp, REBASE_PLAN, seq!["Shift+K"]),
        row("rebase-move-commit-down", Action::RebaseMoveCommitDown, REBASE_PLAN, seq!["Shift+J"]),
        row("rebase-pick", Action::RebasePick, REBASE_PLAN, seq!["P"]),
        row("rebase-squash", Action::RebaseSquash, REBASE_PLAN, seq!["s"]),
        row("rebase-fixup", Action::RebaseFixup, REBASE_PLAN, seq!["f"]),
        row("rebase-reword", Action::RebaseReword, REBASE_PLAN, seq!["r"]),
        row("rebase-drop", Action::RebaseDrop, REBASE_PLAN, seq!["d"]),
        row("help-scroll-up", Action::HelpScrollUp, HELP, seq!["Up", "k"]),
        row("help-scroll-down", Action::HelpScrollDown, HELP, seq!["Down", "j"]),
        row("help-page-up", Action::HelpPageUp, HELP, seq!["PageUp"]),
        row("help-page-down", Action::HelpPageDown, HELP, seq!["PageDown"]),
        row("help-scroll-to-top", Action::HelpScrollToTop, HELP, seq!["Home"]),
        row("help-scroll-to-bottom", Action::HelpScrollToBottom, HELP, seq!["End"]),
        row("toggle-status-bar", Action::ToggleStatusBar, HELP, seq!["s"]),
        row("search-select-up", Action::SearchSelectUp, SEARCH, seq!["Up", "Ctrl+K"]),
        row("search-select-down", Action::SearchSelectDown, SEARCH, seq!["Down", "Ctrl+J"]),
        row("search-select-up-quiet", Action::SearchSelectUpQuiet, SEARCH, seq!["Shift+BackTab"]),
        row("search-select-down-quiet", Action::SearchSelectDownQuiet, SEARCH, seq!["Tab"]),
    ]
}

fn rebase_descriptors() -> (v: Vec<BindingDescriptor>)
    ensures
        rows(v@) == rebase_rows(),
{
    let mut v: Vec<BindingDescriptor> = Vec::new();
    assert(rows(v@) =~= Seq::empty());
    bind(&mut v, "rebase-move-commit-up", Action::RebaseMoveCommitUp, REBASE_PLAN, one("Shift+K"));
    bind(&mut v, "rebase-move-commit-down", Action::RebaseMoveCommitDown, REBASE_PLAN, one("Shift+J"));
    bind(&mut v, "rebase-pick", Action::RebasePick, REBASE_PLAN, one("P"));
    bind(&mut v, "rebase-squash", Action::RebaseSquash, REBASE_PLAN, one("s"));
    bind(&mut v, "rebase-fixup", Action::RebaseFixup, REBASE_PLAN, one("f"));
    bind(&mut v, "rebase-reword", Action::RebaseReword, REBASE_PLAN, one("r"));
    bind(&mut v, "rebase-drop", Action::RebaseDrop, REBASE_PLAN, one("d"));
    bind(&mut v, "help-scroll-up", Action::HelpScrollUp, HELP, two("Up", "k"));
    bind(&mut v, "help-scroll-down", Action::HelpScrollDown, HELP, two("Down", "j"));
    bind(&mut v, "help-page-up", Action::HelpPageUp, HELP, one("PageUp"));
    bind(&mut v, "help-page-down", Action::HelpPageDown, HELP, one("PageDown"));
    bind(&mut v, "help-scroll-to-top", Action::HelpScrollToTop, HELP, one("Home"));
    bind(&mut v, "help-scroll-to-bottom", Action::HelpScrollToBottom, HELP, one("End"));
    bind(&mut v, "toggle-status-bar", Action::ToggleStatusBar, HELP, one("s"));
    bind(&mut v, "search-select-up", Action::SearchSelectUp, SEARCH, two("Up", "Ctrl+K"));
    bind(&mut v, "search-select-down", Action::SearchSelectDown, SEARCH, two("Down", "Ctrl+J"));
    bind(&mut v, "search-select-up-quiet", Action::SearchSelectUpQuiet, SEARCH, one("Shift+BackTab"));
    bind(&mut v, "search-select-down-quiet", Action::SearchSelectDownQuiet, SEARCH, one("Tab"));
    v
}

/// Composing text, and the issue views.
pub open spec fn compose_rows() -> Seq<DescriptorView> {
    seq![
        row("submit-compose", Action::SubmitCompose, COMPOSE, seq!["Ctrl+S", "Ctrl+Enter"]),
        row("external-edit", Action::ExternalEdit, COMPOSE, seq!["Ctrl+E"]),
        row("toggle-issue-clipboard-image", Action::ToggleIssueClipboardImage, COMPOSE, seq!["Tab"]),
        row("refresh-issues", Action::RefreshIssues, ISSUE_LIST | ISSUE_DETAIL, seq!["r"]),
        row("cycle-issue-filter", Action::CycleIssueFilter, ISSUE_LIST, seq!["Tab", "f"]),
        row("open-issue-label-filter", Action::OpenIssueLabelFilter, ISSUE_LIST, seq!["t"]),
        row("toggle-unblocked-only", Action::ToggleUnblockedOnly, ISSUE_LIST, seq!["u"]),
        row("open-issue-detail", Action::OpenIssueDetail, ISSUE_LIST, seq!["Enter"]),
        row("edit-issue", Action::EditIssue, ISSUE_DETAIL, seq!["e"]),
        row("comment-on-issue", Action::CommentOnIssue, ISSUE_DETAIL, seq!["c"]),
        row("toggle-issue-state", Action::ToggleIssueState, ISSUE_DETAIL, seq!["x"]),
        row("edit-issue-labels", Action::EditIssueLabels, ISSUE_LIST | ISSUE_DETAIL, seq!["l"]),
        row("edit-issue-assignees", Action::EditIssueAssignees, ISSUE_DETAIL, seq!["a"]),
        row("toggle-issue-label", Action::ToggleIssueLabel, ISSUE_LABELS, seq!["Space"]),
        row("open-issue-in-browser", Action::OpenIssueInBrowser, ISSUE_LIST | ISSUE_DETAIL, seq!["o"]),
    ]
}

fn compose_descriptors() -> (v: Vec<BindingDescriptor>)
    ensures
        rows(v@) == compose_rows(),
{
    let mut v: Vec<BindingDescriptor> = Vec::new();
    assert(rows(v@) =~= Seq::empty());
    bind(&mut v, "submit-compose", Action::SubmitCompose, COMPOSE, two("Ctrl+S", "Ctrl+Enter"));
    bind(&mut v, "external-edit", Action::ExternalEdit, COMPOSE, one("Ctrl+E"));
    bind(&mut v, "toggle-issue-clipboard-image", Action::ToggleIssueClipboardImage, COMPOSE, one("Tab"));
    bind(&mut v, "refresh-issues", Action::RefreshIssues, ISSUE_LIST | ISSUE_DETAIL, one("r"));
    bind(&mut v, "cycle-issue-filter", Action::CycleIssueFilter, ISSUE_LIST, two("Tab", "f"));
    bind(&mut v, "open-issue-label-filter", Action::OpenIssueLabelFilter, ISSUE_LIST, one("t"));
    bind(&mut v, "toggle-unblocked-only", Action::ToggleUnblockedOnly, ISSUE_LIST, one("u"));
    bind(&mut v, "open-issue-detail", Action::OpenIssueDetail, ISSUE_LIST, one("Enter"));
    bind(&mut v, "edit-issue", Action::EditIssue, ISSUE_DETAIL, one("e"));
    bind(&mut v, "comment-on-issue", Action::CommentOnIssue, ISSUE_DETAIL, one("c"));
    bind(&mut v, "toggle-issue-state", Action::ToggleIssueState, ISSUE_DETAIL, one("x"));
    bind(&mut v, "edit-issue-labels", Action::EditIssueLabels, ISSUE_LIST | ISSUE_DETAIL, one("l"));
    bind(&mut v, "edit-issue-assignees", Action::EditIssueAssignees, ISSUE_DETAIL, one("a"));
    bind(&mut v, "toggle-issue-label", Action::ToggleIssueLabel, ISSUE_LABELS, one("Space"));
    bind(&mut v, "open-issue-in-browser", Action::OpenIssueInBrowser, ISSUE_LIST | ISSUE_DETAIL, one("o"));
    v
}

/// The file diff viewer, and commands without a default key.
pub open spec fn diff_rows() -> Seq<DescriptorView> {
    seq![
        row("scroll-up", Action::ScrollUp, FILE_DIFF, seq!["Up", "k"]),
        row("scroll-down", Action::ScrollDown, FILE_DIFF, seq!["Down", "j"]),
        row("scroll-page-up", Action::ScrollPageUp, FILE_DIFF, seq!["Ctrl+U"]),
        row("scroll-page-down", Action::ScrollPageDown, FILE_DIFF, seq!["Ctrl+D"]),
        row("scroll-to-top", Action::ScrollToTop, FILE_DIFF, seq!["g", "Home"]),
        row("scroll-to-bottom", Action::ScrollToBottom, FILE_DIFF, seq!["Shift+G", "End"]),
        row("scroll-left", Action::ScrollLeft, FILE_DIFF, seq!["h", "Left"]),
        row("scroll-right", Action::ScrollRight, FILE_DIFF, seq!["l", "Right"]),
        row("scroll-to-line-start", Action::ScrollToLineStart, FILE_DIFF, seq!["0"]),
        row("next-hunk", Action::NextHunk, FILE_DIFF, seq!["]"]),
        row("previous-hunk", Action::PrevHunk, FILE_DIFF, seq!["["]),
        row("next-file", Action::NextFile, FILE_DIFF, seq!["n"]),
        row("previous-file", Action::PrevFile, FILE_DIFF, seq!["Shift+N"]),
        row("stage-hunk", Action::StageHunk, FILE_DIFF, seq!["s"]),
        row("unstage-hunk", Action::UnstageHunk, FILE_DIFF, seq!["u"]),
        row("discard-hunk", Action::DiscardHunk, FILE_DIFF, seq!["x"]),
        row("toggle-diff-wrap", Action::ToggleDiffWrap, FILE_DIFF, seq!["Ctrl+Alt+W"]),
        row("create-pull-request", Action::CreatePullRequest, GRAPH, seq![]),
        row("merge-pull-request", Action::MergePullRequest, GRAPH, seq![]),
        row("load-more-commits", Action::LoadMoreCommits, GRAPH, seq![]),
        row("load-all-commits", Action::LoadAllCommits, GRAPH, seq![]),
    ]
}

fn diff_descriptors() -> (v: Vec<BindingDescriptor>)
    ensures
        rows(v@) == diff_rows(),
{
    let mut v: Vec<BindingDescriptor> = Vec::new();
    assert(rows(v@) =~= Seq::empty());
    bind(&mut v, "scroll-up", Action::ScrollUp, FILE_DIFF, two("Up", "k"));
    bind(&mut v, "scroll-down", Action::ScrollDown, FILE_DIFF, two("Down", "j"));
    bind(&mut v, "scroll-page-up", Action::ScrollPageUp, FILE_DIFF, one("Ctrl+U"));
    bind(&mut v, "scroll-page-down", Action::ScrollPageDown, FILE_DIFF, one("Ctrl+D"));
    bind(&mut v, "scroll-to-top", Action::ScrollToTop, FILE_DIFF, two("g", "Home"));
    bind(&mut v, "scroll-to-bottom", Action::ScrollToBottom, FILE_DIFF, two("Shift+G", "End"));
    bind(&mut v, "scroll-left", Action::ScrollLeft, FILE_DIFF, two("h", "Left"));
    bind(&mut v, "scroll-right", Action::ScrollRight, FILE_DIFF, two("l", "Right"));
    bind(&mut v, "scroll-to-line-start", Action::ScrollToLineStart, FILE_DIFF, one("0"));
    bind(&mut v, "next-hunk", Action::NextHunk, FILE_DIFF, one("]"));
    bind(&mut v, "previous-hunk", Action::PrevHunk, FILE_DIFF, one("["));
    bind(&mut v, "next-file", Action::NextFile, FILE_DIFF, one("n"));
    bind(&mut v, "previous-file", Action::PrevFile, FILE_DIFF, one("Shift+N"));
    bind(&mut v, "stage-hunk", Action::StageHunk, FILE_DIFF, one("s"));
    bind(&mut v, "unstage-hunk", Action::UnstageHunk, FILE_DIFF, one("u"));
    bind(&mut v, "discard-hunk", Action::DiscardHunk, FILE_DIFF, one("x"));
    bind(&mut v, "toggle-diff-wrap", Action::ToggleDiffWrap, FILE_DIFF, one("Ctrl+Alt+W"));
    bind(&mut v, "create-pull-request", Action::CreatePullRequest, GRAPH, unbound());
    bind(&mut v, "merge-pull-request", Action::MergePullRequest, GRAPH, unbound());
    bind(&mut v, "load-more-commits", Action::LoadMoreCommits, GRAPH, unbound());
    bind(&mut v, "load-all-commits", Action::LoadAllCommits, GRAPH, unbound());
    v
}

/// The whole table, in its stable order. Text insertion, cursor movement with
/// a selection flag, and mouse events are not in it: they carry a payload.
pub open spec fn registry() -> Seq<DescriptorView> {
    program_rows() + movement_rows() + graph_rows() + files_rows() + editor_rows() + menu_rows() + rebase_rows() + compose_rows() + diff_rows()
}

/// The bindable commands with their identifiers, scopes and default keys.
pub fn binding_registry() -> (v: Vec<BindingDescriptor>)
    ensures
        rows(v@) == registry(),
{
    let mut out = program_descriptors();
    append_rows(&mut out, movement_descriptors());
    append_rows(&mut out, graph_descriptors());
    append_rows(&mut out, files_descriptors());
    append_rows(&mut out, editor_descriptors());
    append_rows(&mut out, menu_descriptors());
    append_rows(&mut out, rebase_descriptors());
    append_rows(&mut out, compose_descriptors());
    append_rows(&mut out, diff_descriptors());
    out
}

fn append_rows(out: &mut Vec<BindingDescriptor>, more: Vec<BindingDescriptor>)
    ensures
        rows(final(out)@) == rows(old(out)@) + rows(more@),
{
    let mut rest = more;
    out.append(&mut rest);
    assert(rows(out@) =~= rows(old(out)@) + rows(more@));
}

} // verus!
