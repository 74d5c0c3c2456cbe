//! What holds of every keymap.
use vstd::prelude::*;

use crate::action::Action;
use crate::app::{AppMode, FocusedPanel, InputAction};
use crate::keymap;
use crate::keymap::binding;
use crate::keymap::binding::KeyBinding;
use crate::keymap::registry;
use crate::keymap::{
    DescriptorView, EntryView, KeymapView, OverrideView, WarningView, ALL, BRANCH_FILTER, CI_CHECKS, COMPOSE, CONFIRM, DETAIL,
    EDITOR, FILES, FILE_DIFF, GLOBAL, GRAPH, HELP, INPUT, ISSUE_DETAIL, ISSUE_LABELS, ISSUE_LIST, MENU, NORMAL, PALETTE,
    PR_THREAD, REBASE_PLAN, SEARCH, SETTINGS,
};
use crate::keys::{KeyCode, KeyEvent, KeyEventKind, KeyModifiers, MediaKeyCode, ModifierKeyCode};
use crate::search;
use crate::text;

verus! {

/// A row of the table of commands says this.
pub open spec fn stands(
    d: DescriptorView,
    id: Seq<char>,
    action: Action,
    scopes: u32,
    defaults: Seq<Seq<char>>,
) -> bool {
    d.id == id && d.action == action && d.scopes == scopes && d.defaults == defaults
}

/// Every context has a bit of its own.
pub proof fn law_contexts()
    ensures
        GLOBAL == 1,
        GRAPH == 2,
        FILES == 4,
        DETAIL == 8,
        EDITOR == 16,
        HELP == 32,
        INPUT == 64,
        SEARCH == 128,
        CONFIRM == 256,
        MENU == 512,
        REBASE_PLAN == 1024,
        SETTINGS == 2048,
        PR_THREAD == 4096,
        ISSUE_LIST == 8192,
        ISSUE_DETAIL == 16384,
        ISSUE_LABELS == 32768,
        COMPOSE == 65536,
        CI_CHECKS == 131072,
        BRANCH_FILTER == 262144,
        FILE_DIFF == 524288,
        PALETTE == 1048576,
        NORMAL == 14,
        ALL == 2097151,
{
}

/// Identifiers, actions, contexts and default keys: the commands of every panel.
#[verifier::rlimit(40)]
pub proof fn law_default_keys_program()
    ensures
        registry::program_rows().len() == 13,
        stands(
            registry::program_rows()[0],
            "force-quit"@,
            Action::ForceQuit,
            ALL,
            seq!["Ctrl+Q"@],
        ),
        stands(
            registry::program_rows()[1],
            "report-keifu-issue"@,
            Action::ReportKeifuIssue,
            ALL,
            seq!["Alt+K"@],
        ),
        stands(
            registry::program_rows()[2],
            "new-issue"@,
            Action::NewIssue,
            ALL | ISSUE_LIST,
            seq!["Alt+I"@],
        ),
        stands(
            registry::program_rows()[3],
            "toggle-debug-keys"@,
            Action::ToggleDebugKeys,
            ALL,
            seq!["F12"@],
        ),
        stands(
            registry::program_rows()[4],
            "toggle-layout"@,
            Action::ToggleLayout,
            ALL,
            seq!["Alt+/"@],
        ),
        stands(
            registry::program_rows()[5],
            "full-update"@,
            Action::FullUpdate,
            NORMAL,
            seq!["F5"@],
        ),
        stands(
            registry::program_rows()[6],
            "open-command-palette"@,
            Action::OpenCommandPalette,
            NORMAL,
            seq!["Ctrl+P"@, "Ctrl+Alt+P"@, ":"@],
        ),
        stands(
            registry::program_rows()[7],
            "search"@,
            Action::Search,
            GRAPH,
            seq!["/"@],
        ),
        stands(
            registry::program_rows()[8],
            "start-commit-filter"@,
            Action::StartCommitFilter,
            GRAPH,
            seq!["Ctrl+F"@],
        ),
        stands(
            registry::program_rows()[9],
            "open-settings"@,
            Action::OpenSettings,
            NORMAL,
            seq!["Ctrl+,"@, ","@],
        ),
        stands(
            registry::program_rows()[10],
            "open-issue-list"@,
            Action::OpenIssueList,
            NORMAL,
            seq!["Shift+I"@],
        ),
        stands(
            registry::program_rows()[11],
            "toggle-files-pane"@,
            Action::ToggleFilesPane,
            NORMAL,
            seq!["Shift+F"@],
        ),
        stands(
            registry::program_rows()[12],
            "toggle-commit-pane"@,
            Action::ToggleCommitPane,
            NORMAL,
            seq!["Shift+C"@],
        ),
{
    assert(registry::program_rows()[0].defaults =~= seq!["Ctrl+Q"@]);
    assert(registry::program_rows()[1].defaults =~= seq!["Alt+K"@]);
    assert(registry::program_rows()[2].defaults =~= seq!["Alt+I"@]);
    assert(registry::program_rows()[3].defaults =~= seq!["F12"@]);
    assert(registry::program_rows()[4].defaults =~= seq!["Alt+/"@]);
    assert(registry::program_rows()[5].defaults =~= seq!["F5"@]);
    assert(registry::program_rows()[6].defaults =~= seq!["Ctrl+P"@, "Ctrl+Alt+P"@, ":"@]);
    assert(registry::program_rows()[7].defaults =~= seq!["/"@]);
    assert(registry::program_rows()[8].defaults =~= seq!["Ctrl+F"@]);
    assert(registry::program_rows()[9].defaults =~= seq!["Ctrl+,"@, ","@]);
    assert(registry::program_rows()[10].defaults =~= seq!["Shift+I"@]);
    assert(registry::program_rows()[11].defaults =~= seq!["Shift+F"@]);
    assert(registry::program_rows()[12].defaults =~= seq!["Shift+C"@]);
}

/// Identifiers, actions, contexts and default keys: moving around.
#[verifier::rlimit(40)]
pub proof fn law_default_keys_movement()
    ensures
        registry::movement_rows().len() == 8,
        stands(
            registry::movement_rows()[0],
            "panel-left"@,
            Action::PanelLeft,
            NORMAL,
            seq!["Left"@, "Shift+BackTab"@],
        ),
        stands(
            registry::movement_rows()[1],
            "panel-right"@,
            Action::PanelRight,
            NORMAL,
            seq!["Right"@, "Tab"@],
        ),
        stands(
            registry::movement_rows()[2],
            "move-up"@,
            Action::MoveUp,
            GRAPH | FILES | DETAIL | MENU | REBASE_PLAN | SETTINGS | PR_THREAD | ISSUE_LIST | ISSUE_DETAIL | ISSUE_LABELS | CI_CHECKS | BRANCH_FILTER | PALETTE,
            seq!["Up"@, "k"@],
        ),
        stands(
            registry::movement_rows()[3],
            "move-down"@,
            Action::MoveDown,
            GRAPH | FILES | DETAIL | MENU | REBASE_PLAN | SETTINGS | PR_THREAD | ISSUE_LIST | ISSUE_DETAIL | ISSUE_LABELS | CI_CHECKS | BRANCH_FILTER | PALETTE,
            seq!["Down"@, "j"@],
        ),
        stands(
            registry::movement_rows()[4],
            "page-up"@,
            Action::PageUp,
            GRAPH | FILES | DETAIL | PR_THREAD | ISSUE_LIST | ISSUE_DETAIL | CI_CHECKS | FILE_DIFF,
            seq!["PageUp"@, "Ctrl+U"@],
        ),
        stands(
            registry::movement_rows()[5],
            "page-down"@,
            Action::PageDown,
            GRAPH | FILES | DETAIL | PR_THREAD | ISSUE_LIST | ISSUE_DETAIL | CI_CHECKS | FILE_DIFF,
            seq!["PageDown"@, "Ctrl+D"@],
        ),
        stands(
            registry::movement_rows()[6],
            "go-to-top"@,
            Action::GoToTop,
            GRAPH | FILES | DETAIL | PR_THREAD | ISSUE_LIST | ISSUE_DETAIL | CI_CHECKS,
            seq!["Home"@, "g"@],
        ),
        stands(
            registry::movement_rows()[7],
            "go-to-bottom"@,
            Action::GoToBottom,
            GRAPH | FILES | DETAIL | PR_THREAD | ISSUE_LIST | ISSUE_DETAIL | CI_CHECKS,
            seq!["End"@, "Shift+G"@],
        ),
{
    assert(registry::movement_rows()[0].defaults =~= seq!["Left"@, "Shift+BackTab"@]);
    assert(registry::movement_rows()[1].defaults =~= seq!["Right"@, "Tab"@]);
    assert(registry::movement_rows()[2].defaults =~= seq!["Up"@, "k"@]);
    assert(registry::movement_rows()[3].defaults =~= seq!["Down"@, "j"@]);
    assert(registry::movement_rows()[4].defaults =~= seq!["PageUp"@, "Ctrl+U"@]);
    assert(registry::movement_rows()[5].defaults =~= seq!["PageDown"@, "Ctrl+D"@]);
    assert(registry::movement_rows()[6].defaults =~= seq!["Home"@, "g"@]);
    assert(registry::movement_rows()[7].defaults =~= seq!["End"@, "Shift+G"@]);
}

/// Identifiers, actions, contexts and default keys: the graph panel.
#[verifier::rlimit(40)]
pub proof fn law_default_keys_graph()
    ensures
        registry::graph_rows().len() == 29,
        stands(
            registry::graph_rows()[0],
            "same-lane-up"@,
            Action::SameLaneUp,
            GRAPH,
            seq!["Ctrl+Up"@],
        ),
        stands(
            registry::graph_rows()[1],
            "same-lane-down"@,
            Action::SameLaneDown,
            GRAPH,
            seq!["Ctrl+Down"@],
        ),
        stands(
            registry::graph_rows()[2],
            "jump-to-head"@,
            Action::JumpToHead,
            GRAPH | FILES,
            seq!["@"@],
        ),
        stands(
            registry::graph_rows()[3],
            "next-branch"@,
            Action::NextBranch,
            GRAPH,
            seq!["]"@],
        ),
        stands(
            registry::graph_rows()[4],
            "previous-branch"@,
            Action::PrevBranch,
            GRAPH,
            seq!["["@],
        ),
        stands(
            registry::graph_rows()[5],
            "open-commit-menu"@,
            Action::OpenCommitMenu,
            GRAPH,
            seq!["Enter"@],
        ),
        stands(
            registry::graph_rows()[6],
            "mark-for-compare"@,
            Action::MarkForCompare,
            GRAPH,
            seq!["m"@],
        ),
        stands(
            registry::graph_rows()[7],
            "jump-to-merge-base"@,
            Action::JumpToMergeBase,
            GRAPH,
            seq!["^"@],
        ),
        stands(
            registry::graph_rows()[8],
            "undo-last-operation"@,
            Action::UndoLastOp,
            GRAPH,
            seq!["Ctrl+Z"@],
        ),
        stands(
            registry::graph_rows()[9],
            "open-pr"@,
            Action::OpenPr,
            GRAPH | PR_THREAD | CI_CHECKS,
            seq!["o"@],
        ),
        stands(
            registry::graph_rows()[10],
            "open-ci-checks"@,
            Action::OpenCiChecks,
            GRAPH,
            seq!["c"@],
        ),
        stands(
            registry::graph_rows()[11],
            "open-pr-thread"@,
            Action::OpenPrThread,
            GRAPH,
            seq!["v"@],
        ),
        stands(
            registry::graph_rows()[12],
            "open-review-picker"@,
            Action::OpenReviewPicker,
            PR_THREAD,
            seq!["r"@],
        ),
        stands(
            registry::graph_rows()[13],
            "open-metadata-menu"@,
            Action::OpenMetadataMenu,
            GRAPH,
            seq!["Shift+M"@],
        ),
        stands(
            registry::graph_rows()[14],
            "toggle-trace"@,
            Action::ToggleTrace,
            GRAPH,
            seq!["t"@],
        ),
        stands(
            registry::graph_rows()[15],
            "shrink-graph-width"@,
            Action::ShrinkGraphWidth,
            GRAPH,
            seq!["<"@],
        ),
        stands(
            registry::graph_rows()[16],
            "widen-graph-width"@,
            Action::WidenGraphWidth,
            GRAPH,
            seq![">"@],
        ),
        stands(
            registry::graph_rows()[17],
            "create-branch"@,
            Action::CreateBranch,
            GRAPH,
            seq!["b"@],
        ),
        stands(
            registry::graph_rows()[18],
            "delete-branch"@,
            Action::DeleteBranch,
            GRAPH,
            seq!["d"@],
        ),
        stands(
            registry::graph_rows()[19],
            "fetch"@,
            Action::Fetch,
            GRAPH,
            seq!["f"@],
        ),
        stands(
            registry::graph_rows()[20],
            "pull"@,
            Action::Pull,
            GRAPH,
            seq!["p"@],
        ),
        stands(
            registry::graph_rows()[21],
            "push"@,
            Action::Push,
            GRAPH,
            seq!["Shift+P"@],
        ),
        stands(
            registry::graph_rows()[22],
            "open-file-diff"@,
            Action::OpenFileDiff,
            GRAPH | FILES,
            seq!["Space"@, "Enter"@],
        ),
        stands(
            registry::graph_rows()[23],
            "open-branch-filter"@,
            Action::OpenBranchFilter,
            GRAPH,
            seq!["Shift+B"@],
        ),
        stands(
            registry::graph_rows()[24],
            "toggle-remote-branches"@,
            Action::ToggleRemoteBranches,
            GRAPH,
            seq!["Shift+O"@],
        ),
        stands(
            registry::graph_rows()[25],
            "toggle-merged-branches"@,
            Action::ToggleMergedBranches,
            GRAPH,
            seq!["Shift+H"@],
        ),
        stands(
            registry::graph_rows()[26],
            "refresh"@,
            Action::Refresh,
            GRAPH,
            seq!["Shift+R"@],
        ),
        stands(
            registry::graph_rows()[27],
            "toggle-help"@,
            Action::ToggleHelp,
            NORMAL | HELP,
            seq!["?"@],
        ),
        stands(
            registry::graph_rows()[28],
            "quit"@,
            Action::Quit,
            GRAPH,
            seq!["Esc"@],
        ),
{
    assert(registry::graph_rows()[0].defaults =~= seq!["Ctrl+Up"@]);
    assert(registry::graph_rows()[1].defaults =~= seq!["Ctrl+Down"@]);
    assert(registry::graph_rows()[2].defaults =~= seq!["@"@]);
    assert(registry::graph_rows()[3].defaults =~= seq!["]"@]);
    assert(registry::graph_rows()[4].defaults =~= seq!["["@]);
    assert(registry::graph_rows()[5].defaults =~= seq!["Enter"@]);
    assert(registry::graph_rows()[6].defaults =~= seq!["m"@]);
    assert(registry::graph_rows()[7].defaults =~= seq!["^"@]);
    assert(registry::graph_rows()[8].defaults =~= seq!["Ctrl+Z"@]);
    assert(registry::graph_rows()[9].defaults =~= seq!["o"@]);
    assert(registry::graph_rows()[10].defaults =~= seq!["c"@]);
    assert(registry::graph_rows()[11].defaults =~= seq!["v"@]);
    assert(registry::graph_rows()[12].defaults =~= seq!["r"@]);
    assert(registry::graph_rows()[13].defaults =~= seq!["Shift+M"@]);
    assert(registry::graph_rows()[14].defaults =~= seq!["t"@]);
    assert(registry::graph_rows()[15].defaults =~= seq!["<"@]);
    assert(registry::graph_rows()[16].defaults =~= seq![">"@]);
    assert(registry::graph_rows()[17].defaults =~= seq!["b"@]);
    assert(registry::graph_rows()[18].defaults =~= seq!["d"@]);
    assert(registry::graph_rows()[19].defaults =~= seq!["f"@]);
    assert(registry::graph_rows()[20].defaults =~= seq!["p"@]);
    assert(registry::graph_rows()[21].defaults =~= seq!["Shift+P"@]);
    assert(registry::graph_rows()[22].defaults =~= seq!["Space"@, "Enter"@]);
    assert(registry::graph_rows()[23].defaults =~= seq!["Shift+B"@]);
    assert(registry::graph_rows()[24].defaults =~= seq!["Shift+O"@]);
    assert(registry::graph_rows()[25].defaults =~= seq!["Shift+H"@]);
    assert(registry::graph_rows()[26].defaults =~= seq!["Shift+R"@]);
    assert(registry::graph_rows()[27].defaults =~= seq!["?"@]);
    assert(registry::graph_rows()[28].defaults =~= seq!["Esc"@]);
}

/// Identifiers, actions, contexts and default keys: the files panel.
#[verifier::rlimit(40)]
pub proof fn law_default_keys_files()
    ensures
        registry::files_rows().len() == 20,
        stands(
            registry::files_rows()[0],
            "toggle-stage"@,
            Action::ToggleStage,
            FILES,
            seq!["s"@],
        ),
        stands(
            registry::files_rows()[1],
            "stage-all"@,
            Action::StageAll,
            FILES,
            seq!["Shift+S"@],
        ),
        stands(
            registry::files_rows()[2],
            "unstage-all"@,
            Action::UnstageAll,
            FILES,
            seq!["Shift+U"@],
        ),
        stands(
            registry::files_rows()[3],
            "add-to-gitignore"@,
            Action::AddToGitignore,
            FILES,
            seq!["i"@],
        ),
        stands(
            registry::files_rows()[4],
            "archive-file"@,
            Action::ArchiveFile,
            FILES,
            seq!["v"@],
        ),
        stands(
            registry::files_rows()[5],
            "trash-file"@,
            Action::TrashFile,
            FILES,
            seq!["Delete"@],
        ),
        stands(
            registry::files_rows()[6],
            "undo-last-file-operation"@,
            Action::UndoLastFileOp,
            FILES,
            seq!["Ctrl+Z"@],
        ),
        stands(
            registry::files_rows()[7],
            "toggle-folder-view"@,
            Action::ToggleFolderView,
            FILES,
            seq!["f"@],
        ),
        stands(
            registry::files_rows()[8],
            "restore-file"@,
            Action::RestoreFile,
            FILES,
            seq!["r"@],
        ),
        stands(
            registry::files_rows()[9],
            "next-conflict"@,
            Action::NextConflict,
            FILES,
            seq!["]"@],
        ),
        stands(
            registry::files_rows()[10],
            "previous-conflict"@,
            Action::PrevConflict,
            FILES,
            seq!["["@],
        ),
        stands(
            registry::files_rows()[11],
            "accept-ours"@,
            Action::AcceptOurs,
            FILES,
            seq!["o"@],
        ),
        stands(
            registry::files_rows()[12],
            "accept-theirs"@,
            Action::AcceptTheirs,
            FILES,
            seq!["t"@],
        ),
        stands(
            registry::files_rows()[13],
            "continue-operation"@,
            Action::ContinueOperation,
            FILES,
            seq!["c"@],
        ),
        stands(
            registry::files_rows()[14],
            "abort-operation"@,
            Action::AbortOperation,
            FILES,
            seq!["Shift+A"@],
        ),
        stands(
            registry::files_rows()[15],
            "open-with-default"@,
            Action::OpenWithDefault,
            FILES,
            seq!["Space"@],
        ),
        stands(
            registry::files_rows()[16],
            "copy-path"@,
            Action::CopyPath,
            FILES,
            seq!["y"@],
        ),
        stands(
            registry::files_rows()[17],
            "file-history"@,
            Action::FileHistory,
            FILES,
            seq!["h"@],
        ),
        stands(
            registry::files_rows()[18],
            "start-files-filter"@,
            Action::StartFilesFilter,
            FILES,
            seq!["Ctrl+F"@],
        ),
        stands(
            registry::files_rows()[19],
            "focus-graph"@,
            Action::FocusGraph,
            FILES | DETAIL,
            seq!["Esc"@],
        ),
{
    assert(registry::files_rows()[0].defaults =~= seq!["s"@]);
    assert(registry::files_rows()[1].defaults =~= seq!["Shift+S"@]);
    assert(registry::files_rows()[2].defaults =~= seq!["Shift+U"@]);
    assert(registry::files_rows()[3].defaults =~= seq!["i"@]);
    assert(registry::files_rows()[4].defaults =~= seq!["v"@]);
    assert(registry::files_rows()[5].defaults =~= seq!["Delete"@]);
    assert(registry::files_rows()[6].defaults =~= seq!["Ctrl+Z"@]);
    assert(registry::files_rows()[7].defaults =~= seq!["f"@]);
    assert(registry::files_rows()[8].defaults =~= seq!["r"@]);
    assert(registry::files_rows()[9].defaults =~= seq!["]"@]);
    assert(registry::files_rows()[10].defaults =~= seq!["["@]);
    assert(registry::files_rows()[11].defaults =~= seq!["o"@]);
    assert(registry::files_rows()[12].defaults =~= seq!["t"@]);
    assert(registry::files_rows()[13].defaults =~= seq!["c"@]);
    assert(registry::files_rows()[14].defaults =~= seq!["Shift+A"@]);
    assert(registry::files_rows()[15].defaults =~= seq!["Space"@]);
    assert(registry::files_rows()[16].defaults =~= seq!["y"@]);
    assert(registry::files_rows()[17].defaults =~= seq!["h"@]);
    assert(registry::files_rows()[18].defaults =~= seq!["Ctrl+F"@]);
    assert(registry::files_rows()[19].defaults =~= seq!["Esc"@]);
}

/// Identifiers, actions, contexts and default keys: the commit panel and its editor.
#[verifier::rlimit(40)]
pub proof fn law_default_keys_editor()
    ensures
        registry::editor_rows().len() == 12,
        stands(
            registry::editor_rows()[0],
            "start-editing"@,
            Action::StartEditing,
            DETAIL,
            seq!["Enter"@],
        ),
        stands(
            registry::editor_rows()[1],
            "amend-commit"@,
            Action::AmendCommit,
            DETAIL | EDITOR,
            seq!["Ctrl+Enter"@],
        ),
        stands(
            registry::editor_rows()[2],
            "stash-staged"@,
            Action::StashStaged,
            DETAIL | EDITOR,
            seq!["Ctrl+S"@],
        ),
        stands(
            registry::editor_rows()[3],
            "toggle-commit-detail-wrap"@,
            Action::ToggleCommitDetailWrap,
            DETAIL,
            seq!["Ctrl+Alt+W"@],
        ),
        stands(
            registry::editor_rows()[4],
            "commit-changes"@,
            Action::CommitChanges,
            EDITOR,
            seq!["Enter"@],
        ),
        stands(
            registry::editor_rows()[5],
            "stop-editing"@,
            Action::StopEditing,
            EDITOR,
            seq!["Esc"@],
        ),
        stands(
            registry::editor_rows()[6],
            "editor-newline"@,
            Action::EditorNewline,
            EDITOR | COMPOSE,
            seq!["Shift+Enter"@],
        ),
        stands(
            registry::editor_rows()[7],
            "editor-backspace"@,
            Action::EditorBackspace,
            EDITOR | COMPOSE,
            seq!["Backspace"@],
        ),
        stands(
            registry::editor_rows()[8],
            "editor-delete"@,
            Action::EditorDelete,
            EDITOR | COMPOSE,
            seq!["Delete"@],
        ),
        stands(
            registry::editor_rows()[9],
            "editor-backspace-word"@,
            Action::EditorBackspaceWord,
            EDITOR,
            seq!["Ctrl+Backspace"@, "Alt+Backspace"@],
        ),
        stands(
            registry::editor_rows()[10],
            "editor-delete-word"@,
            Action::EditorDeleteWord,
            EDITOR,
            seq!["Ctrl+Delete"@, "Alt+D"@],
        ),
        stands(
            registry::editor_rows()[11],
            "editor-kill-line"@,
            Action::EditorKillLine,
            EDITOR,
            seq!["Ctrl+K"@],
        ),
{
    assert(registry::editor_rows()[0].defaults =~= seq!["Enter"@]);
    assert(registry::editor_rows()[1].defaults =~= seq!["Ctrl+Enter"@]);
    assert(registry::editor_rows()[2].defaults =~= seq!["Ctrl+S"@]);
    assert(registry::editor_rows()[3].defaults =~= seq!["Ctrl+Alt+W"@]);
    assert(registry::editor_rows()[4].defaults =~= seq!["Enter"@]);
    assert(registry::editor_rows()[5].defaults =~= seq!["Esc"@]);
    assert(registry::editor_rows()[6].defaults =~= seq!["Shift+Enter"@]);
    assert(registry::editor_rows()[7].defaults =~= seq!["Backspace"@]);
    assert(registry::editor_rows()[8].defaults =~= seq!["Delete"@]);
    assert(registry::editor_rows()[9].defaults =~= seq!["Ctrl+Backspace"@, "Alt+Backspace"@]);
    assert(registry::editor_rows()[10].defaults =~= seq!["Ctrl+Delete"@, "Alt+D"@]);
    assert(registry::editor_rows()[11].defaults =~= seq!["Ctrl+K"@]);
}

/// Identifiers, actions, contexts and default keys: menus and prompts.
#[verifier::rlimit(40)]
pub proof fn law_default_keys_menu()
    ensures
        registry::menu_rows().len() == 9,
        stands(
            registry::menu_rows()[0],
            "menu-select"@,
            Action::MenuSelect,
            MENU | SETTINGS | ISSUE_LABELS | CI_CHECKS | BRANCH_FILTER | PALETTE,
            seq!["Enter"@],
        ),
        stands(
            registry::menu_rows()[1],
            "cancel"@,
            Action::Cancel,
            INPUT | SEARCH | CONFIRM | MENU | SETTINGS | PR_THREAD | ISSUE_LIST | ISSUE_DETAIL | ISSUE_LABELS | COMPOSE | CI_CHECKS | BRANCH_FILTER | FILE_DIFF | PALETTE,
            seq!["Esc"@, "q"@],
        ),
        stands(
            registry::menu_rows()[2],
            "confirm"@,
            Action::Confirm,
            INPUT | SEARCH | CONFIRM | REBASE_PLAN | BRANCH_FILTER,
            seq!["Enter"@, "y"@],
        ),
        stands(
            registry::menu_rows()[3],
            "confirm-delete-branch-and-remote"@,
            Action::ConfirmDeleteBranchAndRemote,
            CONFIRM,
            seq!["Ctrl+Enter"@, "Shift+R"@],
        ),
        stands(
            registry::menu_rows()[4],
            "input-backspace"@,
            Action::InputBackspace,
            INPUT | SEARCH | MENU | SETTINGS | BRANCH_FILTER | PALETTE,
            seq!["Backspace"@],
        ),
        stands(
            registry::menu_rows()[5],
            "input-backspace-word"@,
            Action::InputBackspaceWord,
            INPUT | SEARCH | MENU | SETTINGS | BRANCH_FILTER | PALETTE,
            seq!["Ctrl+Backspace"@, "Alt+Backspace"@, "Ctrl+H"@],
        ),
        stands(
            registry::menu_rows()[6],
            "input-clear-line"@,
            Action::InputClearLine,
            INPUT | SEARCH | MENU | SETTINGS | BRANCH_FILTER | PALETTE,
            seq!["Ctrl+U"@],
        ),
        stands(
            registry::menu_rows()[7],
            "select-all"@,
            Action::SelectAll,
            ISSUE_LABELS | BRANCH_FILTER,
            seq!["Ctrl+A"@],
        ),
        stands(
            registry::menu_rows()[8],
            "select-none"@,
            Action::SelectNone,
            ISSUE_LABELS | BRANCH_FILTER,
            seq!["Ctrl+O"@],
        ),
{
    assert(registry::menu_rows()[0].defaults =~= seq!["Enter"@]);
    assert(registry::menu_rows()[1].defaults =~= seq!["Esc"@, "q"@]);
    assert(registry::menu_rows()[2].defaults =~= seq!["Enter"@, "y"@]);
    assert(registry::menu_rows()[3].defaults =~= seq!["Ctrl+Enter"@, "Shift+R"@]);
    assert(registry::menu_rows()[4].defaults =~= seq!["Backspace"@]);
    assert(registry::menu_rows()[5].defaults =~= seq!["Ctrl+Backspace"@, "Alt+Backspace"@, "Ctrl+H"@]);
    assert(registry::menu_rows()[6].defaults =~= seq!["Ctrl+U"@]);
    assert(registry::menu_rows()[7].defaults =~= seq!["Ctrl+A"@]);
    assert(registry::menu_rows()[8].defaults =~= seq!["Ctrl+O"@]);
}

/// Identifiers, actions, contexts and default keys: the rebase plan, the help and the search.
#[verifier::rlimit(40)]
pub proof fn law_default_keys_rebase()
    ensures
        registry::rebase_rows().len() == 18,
        stands(
            registry::rebase_rows()[0],
            "rebase-move-commit-up"@,
            Action::RebaseMoveCommitUp,
            REBASE_PLAN,
            seq!["Shift+K"@],
        ),
        stands(
            registry::rebase_rows()[1],
            "rebase-move-commit-down"@,
            Action::RebaseMoveCommitDown,
            REBASE_PLAN,
            seq!["Shift+J"@],
        ),
        stands(
            registry::rebase_rows()[2],
            "rebase-pick"@,
            Action::RebasePick,
            REBASE_PLAN,
            seq!["P"@],
        ),
        stands(
            registry::rebase_rows()[3],
            "rebase-squash"@,
            Action::RebaseSquash,
            REBASE_PLAN,
            seq!["s"@],
        ),
        stands(
            registry::rebase_rows()[4],
            "rebase-fixup"@,
            Action::RebaseFixup,
            REBASE_PLAN,
            seq!["f"@],
        ),
        stands(
            registry::rebase_rows()[5],
            "rebase-reword"@,
            Action::RebaseReword,
            REBASE_PLAN,
            seq!["r"@],
        ),
        stands(
            registry::rebase_rows()[6],
            "rebase-drop"@,
            Action::RebaseDrop,
            REBASE_PLAN,
            seq!["d"@],
        ),
        stands(
            registry::rebase_rows()[7],
            "help-scroll-up"@,
            Action::HelpScrollUp,
            HELP,
            seq!["Up"@, "k"@],
        ),
        stands(
            registry::rebase_rows()[8],
            "help-scroll-down"@,
            Action::HelpScrollDown,
            HELP,
            seq!["Down"@, "j"@],
        ),
        stands(
            registry::rebase_rows()[9],
            "help-page-up"@,
            Action::HelpPageUp,
            HELP,
            seq!["PageUp"@],
        ),
        stands(
            registry::rebase_rows()[10],
            "help-page-down"@,
            Action::HelpPageDown,
            HELP,
            seq!["PageDown"@],
        ),
        stands(
            registry::rebase_rows()[11],
            "help-scroll-to-top"@,
            Action::HelpScrollToTop,
            HELP,
            seq!["Home"@],
        ),
        stands(
            registry::rebase_rows()[12],
            "help-scroll-to-bottom"@,
            Action::HelpScrollToBottom,
            HELP,
            seq!["End"@],
        ),
        stands(
            registry::rebase_rows()[13],
            "toggle-status-bar"@,
            Action::ToggleStatusBar,
            HELP,
            seq!["s"@],
        ),
        stands(
            registry::rebase_rows()[14],
            "search-select-up"@,
            Action::SearchSelectUp,
            SEARCH,
            seq!["Up"@, "Ctrl+K"@],
        ),
        stands(
            registry::rebase_rows()[15],
            "search-select-down"@,
            Action::SearchSelectDown,
            SEARCH,
            seq!["Down"@, "Ctrl+J"@],
        ),
        stands(
            registry::rebase_rows()[16],
            "search-select-up-quiet"@,
            Action::SearchSelectUpQuiet,
            SEARCH,
            seq!["Shift+BackTab"@],
        ),
        stands(
            registry::rebase_rows()[17],
            "search-select-down-quiet"@,
            Action::SearchSelectDownQuiet,
            SEARCH,
            seq!["Tab"@],
        ),
{
    assert(registry::rebase_rows()[0].defaults =~= seq!["Shift+K"@]);
    assert(registry::rebase_rows()[1].defaults =~= seq!["Shift+J"@]);
    assert(registry::rebase_rows()[2].defaults =~= seq!["P"@]);
    assert(registry::rebase_rows()[3].defaults =~= seq!["s"@]);
    assert(registry::rebase_rows()[4].defaults =~= seq!["f"@]);
    assert(registry::rebase_rows()[5].defaults =~= seq!["r"@]);
    assert(registry::rebase_rows()[6].defaults =~= seq!["d"@]);
    assert(registry::rebase_rows()[7].defaults =~= seq!["Up"@, "k"@]);
    assert(registry::rebase_rows()[8].defaults =~= seq!["Down"@, "j"@]);
    assert(registry::rebase_rows()[9].defaults =~= seq!["PageUp"@]);
    assert(registry::rebase_rows()[10].defaults =~= seq!["PageDown"@]);
    assert(registry::rebase_rows()[11].defaults =~= seq!["Home"@]);
    assert(registry::rebase_rows()[12].defaults =~= seq!["End"@]);
    assert(registry::rebase_rows()[13].defaults =~= seq!["s"@]);
    assert(registry::rebase_rows()[14].defaults =~= seq!["Up"@, "Ctrl+K"@]);
    assert(registry::rebase_rows()[15].defaults =~= seq!["Down"@, "Ctrl+J"@]);
    assert(registry::rebase_rows()[16].defaults =~= seq!["Shift+BackTab"@]);
    assert(registry::rebase_rows()[17].defaults =~= seq!["Tab"@]);
}

/// Identifiers, actions, contexts and default keys: composing and issues.
#[verifier::rlimit(40)]
pub proof fn law_default_keys_compose()
    ensures
        registry::compose_rows().len() == 15,
        stands(
            registry::compose_rows()[0],
            "submit-compose"@,
            Action::SubmitCompose,
            COMPOSE,
            seq!["Ctrl+S"@, "Ctrl+Enter"@],
        ),
        stands(
            registry::compose_rows()[1],
            "external-edit"@,
            Action::ExternalEdit,
            COMPOSE,
            seq!["Ctrl+E"@],
        ),
        stands(
            registry::compose_rows()[2],
            "toggle-issue-clipboard-image"@,
            Action::ToggleIssueClipboardImage,
            COMPOSE,
            seq!["Tab"@],
        ),
        stands(
            registry::compose_rows()[3],
            "refresh-issues"@,
            Action::RefreshIssues,
            ISSUE_LIST | ISSUE_DETAIL,
            seq!["r"@],
        ),
        stands(
            registry::compose_rows()[4],
            "cycle-issue-filter"@,
            Action::CycleIssueFilter,
            ISSUE_LIST,
            seq!["Tab"@, "f"@],
        ),
        stands(
            registry::compose_rows()[5],
            "open-issue-label-filter"@,
            Action::OpenIssueLabelFilter,
            ISSUE_LIST,
            seq!["t"@],
        ),
        stands(
            registry::compose_rows()[6],
            "toggle-unblocked-only"@,
            Action::ToggleUnblockedOnly,
            ISSUE_LIST,
            seq!["u"@],
        ),
        stands(
            registry::compose_rows()[7],
            "open-issue-detail"@,
            Action::OpenIssueDetail,
            ISSUE_LIST,
            seq!["Enter"@],
        ),
        stands(
            registry::compose_rows()[8],
            "edit-issue"@,
            Action::EditIssue,
            ISSUE_DETAIL,
            seq!["e"@],
        ),
        stands(
            registry::compose_rows()[9],
            "comment-on-issue"@,
            Action::CommentOnIssue,
            ISSUE_DETAIL,
            seq!["c"@],
        ),
        stands(
            registry::compose_rows()[10],
            "toggle-issue-state"@,
            Action::ToggleIssueState,
            ISSUE_DETAIL,
            seq!["x"@],
        ),
        stands(
            registry::compose_rows()[11],
            "edit-issue-labels"@,
            Action::EditIssueLabels,
            ISSUE_LIST | ISSUE_DETAIL,
            seq!["l"@],
        ),
        stands(
            registry::compose_rows()[12],
            "edit-issue-assignees"@,
            Action::EditIssueAssignees,
            ISSUE_DETAIL,
            seq!["a"@],
        ),
        stands(
            registry::compose_rows()[13],
            "toggle-issue-label"@,
            Action::ToggleIssueLabel,
            ISSUE_LABELS,
            seq!["Space"@],
        ),
        stands(
            registry::compose_rows()[14],
            "open-issue-in-browser"@,
            Action::OpenIssueInBrowser,
            ISSUE_LIST | ISSUE_DETAIL,
            seq!["o"@],
        ),
{
    assert(registry::compose_rows()[0].defaults =~= seq!["Ctrl+S"@, "Ctrl+Enter"@]);
    assert(registry::compose_rows()[1].defaults =~= seq!["Ctrl+E"@]);
    assert(registry::compose_rows()[2].defaults =~= seq!["Tab"@]);
    assert(registry::compose_rows()[3].defaults =~= seq!["r"@]);
    assert(registry::compose_rows()[4].defaults =~= seq!["Tab"@, "f"@]);
    assert(registry::compose_rows()[5].defaults =~= seq!["t"@]);
    assert(registry::compose_rows()[6].defaults =~= seq!["u"@]);
    assert(registry::compose_rows()[7].defaults =~= seq!["Enter"@]);
    assert(registry::compose_rows()[8].defaults =~= seq!["e"@]);
    assert(registry::compose_rows()[9].defaults =~= seq!["c"@]);
    assert(registry::compose_rows()[10].defaults =~= seq!["x"@]);
    assert(registry::compose_rows()[11].defaults =~= seq!["l"@]);
    assert(registry::compose_rows()[12].defaults =~= seq!["a"@]);
    assert(registry::compose_rows()[13].defaults =~= seq!["Space"@]);
    assert(registry::compose_rows()[14].defaults =~= seq!["o"@]);
}

/// Identifiers, actions, contexts and default keys: the file diff viewer.
#[verifier::rlimit(40)]
pub proof fn law_default_keys_diff()
    ensures
        registry::diff_rows().len() == 21,
        stands(
            registry::diff_rows()[0],
            "scroll-up"@,
            Action::ScrollUp,
            FILE_DIFF,
            seq!["Up"@, "k"@],
        ),
        stands(
            registry::diff_rows()[1],
            "scroll-down"@,
            Action::ScrollDown,
            FILE_DIFF,
            seq!["Down"@, "j"@],
        ),
        stands(
            registry::diff_rows()[2],
            "scroll-page-up"@,
            Action::ScrollPageUp,
            FILE_DIFF,
            seq!["Ctrl+U"@],
        ),
        stands(
            registry::diff_rows()[3],
            "scroll-page-down"@,
            Action::ScrollPageDown,
            FILE_DIFF,
            seq!["Ctrl+D"@],
        ),
        stands(
            registry::diff_rows()[4],
            "scroll-to-top"@,
            Action::ScrollToTop,
            FILE_DIFF,
            seq!["g"@, "Home"@],
        ),
        stands(
            registry::diff_rows()[5],
            "scroll-to-bottom"@,
            Action::ScrollToBottom,
            FILE_DIFF,
            seq!["Shift+G"@, "End"@],
        ),
        stands(
            registry::diff_rows()[6],
            "scroll-left"@,
            Action::ScrollLeft,
            FILE_DIFF,
            seq!["h"@, "Left"@],
        ),
        stands(
            registry::diff_rows()[7],
            "scroll-right"@,
            Action::ScrollRight,
            FILE_DIFF,
            seq!["l"@, "Right"@],
        ),
        stands(
            registry::diff_rows()[8],
            "scroll-to-line-start"@,
            Action::ScrollToLineStart,
            FILE_DIFF,
            seq!["0"@],
        ),
        stands(
            registry::diff_rows()[9],
            "next-hunk"@,
            Action::NextHunk,
            FILE_DIFF,
            seq!["]"@],
        ),
        stands(
            registry::diff_rows()[10],
            "previous-hunk"@,
            Action::PrevHunk,
            FILE_DIFF,
            seq!["["@],
        ),
        stands(
            registry::diff_rows()[11],
            "next-file"@,
            Action::NextFile,
            FILE_DIFF,
            seq!["n"@],
        ),
        stands(
            registry::diff_rows()[12],
            "previous-file"@,
            Action::PrevFile,
            FILE_DIFF,
            seq!["Shift+N"@],
        ),
        stands(
            registry::diff_rows()[13],
            "stage-hunk"@,
            Action::StageHunk,
            FILE_DIFF,
            seq!["s"@],
        ),
        stands(
            registry::diff_rows()[14],
            "unstage-hunk"@,
            Action::UnstageHunk,
            FILE_DIFF,
            seq!["u"@],
        ),
        stands(
            registry::diff_rows()[15],
            "discard-hunk"@,
            Action::DiscardHunk,
            FILE_DIFF,
            seq!["x"@],
        ),
        stands(
            registry::diff_rows()[16],
            "toggle-diff-wrap"@,
            Action::ToggleDiffWrap,
            FILE_DIFF,
            seq!["Ctrl+Alt+W"@],
        ),
        stands(
            registry::diff_rows()[17],
            "create-pull-request"@,
            Action::CreatePullRequest,
            GRAPH,
            Seq::<Seq<char>>::empty(),
        ),
        stands(
            registry::diff_rows()[18],
            "merge-pull-request"@,
            Action::MergePullRequest,
            GRAPH,
            Seq::<Seq<char>>::empty(),
        ),
        stands(
            registry::diff_rows()[19],
            "load-more-commits"@,
            Action::LoadMoreCommits,
            GRAPH,
            Seq::<Seq<char>>::empty(),
        ),
        stands(
            registry::diff_rows()[20],
            "load-all-commits"@,
            Action::LoadAllCommits,
            GRAPH,
            Seq::<Seq<char>>::empty(),
        ),
{
    assert(registry::diff_rows()[0].defaults =~= seq!["Up"@, "k"@]);
    assert(registry::diff_rows()[1].defaults =~= seq!["Down"@, "j"@]);
    assert(registry::diff_rows()[2].defaults =~= seq!["Ctrl+U"@]);
    assert(registry::diff_rows()[3].defaults =~= seq!["Ctrl+D"@]);
    assert(registry::diff_rows()[4].defaults =~= seq!["g"@, "Home"@]);
    assert(registry::diff_rows()[5].defaults =~= seq!["Shift+G"@, "End"@]);
    assert(registry::diff_rows()[6].defaults =~= seq!["h"@, "Left"@]);
    assert(registry::diff_rows()[7].defaults =~= seq!["l"@, "Right"@]);
    assert(registry::diff_rows()[8].defaults =~= seq!["0"@]);
    assert(registry::diff_rows()[9].defaults =~= seq!["]"@]);
    assert(registry::diff_rows()[10].defaults =~= seq!["["@]);
    assert(registry::diff_rows()[11].defaults =~= seq!["n"@]);
    assert(registry::diff_rows()[12].defaults =~= seq!["Shift+N"@]);
    assert(registry::diff_rows()[13].defaults =~= seq!["s"@]);
    assert(registry::diff_rows()[14].defaults =~= seq!["u"@]);
    assert(registry::diff_rows()[15].defaults =~= seq!["x"@]);
    assert(registry::diff_rows()[16].defaults =~= seq!["Ctrl+Alt+W"@]);
    assert(registry::diff_rows()[17].defaults =~= Seq::<Seq<char>>::empty());
    assert(registry::diff_rows()[18].defaults =~= Seq::<Seq<char>>::empty());
    assert(registry::diff_rows()[19].defaults =~= Seq::<Seq<char>>::empty());
    assert(registry::diff_rows()[20].defaults =~= Seq::<Seq<char>>::empty());
}

/// The context that each mode puts the keyboard in.
pub proof fn law_contexts_of_modes(
    mode: AppMode,
    panel: FocusedPanel,
    editing: bool,
    files_filter: bool,
    commit_filter: bool,
)
    ensures
        ({
            let scope = keymap::local_scope(mode, panel, editing, files_filter, commit_filter);
            match mode {
                AppMode::Normal => {
                    &&& panel == FocusedPanel::Graph && !commit_filter ==> scope == GRAPH
                    &&& panel == FocusedPanel::Graph && commit_filter ==> scope == INPUT
                    &&& panel == FocusedPanel::Files && !files_filter ==> scope == FILES
                    &&& panel == FocusedPanel::Files && files_filter ==> scope == INPUT
                    &&& panel == FocusedPanel::CommitDetail && !editing ==> scope == DETAIL
                    &&& panel == FocusedPanel::CommitDetail && editing ==> scope == EDITOR
                },
                AppMode::Help => scope == HELP,
                AppMode::Input { action: InputAction::Search } => scope == SEARCH,
                AppMode::Input { action: InputAction::Prompt } => scope == INPUT,
                AppMode::Confirm => scope == CONFIRM,
                AppMode::Error => scope == MENU,
                AppMode::CommitMenu => scope == MENU,
                AppMode::MetadataMenu => scope == MENU,
                AppMode::Settings => scope == SETTINGS,
                AppMode::PullDivergence => scope == MENU,
                AppMode::CiChecks => scope == CI_CHECKS,
                AppMode::PrThread => scope == PR_THREAD,
                AppMode::PrCompose => scope == COMPOSE,
                AppMode::PrMergePicker => scope == MENU,
                AppMode::PrReviewPicker => scope == MENU,
                AppMode::RebasePlan => scope == REBASE_PLAN,
                AppMode::IssueList => scope == ISSUE_LIST,
                AppMode::IssueDetail => scope == ISSUE_DETAIL,
                AppMode::IssueCompose => scope == COMPOSE,
                AppMode::IssueLabelPicker => scope == ISSUE_LABELS,
                AppMode::IssueLabelFilter => scope == ISSUE_LABELS,
                AppMode::BranchPicker => scope == MENU,
                AppMode::BranchDeletePicker => scope == MENU,
                AppMode::TagPicker => scope == MENU,
                AppMode::RemotePicker => scope == MENU,
                AppMode::BranchFilter => scope == BRANCH_FILTER,
                AppMode::FileDiff => scope == FILE_DIFF,
                AppMode::FileHistory => scope == MENU,
                AppMode::CommandPalette => scope == PALETTE,
            }
        }),
{
}

/// An event triggers a binding exactly if the key goes down or is held, Shift,
/// Control and Alt are held exactly as the binding says, and the key is the same, a
/// letter in either case.
pub proof fn law_when_a_binding_fires(b: KeyBinding, event: KeyEvent)
    requires
        !b.modifiers.other,
    ensures
        event.kind == KeyEventKind::Release ==> !b.fires(event),
        event.modifiers.shift != b.modifiers.shift ==> !b.fires(event),
        event.modifiers.control != b.modifiers.control ==> !b.fires(event),
        event.modifiers.alt != b.modifiers.alt ==> !b.fires(event),
        event.kind != KeyEventKind::Release && event.modifiers.shift == b.modifiers.shift && event.modifiers.control
            == b.modifiers.control && event.modifiers.alt == b.modifiers.alt ==> {
            &&& event.code == b.code ==> b.fires(event)
            &&& !(event.code is Char) && event.code != b.code ==> !b.fires(event)
            &&& event.code is Char && !(b.code is Char) ==> !b.fires(event)
            &&& event.code is Char && b.code is Char ==> (b.fires(event) <==> text::lower_char(event.code->Char_0)
                == text::lower_char(b.code->Char_0))
        },
{
}

/// The names of keys as they are shown.
pub proof fn law_names_of_keys(n: u8, c: char)
    ensures
        binding::key_name(KeyCode::Enter) == "Enter"@,
        binding::key_name(KeyCode::Esc) == "Esc"@,
        binding::key_name(KeyCode::Tab) == "Tab"@,
        binding::key_name(KeyCode::BackTab) == "BackTab"@,
        binding::key_name(KeyCode::Backspace) == "Backspace"@,
        binding::key_name(KeyCode::Delete) == "Delete"@,
        binding::key_name(KeyCode::Insert) == "Insert"@,
        binding::key_name(KeyCode::Up) == "Up"@,
        binding::key_name(KeyCode::Down) == "Down"@,
        binding::key_name(KeyCode::Left) == "Left"@,
        binding::key_name(KeyCode::Right) == "Right"@,
        binding::key_name(KeyCode::Home) == "Home"@,
        binding::key_name(KeyCode::End) == "End"@,
        binding::key_name(KeyCode::PageUp) == "PageUp"@,
        binding::key_name(KeyCode::PageDown) == "PageDown"@,
        binding::key_name(KeyCode::F(n)) == "F"@ + text::decimal(n as nat),
        binding::key_name(KeyCode::Char(' ')) == "Space"@,
        'a' <= c <= 'z' ==> binding::key_name(KeyCode::Char(c)).len() == 1 && binding::key_name(
            KeyCode::Char(c),
        )[0] as u32 == c as u32 - 32,
        c != ' ' && !('a' <= c <= 'z') ==> binding::key_name(KeyCode::Char(c)) == seq![c],
{
}

/// A binding is shown with its modifiers in front, Control before Alt before Shift.
pub proof fn law_bindings_are_shown(code: KeyCode)
    ensures
        ({
            let name = binding::key_name(code);
            let show = |shift: bool, control: bool, alt: bool|
                (KeyBinding { code, modifiers: KeyModifiers { shift, control, alt, other: false } }).shown();
            &&& show(false, false, false) == name
            &&& show(false, true, false) == "Ctrl+"@ + name
            &&& show(false, false, true) == "Alt+"@ + name
            &&& show(true, false, false) == "Shift+"@ + name
            &&& show(false, true, true) == "Ctrl+"@ + ("Alt+"@ + name)
            &&& show(true, true, false) == "Ctrl+"@ + ("Shift+"@ + name)
            &&& show(true, false, true) == "Alt+"@ + ("Shift+"@ + name)
            &&& show(true, true, true) == "Ctrl+"@ + ("Alt+"@ + ("Shift+"@ + name))
        }),
{
    let name = binding::key_name(code);
    let show = |shift: bool, control: bool, alt: bool|
        (KeyBinding { code, modifiers: KeyModifiers { shift, control, alt, other: false } }).shown();
    assert(show(false, false, false) =~= name);
    assert(show(false, true, false) =~= "Ctrl+"@ + name);
    assert(show(false, false, true) =~= "Alt+"@ + name);
    assert(show(true, false, false) =~= "Shift+"@ + name);
    assert(show(false, true, true) =~= "Ctrl+"@ + ("Alt+"@ + name));
    assert(show(true, true, false) =~= "Ctrl+"@ + ("Shift+"@ + name));
    assert(show(true, false, true) =~= "Alt+"@ + ("Shift+"@ + name));
    assert(show(true, true, true) =~= "Ctrl+"@ + ("Alt+"@ + ("Shift+"@ + name)));
}

/// What is wrong with a binding: it is empty, holds white space, has an empty part,
/// no key, two keys, a modifier twice or one behind the key.
pub proof fn law_bindings_in_error(source: Seq<char>, parts: Seq<Seq<char>>, m: KeyModifiers, code: KeyCode, i: int)
    ensures
        text::blank(source) ==> binding::parsed(source) == Err::<KeyBinding, Seq<char>>("binding is empty"@),
        0 <= i < text::trim(source).len() && text::is_space(text::trim(source)[i]) ==> binding::parsed(source)
            == Err::<KeyBinding, Seq<char>>("multi-key sequences are not supported"@),
        parts.len() == 0 ==> binding::read_parts(parts, m, None) == Err::<KeyBinding, Seq<char>>(
            "binding has modifiers but no key"@,
        ),
        parts.len() > 0 && binding::modifier_named(parts[0]) is Some ==> binding::read_parts(parts, m, Some(code))
            == Err::<KeyBinding, Seq<char>>("modifier '"@ + parts[0] + "' appears after the key"@),
        parts.len() > 0 && binding::modifier_named(parts[0]) is None ==> binding::read_parts(parts, m, Some(code))
            == Err::<KeyBinding, Seq<char>>("a binding must contain exactly one key"@),
        parts.len() > 0 && (binding::modifier_named(parts[0]) == Some(binding::Modifier::Control) && m.control
            || binding::modifier_named(parts[0]) == Some(binding::Modifier::Alt) && m.alt || binding::modifier_named(
            parts[0],
        ) == Some(binding::Modifier::Shift) && m.shift) ==> binding::read_parts(parts, m, None) == Err::<
            KeyBinding,
            Seq<char>,
        >("modifier '"@ + parts[0] + "' is repeated"@),
{
}

/// What the parts of a binding add: a modifier is held from there on, a key is the
/// key, and at the end a letter under Shift is a capital.
pub proof fn law_parts_of_a_binding(parts: Seq<Seq<char>>, m: KeyModifiers, code: KeyCode, c: char)
    ensures
        parts.len() == 0 && !m.shift ==> binding::read_parts(parts, m, Some(code)) == Ok::<KeyBinding, Seq<char>>(
            KeyBinding { code, modifiers: m },
        ),
        parts.len() == 0 && !(code is Char) ==> binding::read_parts(parts, m, Some(code)) == Ok::<
            KeyBinding,
            Seq<char>,
        >(KeyBinding { code, modifiers: m }),
        parts.len() == 0 && m.shift && 'a' <= c <= 'z' ==> (binding::read_parts(parts, m, Some(KeyCode::Char(c)))
            matches Ok(b) && b.modifiers == m && b.code is Char && b.code->Char_0 as u32 == c as u32 - 32),
        parts.len() > 0 && binding::modifier_named(parts[0]) == Some(binding::Modifier::Control) && !m.control
            ==> binding::read_parts(parts, m, None) == binding::read_parts(
            parts.skip(1),
            KeyModifiers { control: true, ..m },
            None,
        ),
        parts.len() > 0 && binding::modifier_named(parts[0]) == Some(binding::Modifier::Alt) && !m.alt
            ==> binding::read_parts(parts, m, None) == binding::read_parts(
            parts.skip(1),
            KeyModifiers { alt: true, ..m },
            None,
        ),
        parts.len() > 0 && binding::modifier_named(parts[0]) == Some(binding::Modifier::Shift) && !m.shift
            ==> binding::read_parts(parts, m, None) == binding::read_parts(
            parts.skip(1),
            KeyModifiers { shift: true, ..m },
            None,
        ),
        parts.len() > 0 && binding::modifier_named(parts[0]) is None && binding::key_named(parts[0]) == Ok::<
            KeyCode,
            Seq<char>,
        >(code) ==> binding::read_parts(parts, m, None) == binding::read_parts(parts.skip(1), m, Some(code)),
{
}

/// The shortcuts of an entry: each that reads counts once and in order; the first
/// that does not spoils the entry, with the reason.
pub proof fn law_shortcuts_of_an_entry(items: Seq<Option<Seq<char>>>, source: Seq<char>, keys: Seq<KeyBinding>)
    requires
        keymap::gathered(items) == Ok::<Seq<KeyBinding>, Seq<char>>(keys),
    ensures
        keymap::gathered(items.push(None)) == Err::<Seq<KeyBinding>, Seq<char>>("every shortcut must be a string"@),
        match binding::parsed(source) {
            Err(reason) => keymap::gathered(items.push(Some(source))) == Err::<Seq<KeyBinding>, Seq<char>>(
                "'"@ + source + "' is invalid: "@ + reason,
            ),
            Ok(key) => {
                &&& keys.contains(key) ==> keymap::gathered(items.push(Some(source))) == Ok::<
                    Seq<KeyBinding>,
                    Seq<char>,
                >(keys)
                &&& !keys.contains(key) ==> keymap::gathered(items.push(Some(source))) == Ok::<
                    Seq<KeyBinding>,
                    Seq<char>,
                >(keys.push(key))
            },
        },
{
    assert(items.push(None).drop_last() =~= items);
    assert(items.push(Some(source)).drop_last() =~= items);
}

/// The default keys of a command are those that its texts read as, in order.
pub proof fn law_default_keys_are_read(items: Seq<Seq<char>>, item: Seq<char>)
    ensures
        keymap::defaults_of(Seq::<Seq<char>>::empty()).len() == 0,
        match binding::parsed(item) {
            Ok(key) => keymap::defaults_of(items.push(item)) == keymap::defaults_of(items).push(key),
            Err(_) => keymap::defaults_of(items.push(item)) == keymap::defaults_of(items),
        },
{
    assert(items.push(item).drop_last() =~= items);
}

/// An entry under no known name, one that is no list, and one with a bad shortcut
/// are warned about, each in its own words. Any other gives the command of that name
/// the keys of the entry.
pub proof fn law_entries(k: KeymapView, table: Seq<EntryView>, e: EntryView)
    ensures
        ({
            let after = k.configure(table, e);
            let known = exists|i: int|
                0 <= i < registry::registry().len() && (#[trigger] registry::registry()[i]).id == keymap::canonical(
                    e.id,
                );
            &&& !known ==> after.overrides == k.overrides && after.warnings == k.warnings.push(
                WarningView { entry: e.id, reason: "unknown action identifier"@ },
            )
            &&& known && e.shortcuts is None ==> after.overrides == k.overrides && after.warnings == k.warnings.push(
                WarningView { entry: e.id, reason: "expected a list of shortcut strings"@ },
            )
            &&& known && e.shortcuts is Some && keymap::gathered(e.shortcuts->0) is Err ==> after.overrides
                == k.overrides && after.warnings == k.warnings.push(
                WarningView { entry: e.id, reason: keymap::gathered(e.shortcuts->0)->Err_0 },
            )
            &&& known && e.shortcuts is Some && keymap::gathered(e.shortcuts->0) is Ok ==> exists|i: int|
                0 <= i < registry::registry().len() && (#[trigger] registry::registry()[i]).id == keymap::canonical(
                    e.id,
                ) && after.overrides == k.overrides.push(
                    OverrideView {
                        id: registry::registry()[i].id,
                        action: registry::registry()[i].action,
                        scopes: registry::registry()[i].scopes,
                        bindings: keymap::gathered(e.shortcuts->0)->Ok_0,
                    },
                ) && after.warnings == k.warnings + keymap::conflicts(
                    k.overrides,
                    table,
                    registry::registry()[i],
                    e.id,
                    keymap::gathered(e.shortcuts->0)->Ok_0,
                )
        }),
{
    let id = keymap::canonical(e.id);
    let p = |i: int| registry::registry()[i].id == id;
    search::lemma_first_such_holds(registry::registry().len() as int, p);
    match keymap::position(id) {
        Some(i) => {
            assert(registry::registry()[i].id == id);
        },
        None => {
            assert forall|i: int| 0 <= i < registry::registry().len() implies (#[trigger] registry::registry()[i]).id
                != id by {
                assert(!p(i));
            }
        },
    }
}

/// A key is contested by every earlier choice, and by every default that was left
/// alone, in a context that both share; the warning names the key and who wins.
pub proof fn law_contested_keys(
    overrides: Seq<OverrideView>,
    o: OverrideView,
    rows: Seq<DescriptorView>,
    r: DescriptorView,
    table: Seq<EntryView>,
    d: DescriptorView,
    entry: Seq<char>,
    key: KeyBinding,
)
    ensures
        ({
            let before = keymap::override_conflicts(overrides, d, entry, key);
            let after = keymap::override_conflicts(overrides.push(o), d, entry, key);
            &&& o.scopes & d.scopes != 0 && o.bindings.contains(key) ==> after == before.push(
                WarningView {
                    entry,
                    reason: "conflict: '"@ + o.id + "' and '"@ + d.id + "' both use "@ + key.shown() + "; '"@ + d.id
                        + "' wins"@,
                },
            )
            &&& o.scopes & d.scopes == 0 || !o.bindings.contains(key) ==> after == before
        }),
        ({
            let before = keymap::default_conflicts(rows, table, d, entry, key);
            let after = keymap::default_conflicts(rows.push(r), table, d, entry, key);
            let left_alone = forall|i: int| 0 <= i < table.len() ==> (#[trigger] table[i]).id != r.id;
            let contested = r.id != d.id && r.scopes & d.scopes != 0 && left_alone && keymap::defaults_of(
                r.defaults,
            ).contains(key);
            &&& contested ==> after == before.push(
                WarningView {
                    entry,
                    reason: "conflict: '"@ + r.id + "' default and '"@ + d.id + "' both use "@ + key.shown() + "; '"@
                        + d.id + "' wins"@,
                },
            )
            &&& !contested ==> after == before
        }),
{
    assert(overrides.push(o).drop_last() =~= overrides);
    assert(rows.push(r).drop_last() =~= rows);
}

/// Every key of an entry is looked at, first against earlier choices and then
/// against all defaults.
pub proof fn law_every_key_is_looked_at(
    overrides: Seq<OverrideView>,
    table: Seq<EntryView>,
    d: DescriptorView,
    entry: Seq<char>,
    keys: Seq<KeyBinding>,
    key: KeyBinding,
)
    ensures
        keymap::conflicts(overrides, table, d, entry, Seq::<KeyBinding>::empty()).len() == 0,
        keymap::conflicts(overrides, table, d, entry, keys.push(key)) == keymap::conflicts(
            overrides,
            table,
            d,
            entry,
            keys,
        ) + keymap::override_conflicts(overrides, d, entry, key) + keymap::default_conflicts(
            registry::registry(),
            table,
            d,
            entry,
            key,
        ),
{
    assert(keys.push(key).drop_last() =~= keys);
}

/// The entries of a table count in their order.
pub proof fn law_entries_count_in_order(table: Seq<EntryView>, n: int)
    requires
        0 <= n < table.len(),
    ensures
        keymap::resolved(table, 0).overrides.len() == 0,
        keymap::resolved(table, 0).warnings.len() == 0,
        keymap::resolved(table, n + 1) == keymap::resolved(table, n).configure(table, table[n]),
{
}

/// The last choice for a command is the one in effect; without one its defaults
/// are, and an unknown command has no keys.
pub proof fn law_keys_in_effect(overrides: Seq<OverrideView>, o: OverrideView, id: Seq<char>, i: int)
    ensures
        keymap::latest(Seq::<OverrideView>::empty(), id) is None,
        o.id == id ==> keymap::latest(overrides.push(o), id) == Some(o),
        o.id != id ==> keymap::latest(overrides.push(o), id) == keymap::latest(overrides, id),
        keymap::latest(overrides, keymap::canonical(id)) matches Some(l) ==> keymap::effective(overrides, id)
            == l.bindings,
        keymap::latest(overrides, keymap::canonical(id)) is None && keymap::position(keymap::canonical(id)) == Some(i)
            ==> keymap::effective(overrides, id) == keymap::defaults_of(registry::registry()[i].defaults),
        keymap::latest(overrides, keymap::canonical(id)) is None && keymap::position(keymap::canonical(id)) is None
            ==> keymap::effective(overrides, id).len() == 0,
{
    assert(overrides.push(o).drop_last() =~= overrides);
}

/// Keys are shown in order, with a slash between any two.
pub proof fn law_keys_are_shown(keys: Seq<KeyBinding>, key: KeyBinding)
    ensures
        keymap::shown_keys(Seq::<KeyBinding>::empty()).len() == 0,
        keymap::shown_keys(seq![key]) == key.shown(),
        keys.len() > 0 ==> keymap::shown_keys(keys.push(key)) == keymap::shown_keys(keys) + " / "@ + key.shown(),
{
    assert(keys.push(key).drop_last() =~= keys);
}

/// A key goes to the last choice that it triggers in an active context; one that it
/// does not trigger, or that is not reachable, leaves it to the earlier ones.
pub proof fn law_where_a_key_goes(overrides: Seq<OverrideView>, o: OverrideView, active: u32, key: KeyEvent)
    ensures
        keymap::routed(Seq::<OverrideView>::empty(), active, key) is None,
        ({
            let triggered = exists|i: int| 0 <= i < o.bindings.len() && (#[trigger] o.bindings[i]).fires(key);
            &&& triggered && o.scopes & active != 0 ==> keymap::routed(overrides.push(o), active, key) == Some(o.action)
            &&& !triggered || o.scopes & active == 0 ==> keymap::routed(overrides.push(o), active, key)
                == keymap::routed(overrides, active, key)
        }),
{
    assert(overrides.push(o).drop_last() =~= overrides);
}

/// The names of the keys that few keyboards have, as they are shown.
pub proof fn law_names_of_rare_keys()
    ensures
        binding::key_name(KeyCode::Null) == "Null"@,
        binding::key_name(KeyCode::CapsLock) == "CapsLock"@,
        binding::key_name(KeyCode::ScrollLock) == "ScrollLock"@,
        binding::key_name(KeyCode::NumLock) == "NumLock"@,
        binding::key_name(KeyCode::PrintScreen) == "PrintScreen"@,
        binding::key_name(KeyCode::Pause) == "Pause"@,
        binding::key_name(KeyCode::Menu) == "Menu"@,
        binding::key_name(KeyCode::KeypadBegin) == "KeypadBegin"@,
        binding::key_name(KeyCode::Media(MediaKeyCode::Play)) == "Media("@ + "Play"@ + ")"@,
        binding::key_name(KeyCode::Media(MediaKeyCode::Pause)) == "Media("@ + "Pause"@ + ")"@,
        binding::key_name(KeyCode::Media(MediaKeyCode::PlayPause)) == "Media("@ + "PlayPause"@ + ")"@,
        binding::key_name(KeyCode::Media(MediaKeyCode::Reverse)) == "Media("@ + "Reverse"@ + ")"@,
        binding::key_name(KeyCode::Media(MediaKeyCode::Stop)) == "Media("@ + "Stop"@ + ")"@,
        binding::key_name(KeyCode::Media(MediaKeyCode::FastForward)) == "Media("@ + "FastForward"@ + ")"@,
        binding::key_name(KeyCode::Media(MediaKeyCode::Rewind)) == "Media("@ + "Rewind"@ + ")"@,
        binding::key_name(KeyCode::Media(MediaKeyCode::TrackNext)) == "Media("@ + "TrackNext"@ + ")"@,
        binding::key_name(KeyCode::Media(MediaKeyCode::TrackPrevious)) == "Media("@ + "TrackPrevious"@ + ")"@,
        binding::key_name(KeyCode::Media(MediaKeyCode::Record)) == "Media("@ + "Record"@ + ")"@,
        binding::key_name(KeyCode::Media(MediaKeyCode::LowerVolume)) == "Media("@ + "LowerVolume"@ + ")"@,
        binding::key_name(KeyCode::Media(MediaKeyCode::RaiseVolume)) == "Media("@ + "RaiseVolume"@ + ")"@,
        binding::key_name(KeyCode::Media(MediaKeyCode::MuteVolume)) == "Media("@ + "MuteVolume"@ + ")"@,
        binding::key_name(KeyCode::Modifier(ModifierKeyCode::LeftShift)) == "Modifier("@ + "LeftShift"@ + ")"@,
        binding::key_name(KeyCode::Modifier(ModifierKeyCode::LeftControl)) == "Modifier("@ + "LeftControl"@ + ")"@,
        binding::key_name(KeyCode::Modifier(ModifierKeyCode::LeftAlt)) == "Modifier("@ + "LeftAlt"@ + ")"@,
        binding::key_name(KeyCode::Modifier(ModifierKeyCode::LeftSuper)) == "Modifier("@ + "LeftSuper"@ + ")"@,
        binding::key_name(KeyCode::Modifier(ModifierKeyCode::LeftHyper)) == "Modifier("@ + "LeftHyper"@ + ")"@,
        binding::key_name(KeyCode::Modifier(ModifierKeyCode::LeftMeta)) == "Modifier("@ + "LeftMeta"@ + ")"@,
        binding::key_name(KeyCode::Modifier(ModifierKeyCode::RightShift)) == "Modifier("@ + "RightShift"@ + ")"@,
        binding::key_name(KeyCode::Modifier(ModifierKeyCode::RightControl)) == "Modifier("@ + "RightControl"@ + ")"@,
        binding::key_name(KeyCode::Modifier(ModifierKeyCode::RightAlt)) == "Modifier("@ + "RightAlt"@ + ")"@,
        binding::key_name(KeyCode::Modifier(ModifierKeyCode::RightSuper)) == "Modifier("@ + "RightSuper"@ + ")"@,
        binding::key_name(KeyCode::Modifier(ModifierKeyCode::RightHyper)) == "Modifier("@ + "RightHyper"@ + ")"@,
        binding::key_name(KeyCode::Modifier(ModifierKeyCode::RightMeta)) == "Modifier("@ + "RightMeta"@ + ")"@,
        binding::key_name(KeyCode::Modifier(ModifierKeyCode::IsoLevel3Shift)) == "Modifier("@ + "IsoLevel3Shift"@ + ")"@,
        binding::key_name(KeyCode::Modifier(ModifierKeyCode::IsoLevel5Shift)) == "Modifier("@ + "IsoLevel5Shift"@ + ")"@,
{
}

} // verus!
