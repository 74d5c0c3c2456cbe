//! The table of commands as a whole.
use vstd::prelude::*;

use crate::action::Action;
use crate::keymap;
use crate::keymap::registry;
use crate::search;

verus! {

/// What tells identifiers apart: the length, the first character, the one in the
/// middle and the last but one.
spec fn marks(id: Seq<char>) -> (int, char, char, char) {
    (id.len() as int, id[0], id[id.len() as int / 2], id[id.len() - 2])
}

/// The place of an identifier in the table.
spec fn place(id: Seq<char>) -> int {
    if id == "force-quit"@ {
        0
    } else if id == "report-keifu-issue"@ {
        1
    } else if id == "new-issue"@ {
        2
    } else if id == "toggle-debug-keys"@ {
        3
    } else if id == "toggle-layout"@ {
        4
    } else if id == "full-update"@ {
        5
    } else if id == "open-command-palette"@ {
        6
    } else if id == "search"@ {
        7
    } else if id == "start-commit-filter"@ {
        8
    } else if id == "open-settings"@ {
        9
    } else if id == "open-issue-list"@ {
        10
    } else if id == "toggle-files-pane"@ {
        11
    } else if id == "toggle-commit-pane"@ {
        12
    } else if id == "panel-left"@ {
        13
    } else if id == "panel-right"@ {
        14
    } else if id == "move-up"@ {
        15
    } else if id == "move-down"@ {
        16
    } else if id == "page-up"@ {
        17
    } else if id == "page-down"@ {
        18
    } else if id == "go-to-top"@ {
        19
    } else if id == "go-to-bottom"@ {
        20
    } else if id == "same-lane-up"@ {
        21
    } else if id == "same-lane-down"@ {
        22
    } else if id == "jump-to-head"@ {
        23
    } else if id == "next-branch"@ {
        24
    } else if id == "previous-branch"@ {
        25
    } else if id == "open-commit-menu"@ {
        26
    } else if id == "mark-for-compare"@ {
        27
    } else if id == "jump-to-merge-base"@ {
        28
    } else if id == "undo-last-operation"@ {
        29
    } else if id == "open-pr"@ {
        30
    } else if id == "open-ci-checks"@ {
        31
    } else if id == "open-pr-thread"@ {
        32
    } else if id == "open-review-picker"@ {
        33
    } else if id == "open-metadata-menu"@ {
        34
    } else if id == "toggle-trace"@ {
        35
    } else if id == "shrink-graph-width"@ {
        36
    } else if id == "widen-graph-width"@ {
        37
    } else if id == "create-branch"@ {
        38
    } else if id == "delete-branch"@ {
        39
    } else if id == "fetch"@ {
        40
    } else if id == "pull"@ {
        41
    } else if id == "push"@ {
        42
    } else if id == "open-file-diff"@ {
        43
    } else if id == "open-branch-filter"@ {
        44
    } else if id == "toggle-remote-branches"@ {
        45
    } else if id == "toggle-merged-branches"@ {
        46
    } else if id == "refresh"@ {
        47
    } else if id == "toggle-help"@ {
        48
    } else if id == "quit"@ {
        49
    } else if id == "toggle-stage"@ {
        50
    } else if id == "stage-all"@ {
        51
    } else if id == "unstage-all"@ {
        52
    } else if id == "add-to-gitignore"@ {
        53
    } else if id == "archive-file"@ {
        54
    } else if id == "trash-file"@ {
        55
    } else if id == "undo-last-file-operation"@ {
        56
    } else if id == "toggle-folder-view"@ {
        57
    } else if id == "restore-file"@ {
        58
    } else if id == "next-conflict"@ {
        59
    } else if id == "previous-conflict"@ {
        60
    } else if id == "accept-ours"@ {
        61
    } else if id == "accept-theirs"@ {
        62
    } else if id == "continue-operation"@ {
        63
    } else if id == "abort-operation"@ {
        64
    } else if id == "open-with-default"@ {
        65
    } else if id == "copy-path"@ {
        66
    } else if id == "file-history"@ {
        67
    } else if id == "start-files-filter"@ {
        68
    } else if id == "focus-graph"@ {
        69
    } else if id == "start-editing"@ {
        70
    } else if id == "amend-commit"@ {
        71
    } else if id == "stash-staged"@ {
        72
    } else if id == "toggle-commit-detail-wrap"@ {
        73
    } else if id == "commit-changes"@ {
        74
    } else if id == "stop-editing"@ {
        75
    } else if id == "editor-newline"@ {
        76
    } else if id == "editor-backspace"@ {
        77
    } else if id == "editor-delete"@ {
        78
    } else if id == "editor-backspace-word"@ {
        79
    } else if id == "editor-delete-word"@ {
        80
    } else if id == "editor-kill-line"@ {
        81
    } else if id == "menu-select"@ {
        82
    } else if id == "cancel"@ {
        83
    } else if id == "confirm"@ {
        84
    } else if id == "confirm-delete-branch-and-remote"@ {
        85
    } else if id == "input-backspace"@ {
        86
    } else if id == "input-backspace-word"@ {
        87
    } else if id == "input-clear-line"@ {
        88
    } else if id == "select-all"@ {
        89
    } else if id == "select-none"@ {
        90
    } else if id == "rebase-move-commit-up"@ {
        91
    } else if id == "rebase-move-commit-down"@ {
        92
    } else if id == "rebase-pick"@ {
        93
    } else if id == "rebase-squash"@ {
        94
    } else if id == "rebase-fixup"@ {
        95
    } else if id == "rebase-reword"@ {
        96
    } else if id == "rebase-drop"@ {
        97
    } else if id == "help-scroll-up"@ {
        98
    } else if id == "help-scroll-down"@ {
        99
    } else if id == "help-page-up"@ {
        100
    } else if id == "help-page-down"@ {
        101
    } else if id == "help-scroll-to-top"@ {
        102
    } else if id == "help-scroll-to-bottom"@ {
        103
    } else if id == "toggle-status-bar"@ {
        104
    } else if id == "search-select-up"@ {
        105
    } else if id == "search-select-down"@ {
        106
    } else if id == "search-select-up-quiet"@ {
        107
    } else if id == "search-select-down-quiet"@ {
        108
    } else if id == "submit-compose"@ {
        109
    } else if id == "external-edit"@ {
        110
    } else if id == "toggle-issue-clipboard-image"@ {
        111
    } else if id == "refresh-issues"@ {
        112
    } else if id == "cycle-issue-filter"@ {
        113
    } else if id == "open-issue-label-filter"@ {
        114
    } else if id == "toggle-unblocked-only"@ {
        115
    } else if id == "open-issue-detail"@ {
        116
    } else if id == "edit-issue"@ {
        117
    } else if id == "comment-on-issue"@ {
        118
    } else if id == "toggle-issue-state"@ {
        119
    } else if id == "edit-issue-labels"@ {
        120
    } else if id == "edit-issue-assignees"@ {
        121
    } else if id == "toggle-issue-label"@ {
        122
    } else if id == "open-issue-in-browser"@ {
        123
    } else if id == "scroll-up"@ {
        124
    } else if id == "scroll-down"@ {
        125
    } else if id == "scroll-page-up"@ {
        126
    } else if id == "scroll-page-down"@ {
        127
    } else if id == "scroll-to-top"@ {
        128
    } else if id == "scroll-to-bottom"@ {
        129
    } else if id == "scroll-left"@ {
        130
    } else if id == "scroll-right"@ {
        131
    } else if id == "scroll-to-line-start"@ {
        132
    } else if id == "next-hunk"@ {
        133
    } else if id == "previous-hunk"@ {
        134
    } else if id == "next-file"@ {
        135
    } else if id == "previous-file"@ {
        136
    } else if id == "stage-hunk"@ {
        137
    } else if id == "unstage-hunk"@ {
        138
    } else if id == "discard-hunk"@ {
        139
    } else if id == "toggle-diff-wrap"@ {
        140
    } else if id == "create-pull-request"@ {
        141
    } else if id == "merge-pull-request"@ {
        142
    } else if id == "load-more-commits"@ {
        143
    } else if id == "load-all-commits"@ {
        144
    } else {
        -1
    }
}

/// The place of an action in the table.
spec fn action_place(action: Action) -> int {
    match action {
        Action::ForceQuit => 0,
        Action::ReportKeifuIssue => 1,
        Action::NewIssue => 2,
        Action::ToggleDebugKeys => 3,
        Action::ToggleLayout => 4,
        Action::FullUpdate => 5,
        Action::OpenCommandPalette => 6,
        Action::Search => 7,
        Action::StartCommitFilter => 8,
        Action::OpenSettings => 9,
        Action::OpenIssueList => 10,
        Action::ToggleFilesPane => 11,
        Action::ToggleCommitPane => 12,
        Action::PanelLeft => 13,
        Action::PanelRight => 14,
        Action::MoveUp => 15,
        Action::MoveDown => 16,
        Action::PageUp => 17,
        Action::PageDown => 18,
        Action::GoToTop => 19,
        Action::GoToBottom => 20,
        Action::SameLaneUp => 21,
        Action::SameLaneDown => 22,
        Action::JumpToHead => 23,
        Action::NextBranch => 24,
        Action::PrevBranch => 25,
        Action::OpenCommitMenu => 26,
        Action::MarkForCompare => 27,
        Action::JumpToMergeBase => 28,
        Action::UndoLastOp => 29,
        Action::OpenPr => 30,
        Action::OpenCiChecks => 31,
        Action::OpenPrThread => 32,
        Action::OpenReviewPicker => 33,
        Action::OpenMetadataMenu => 34,
        Action::ToggleTrace => 35,
        Action::ShrinkGraphWidth => 36,
        Action::WidenGraphWidth => 37,
        Action::CreateBranch => 38,
        Action::DeleteBranch => 39,
        Action::Fetch => 40,
        Action::Pull => 41,
        Action::Push => 42,
        Action::OpenFileDiff => 43,
        Action::OpenBranchFilter => 44,
        Action::ToggleRemoteBranches => 45,
        Action::ToggleMergedBranches => 46,
        Action::Refresh => 47,
        Action::ToggleHelp => 48,
        Action::Quit => 49,
        Action::ToggleStage => 50,
        Action::StageAll => 51,
        Action::UnstageAll => 52,
        Action::AddToGitignore => 53,
        Action::ArchiveFile => 54,
        Action::TrashFile => 55,
        Action::UndoLastFileOp => 56,
        Action::ToggleFolderView => 57,
        Action::RestoreFile => 58,
        Action::NextConflict => 59,
        Action::PrevConflict => 60,
        Action::AcceptOurs => 61,
        Action::AcceptTheirs => 62,
        Action::ContinueOperation => 63,
        Action::AbortOperation => 64,
        Action::OpenWithDefault => 65,
        Action::CopyPath => 66,
        Action::FileHistory => 67,
        Action::StartFilesFilter => 68,
        Action::FocusGraph => 69,
        Action::StartEditing => 70,
        Action::AmendCommit => 71,
        Action::StashStaged => 72,
        Action::ToggleCommitDetailWrap => 73,
        Action::CommitChanges => 74,
        Action::StopEditing => 75,
        Action::EditorNewline => 76,
        Action::EditorBackspace => 77,
        Action::EditorDelete => 78,
        Action::EditorBackspaceWord => 79,
        Action::EditorDeleteWord => 80,
        Action::EditorKillLine => 81,
        Action::MenuSelect => 82,
        Action::Cancel => 83,
        Action::Confirm => 84,
        Action::ConfirmDeleteBranchAndRemote => 85,
        Action::InputBackspace => 86,
        Action::InputBackspaceWord => 87,
        Action::InputClearLine => 88,
        Action::SelectAll => 89,
        Action::SelectNone => 90,
        Action::RebaseMoveCommitUp => 91,
        Action::RebaseMoveCommitDown => 92,
        Action::RebasePick => 93,
        Action::RebaseSquash => 94,
        Action::RebaseFixup => 95,
        Action::RebaseReword => 96,
        Action::RebaseDrop => 97,
        Action::HelpScrollUp => 98,
        Action::HelpScrollDown => 99,
        Action::HelpPageUp => 100,
        Action::HelpPageDown => 101,
        Action::HelpScrollToTop => 102,
        Action::HelpScrollToBottom => 103,
        Action::ToggleStatusBar => 104,
        Action::SearchSelectUp => 105,
        Action::SearchSelectDown => 106,
        Action::SearchSelectUpQuiet => 107,
        Action::SearchSelectDownQuiet => 108,
        Action::SubmitCompose => 109,
        Action::ExternalEdit => 110,
        Action::ToggleIssueClipboardImage => 111,
        Action::RefreshIssues => 112,
        Action::CycleIssueFilter => 113,
        Action::OpenIssueLabelFilter => 114,
        Action::ToggleUnblockedOnly => 115,
        Action::OpenIssueDetail => 116,
        Action::EditIssue => 117,
        Action::CommentOnIssue => 118,
        Action::ToggleIssueState => 119,
        Action::EditIssueLabels => 120,
        Action::EditIssueAssignees => 121,
        Action::ToggleIssueLabel => 122,
        Action::OpenIssueInBrowser => 123,
        Action::ScrollUp => 124,
        Action::ScrollDown => 125,
        Action::ScrollPageUp => 126,
        Action::ScrollPageDown => 127,
        Action::ScrollToTop => 128,
        Action::ScrollToBottom => 129,
        Action::ScrollLeft => 130,
        Action::ScrollRight => 131,
        Action::ScrollToLineStart => 132,
        Action::NextHunk => 133,
        Action::PrevHunk => 134,
        Action::NextFile => 135,
        Action::PrevFile => 136,
        Action::StageHunk => 137,
        Action::UnstageHunk => 138,
        Action::DiscardHunk => 139,
        Action::ToggleDiffWrap => 140,
        Action::CreatePullRequest => 141,
        Action::MergePullRequest => 142,
        Action::LoadMoreCommits => 143,
        Action::LoadAllCommits => 144,
        _ => -1,
    }
}

/// Every action has the place that its row has.
proof fn lemma_action_places()
    ensures
        registry::registry().len() == 145,
        forall|i: int|
            0 <= i < registry::registry().len() ==> action_place(
                (#[trigger] registry::registry()[i]).action,
            ) == i,
{
}

/// The marks of every identifier.
proof fn lemma_marks()
    ensures
        marks("force-quit"@) == (10int, 'f', '-', 'i'),
        marks("report-keifu-issue"@) == (18int, 'r', 'i', 'u'),
        marks("new-issue"@) == (9int, 'n', 'i', 'u'),
        marks("toggle-debug-keys"@) == (17int, 't', 'e', 'y'),
        marks("toggle-layout"@) == (13int, 't', '-', 'u'),
        marks("full-update"@) == (11int, 'f', 'u', 't'),
        marks("open-command-palette"@) == (20int, 'o', 'n', 't'),
        marks("search"@) == (6int, 's', 'r', 'c'),
        marks("start-commit-filter"@) == (19int, 's', 'm', 'e'),
        marks("open-settings"@) == (13int, 'o', 'e', 'g'),
        marks("open-issue-list"@) == (15int, 'o', 's', 's'),
        marks("toggle-files-pane"@) == (17int, 't', 'i', 'n'),
        marks("toggle-commit-pane"@) == (18int, 't', 'm', 'n'),
        marks("panel-left"@) == (10int, 'p', '-', 'f'),
        marks("panel-right"@) == (11int, 'p', '-', 'h'),
        marks("move-up"@) == (7int, 'm', 'e', 'u'),
        marks("move-down"@) == (9int, 'm', '-', 'w'),
        marks("page-up"@) == (7int, 'p', 'e', 'u'),
        marks("page-down"@) == (9int, 'p', '-', 'w'),
        marks("go-to-top"@) == (9int, 'g', 'o', 'o'),
        marks("go-to-bottom"@) == (12int, 'g', 'b', 'o'),
        marks("same-lane-up"@) == (12int, 's', 'a', 'u'),
        marks("same-lane-down"@) == (14int, 's', 'n', 'w'),
        marks("jump-to-head"@) == (12int, 'j', 'o', 'a'),
        marks("next-branch"@) == (11int, 'n', 'b', 'c'),
        marks("previous-branch"@) == (15int, 'p', 's', 'c'),
        marks("open-commit-menu"@) == (16int, 'o', 'm', 'n'),
        marks("mark-for-compare"@) == (16int, 'm', '-', 'r'),
        marks("jump-to-merge-base"@) == (18int, 'j', 'e', 's'),
        marks("undo-last-operation"@) == (19int, 'u', '-', 'o'),
        marks("open-pr"@) == (7int, 'o', 'n', 'p'),
        marks("open-ci-checks"@) == (14int, 'o', '-', 'k'),
        marks("open-pr-thread"@) == (14int, 'o', '-', 'a'),
        marks("open-review-picker"@) == (18int, 'o', 'e', 'e'),
        marks("open-metadata-menu"@) == (18int, 'o', 'd', 'n'),
        marks("toggle-trace"@) == (12int, 't', '-', 'c'),
        marks("shrink-graph-width"@) == (18int, 's', 'a', 't'),
        marks("widen-graph-width"@) == (17int, 'w', 'a', 't'),
        marks("create-branch"@) == (13int, 'c', '-', 'c'),
        marks("delete-branch"@) == (13int, 'd', '-', 'c'),
        marks("fetch"@) == (5int, 'f', 't', 'c'),
        marks("pull"@) == (4int, 'p', 'l', 'l'),
        marks("push"@) == (4int, 'p', 's', 's'),
        marks("open-file-diff"@) == (14int, 'o', 'l', 'f'),
        marks("open-branch-filter"@) == (18int, 'o', 'c', 'e'),
        marks("toggle-remote-branches"@) == (22int, 't', 't', 'e'),
        marks("toggle-merged-branches"@) == (22int, 't', 'e', 'e'),
        marks("refresh"@) == (7int, 'r', 'r', 's'),
        marks("toggle-help"@) == (11int, 't', 'e', 'l'),
        marks("quit"@) == (4int, 'q', 'i', 'i'),
        marks("toggle-stage"@) == (12int, 't', '-', 'g'),
        marks("stage-all"@) == (9int, 's', 'e', 'l'),
        marks("unstage-all"@) == (11int, 'u', 'g', 'l'),
        marks("add-to-gitignore"@) == (16int, 'a', 'i', 'r'),
        marks("archive-file"@) == (12int, 'a', 'e', 'l'),
        marks("trash-file"@) == (10int, 't', '-', 'l'),
        marks("undo-last-file-operation"@) == (24int, 'u', 'l', 'o'),
        marks("toggle-folder-view"@) == (18int, 't', 'l', 'e'),
        marks("restore-file"@) == (12int, 'r', 'e', 'l'),
        marks("next-conflict"@) == (13int, 'n', 'o', 'c'),
        marks("previous-conflict"@) == (17int, 'p', '-', 'c'),
        marks("accept-ours"@) == (11int, 'a', 't', 'r'),
        marks("accept-theirs"@) == (13int, 'a', '-', 'r'),
        marks("continue-operation"@) == (18int, 'c', 'o', 'o'),
        marks("abort-operation"@) == (15int, 'a', 'p', 'o'),
        marks("open-with-default"@) == (17int, 'o', 'h', 'l'),
        marks("copy-path"@) == (9int, 'c', '-', 't'),
        marks("file-history"@) == (12int, 'f', 'i', 'r'),
        marks("start-files-filter"@) == (18int, 's', 'e', 'e'),
        marks("focus-graph"@) == (11int, 'f', '-', 'p'),
        marks("start-editing"@) == (13int, 's', 'e', 'n'),
        marks("amend-commit"@) == (12int, 'a', 'c', 'i'),
        marks("stash-staged"@) == (12int, 's', 's', 'e'),
        marks("toggle-commit-detail-wrap"@) == (25int, 't', 't', 'a'),
        marks("commit-changes"@) == (14int, 'c', 'c', 'e'),
        marks("stop-editing"@) == (12int, 's', 'd', 'n'),
        marks("editor-newline"@) == (14int, 'e', 'n', 'n'),
        marks("editor-backspace"@) == (16int, 'e', 'a', 'c'),
        marks("editor-delete"@) == (13int, 'e', '-', 't'),
        marks("editor-backspace-word"@) == (21int, 'e', 'k', 'r'),
        marks("editor-delete-word"@) == (18int, 'e', 'l', 'r'),
        marks("editor-kill-line"@) == (16int, 'e', 'i', 'n'),
        marks("menu-select"@) == (11int, 'm', 's', 'c'),
        marks("cancel"@) == (6int, 'c', 'c', 'e'),
        marks("confirm"@) == (7int, 'c', 'f', 'r'),
        marks("confirm-delete-branch-and-remote"@) == (32int, 'c', 'r', 't'),
        marks("input-backspace"@) == (15int, 'i', 'a', 'c'),
        marks("input-backspace-word"@) == (20int, 'i', 's', 'r'),
        marks("input-clear-line"@) == (16int, 'i', 'e', 'n'),
        marks("select-all"@) == (10int, 's', 't', 'l'),
        marks("select-none"@) == (11int, 's', 't', 'n'),
        marks("rebase-move-commit-up"@) == (21int, 'r', 'e', 'u'),
        marks("rebase-move-commit-down"@) == (23int, 'r', '-', 'w'),
        marks("rebase-pick"@) == (11int, 'r', 'e', 'c'),
        marks("rebase-squash"@) == (13int, 'r', '-', 's'),
        marks("rebase-fixup"@) == (12int, 'r', '-', 'u'),
        marks("rebase-reword"@) == (13int, 'r', '-', 'r'),
        marks("rebase-drop"@) == (11int, 'r', 'e', 'o'),
        marks("help-scroll-up"@) == (14int, 'h', 'r', 'u'),
        marks("help-scroll-down"@) == (16int, 'h', 'o', 'w'),
        marks("help-page-up"@) == (12int, 'h', 'a', 'u'),
        marks("help-page-down"@) == (14int, 'h', 'g', 'w'),
        marks("help-scroll-to-top"@) == (18int, 'h', 'l', 'o'),
        marks("help-scroll-to-bottom"@) == (21int, 'h', 'l', 'o'),
        marks("toggle-status-bar"@) == (17int, 't', 't', 'a'),
        marks("search-select-up"@) == (16int, 's', 'e', 'u'),
        marks("search-select-down"@) == (18int, 's', 'l', 'w'),
        marks("search-select-up-quiet"@) == (22int, 's', 'c', 'e'),
        marks("search-select-down-quiet"@) == (24int, 's', 't', 'e'),
        marks("submit-compose"@) == (14int, 's', 'c', 's'),
        marks("external-edit"@) == (13int, 'e', 'a', 'i'),
        marks("toggle-issue-clipboard-image"@) == (28int, 't', 'l', 'g'),
        marks("refresh-issues"@) == (14int, 'r', '-', 'e'),
        marks("cycle-issue-filter"@) == (18int, 'c', 'u', 'e'),
        marks("open-issue-label-filter"@) == (23int, 'o', 'l', 'e'),
        marks("toggle-unblocked-only"@) == (21int, 't', 'l', 'l'),
        marks("open-issue-detail"@) == (17int, 'o', 'u', 'i'),
        marks("edit-issue"@) == (10int, 'e', 'i', 'u'),
        marks("comment-on-issue"@) == (16int, 'c', 'o', 'u'),
        marks("toggle-issue-state"@) == (18int, 't', 's', 't'),
        marks("edit-issue-labels"@) == (17int, 'e', 'u', 'l'),
        marks("edit-issue-assignees"@) == (20int, 'e', '-', 'e'),
        marks("toggle-issue-label"@) == (18int, 't', 's', 'e'),
        marks("open-issue-in-browser"@) == (21int, 'o', '-', 'e'),
        marks("scroll-up"@) == (9int, 's', 'l', 'u'),
        marks("scroll-down"@) == (11int, 's', 'l', 'w'),
        marks("scroll-page-up"@) == (14int, 's', 'p', 'u'),
        marks("scroll-page-down"@) == (16int, 's', 'a', 'w'),
        marks("scroll-to-top"@) == (13int, 's', '-', 'o'),
        marks("scroll-to-bottom"@) == (16int, 's', 'o', 'o'),
        marks("scroll-left"@) == (11int, 's', 'l', 'f'),
        marks("scroll-right"@) == (12int, 's', '-', 'h'),
        marks("scroll-to-line-start"@) == (20int, 's', 'l', 'r'),
        marks("next-hunk"@) == (9int, 'n', '-', 'n'),
        marks("previous-hunk"@) == (13int, 'p', 'u', 'n'),
        marks("next-file"@) == (9int, 'n', '-', 'l'),
        marks("previous-file"@) == (13int, 'p', 'u', 'l'),
        marks("stage-hunk"@) == (10int, 's', '-', 'n'),
        marks("unstage-hunk"@) == (12int, 'u', 'e', 'n'),
        marks("discard-hunk"@) == (12int, 'd', 'd', 'n'),
        marks("toggle-diff-wrap"@) == (16int, 't', 'i', 'a'),
        marks("create-pull-request"@) == (19int, 'c', 'l', 's'),
        marks("merge-pull-request"@) == (18int, 'm', 'l', 's'),
        marks("load-more-commits"@) == (17int, 'l', 'e', 't'),
        marks("load-all-commits"@) == (16int, 'l', '-', 't'),
{
    reveal_strlit("force-quit");
    reveal_strlit("report-keifu-issue");
    reveal_strlit("new-issue");
    reveal_strlit("toggle-debug-keys");
    reveal_strlit("toggle-layout");
    reveal_strlit("full-update");
    reveal_strlit("open-command-palette");
    reveal_strlit("search");
    reveal_strlit("start-commit-filter");
    reveal_strlit("open-settings");
    reveal_strlit("open-issue-list");
    reveal_strlit("toggle-files-pane");
    reveal_strlit("toggle-commit-pane");
    reveal_strlit("panel-left");
    reveal_strlit("panel-right");
    reveal_strlit("move-up");
    reveal_strlit("move-down");
    reveal_strlit("page-up");
    reveal_strlit("page-down");
    reveal_strlit("go-to-top");
    reveal_strlit("go-to-bottom");
    reveal_strlit("same-lane-up");
    reveal_strlit("same-lane-down");
    reveal_strlit("jump-to-head");
    reveal_strlit("next-branch");
    reveal_strlit("previous-branch");
    reveal_strlit("open-commit-menu");
    reveal_strlit("mark-for-compare");
    reveal_strlit("jump-to-merge-base");
    reveal_strlit("undo-last-operation");
    reveal_strlit("open-pr");
    reveal_strlit("open-ci-checks");
    reveal_strlit("open-pr-thread");
    reveal_strlit("open-review-picker");
    reveal_strlit("open-metadata-menu");
    reveal_strlit("toggle-trace");
    reveal_strlit("shrink-graph-width");
    reveal_strlit("widen-graph-width");
    reveal_strlit("create-branch");
    reveal_strlit("delete-branch");
    reveal_strlit("fetch");
    reveal_strlit("pull");
    reveal_strlit("push");
    reveal_strlit("open-file-diff");
    reveal_strlit("open-branch-filter");
    reveal_strlit("toggle-remote-branches");
    reveal_strlit("toggle-merged-branches");
    reveal_strlit("refresh");
    reveal_strlit("toggle-help");
    reveal_strlit("quit");
    reveal_strlit("toggle-stage");
    reveal_strlit("stage-all");
    reveal_strlit("unstage-all");
    reveal_strlit("add-to-gitignore");
    reveal_strlit("archive-file");
    reveal_strlit("trash-file");
    reveal_strlit("undo-last-file-operation");
    reveal_strlit("toggle-folder-view");
    reveal_strlit("restore-file");
    reveal_strlit("next-conflict");
    reveal_strlit("previous-conflict");
    reveal_strlit("accept-ours");
    reveal_strlit("accept-theirs");
    reveal_strlit("continue-operation");
    reveal_strlit("abort-operation");
    reveal_strlit("open-with-default");
    reveal_strlit("copy-path");
    reveal_strlit("file-history");
    reveal_strlit("start-files-filter");
    reveal_strlit("focus-graph");
    reveal_strlit("start-editing");
    reveal_strlit("amend-commit");
    reveal_strlit("stash-staged");
    reveal_strlit("toggle-commit-detail-wrap");
    reveal_strlit("commit-changes");
    reveal_strlit("stop-editing");
    reveal_strlit("editor-newline");
    reveal_strlit("editor-backspace");
    reveal_strlit("editor-delete");
    reveal_strlit("editor-backspace-word");
    reveal_strlit("editor-delete-word");
    reveal_strlit("editor-kill-line");
    reveal_strlit("menu-select");
    reveal_strlit("cancel");
    reveal_strlit("confirm");
    reveal_strlit("confirm-delete-branch-and-remote");
    reveal_strlit("input-backspace");
    reveal_strlit("input-backspace-word");
    reveal_strlit("input-clear-line");
    reveal_strlit("select-all");
    reveal_strlit("select-none");
    reveal_strlit("rebase-move-commit-up");
    reveal_strlit("rebase-move-commit-down");
    reveal_strlit("rebase-pick");
    reveal_strlit("rebase-squash");
    reveal_strlit("rebase-fixup");
    reveal_strlit("rebase-reword");
    reveal_strlit("rebase-drop");
    reveal_strlit("help-scroll-up");
    reveal_strlit("help-scroll-down");
    reveal_strlit("help-page-up");
    reveal_strlit("help-page-down");
    reveal_strlit("help-scroll-to-top");
    reveal_strlit("help-scroll-to-bottom");
    reveal_strlit("toggle-status-bar");
    reveal_strlit("search-select-up");
    reveal_strlit("search-select-down");
    reveal_strlit("search-select-up-quiet");
    reveal_strlit("search-select-down-quiet");
    reveal_strlit("submit-compose");
    reveal_strlit("external-edit");
    reveal_strlit("toggle-issue-clipboard-image");
    reveal_strlit("refresh-issues");
    reveal_strlit("cycle-issue-filter");
    reveal_strlit("open-issue-label-filter");
    reveal_strlit("toggle-unblocked-only");
    reveal_strlit("open-issue-detail");
    reveal_strlit("edit-issue");
    reveal_strlit("comment-on-issue");
    reveal_strlit("toggle-issue-state");
    reveal_strlit("edit-issue-labels");
    reveal_strlit("edit-issue-assignees");
    reveal_strlit("toggle-issue-label");
    reveal_strlit("open-issue-in-browser");
    reveal_strlit("scroll-up");
    reveal_strlit("scroll-down");
    reveal_strlit("scroll-page-up");
    reveal_strlit("scroll-page-down");
    reveal_strlit("scroll-to-top");
    reveal_strlit("scroll-to-bottom");
    reveal_strlit("scroll-left");
    reveal_strlit("scroll-right");
    reveal_strlit("scroll-to-line-start");
    reveal_strlit("next-hunk");
    reveal_strlit("previous-hunk");
    reveal_strlit("next-file");
    reveal_strlit("previous-file");
    reveal_strlit("stage-hunk");
    reveal_strlit("unstage-hunk");
    reveal_strlit("discard-hunk");
    reveal_strlit("toggle-diff-wrap");
    reveal_strlit("create-pull-request");
    reveal_strlit("merge-pull-request");
    reveal_strlit("load-more-commits");
    reveal_strlit("load-all-commits");
}

/// Every identifier has the place that its row has.
#[verifier::rlimit(30)]
proof fn lemma_places()
    ensures
        forall|i: int|
            0 <= i < registry::registry().len() ==> place((#[trigger] registry::registry()[i]).id)
                == i,
{
    lemma_marks();
}

/// The aliases have no place.
#[verifier::rlimit(30)]
proof fn lemma_alias_places()
    ensures
        place("command-palette"@) == -1,
        place("open-palette"@) == -1,
{
    reveal_strlit("command-palette");
    assert(marks("command-palette"@) == (15int, 'c', '-', 't'));
    reveal_strlit("open-palette");
    assert(marks("open-palette"@) == (12int, 'o', 'a', 't'));
    lemma_marks();
}

/// No command stands in the table twice: two rows differ in the identifier and
/// in the action.
pub proof fn law_commands_are_distinct(i: int, j: int)
    requires
        0 <= i < registry::registry().len(),
        0 <= j < registry::registry().len(),
        i != j,
    ensures
        registry::registry()[i].id != registry::registry()[j].id,
        registry::registry()[i].action != registry::registry()[j].action,
{
    lemma_places();
    lemma_action_places();
    assert(place(registry::registry()[i].id) == i);
    assert(place(registry::registry()[j].id) == j);
}

/// Identifiers and actions stand for each other: looking up a row's identifier
/// gives that row, and so does looking up its action.
pub proof fn law_identifiers_and_actions_correspond(i: int)
    requires
        0 <= i < registry::registry().len(),
    ensures
        keymap::position(registry::registry()[i].id) == Some(i),
        keymap::id_of(registry::registry()[i].action) == Some(registry::registry()[i].id),
{
    let rows = registry::registry();
    lemma_places();
    lemma_action_places();
    let named = |k: int| rows[k].id == rows[i].id;
    assert forall|k: int| 0 <= k < i implies !#[trigger] named(k) by {
        law_commands_are_distinct(k, i);
    }
    search::lemma_first_such(rows.len() as int, named, i);
    let performs = |k: int| rows[k].action == rows[i].action;
    assert forall|k: int| 0 <= k < i implies !#[trigger] performs(k) by {
        law_commands_are_distinct(k, i);
    }
    search::lemma_first_such(rows.len() as int, performs, i);
}

/// An alias is no identifier, and what it stands for is one.
pub proof fn law_aliases_are_no_identifiers(id: Seq<char>)
    requires
        keymap::canonical(id) != id,
    ensures
        keymap::position(id) is None,
        keymap::position(keymap::canonical(id)) is Some,
{
    let rows = registry::registry();
    lemma_places();
    lemma_action_places();
    lemma_alias_places();
    let named = |k: int| rows[k].id == id;
    assert forall|k: int| 0 <= k < rows.len() implies !#[trigger] named(k) by {
        assert(place(rows[k].id) == k);
    }
    search::lemma_no_such(rows.len() as int, named);
    assert(rows[6].id == keymap::canonical(id));
    law_identifiers_and_actions_correspond(6);
}

} // verus!
