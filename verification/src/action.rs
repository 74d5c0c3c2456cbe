//! What a key press or a mouse event asks the program to do.
use vstd::prelude::*;

verus! {

/// One request to the program. Text insertions carry their character, cursor
/// movements carry whether they extend the selection, and mouse actions carry
/// the cell they happened on.
#[derive(Debug, Clone, Copy, PartialEq, Eq, Structural)]
pub enum Action {
    ForceQuit,
    ReportKeifuIssue,
    NewIssue,
    ToggleDebugKeys,
    ToggleLayout,
    FullUpdate,
    OpenCommandPalette,
    Search,
    StartCommitFilter,
    OpenSettings,
    OpenIssueList,
    ToggleFilesPane,
    ToggleCommitPane,
    PanelLeft,
    PanelRight,
    MoveUp,
    MoveDown,
    PageUp,
    PageDown,
    GoToTop,
    GoToBottom,
    SameLaneUp,
    SameLaneDown,
    JumpToHead,
    NextBranch,
    PrevBranch,
    OpenCommitMenu,
    MarkForCompare,
    JumpToMergeBase,
    UndoLastOp,
    OpenPr,
    OpenCiChecks,
    OpenPrThread,
    OpenReviewPicker,
    OpenMetadataMenu,
    ToggleTrace,
    ShrinkGraphWidth,
    WidenGraphWidth,
    CreateBranch,
    DeleteBranch,
    Fetch,
    Pull,
    Push,
    OpenFileDiff,
    OpenBranchFilter,
    ToggleRemoteBranches,
    ToggleMergedBranches,
    Refresh,
    ToggleHelp,
    Quit,
    ToggleStage,
    StageAll,
    UnstageAll,
    AddToGitignore,
    ArchiveFile,
    TrashFile,
    UndoLastFileOp,
    ToggleFolderView,
    RestoreFile,
    NextConflict,
    PrevConflict,
    AcceptOurs,
    AcceptTheirs,
    ContinueOperation,
    AbortOperation,
    OpenWithDefault,
    CopyPath,
    FileHistory,
    StartFilesFilter,
    FocusGraph,
    StartEditing,
    AmendCommit,
    StashStaged,
    ToggleCommitDetailWrap,
    CommitChanges,
    StopEditing,
    EditorNewline,
    EditorBackspace,
    EditorDelete,
    EditorBackspaceWord,
    EditorDeleteWord,
    EditorKillLine,
    MenuSelect,
    Cancel,
    Confirm,
    ConfirmDeleteBranchAndRemote,
    InputBackspace,
    InputBackspaceWord,
    InputClearLine,
    SelectAll,
    SelectNone,
    RebaseMoveCommitUp,
    RebaseMoveCommitDown,
    RebasePick,
    RebaseSquash,
    RebaseFixup,
    RebaseReword,
    RebaseDrop,
    HelpScrollUp,
    HelpScrollDown,
    HelpPageUp,
    HelpPageDown,
    HelpScrollToTop,
    HelpScrollToBottom,
    ToggleStatusBar,
    SearchSelectUp,
    SearchSelectDown,
    SearchSelectUpQuiet,
    SearchSelectDownQuiet,
    SubmitCompose,
    ExternalEdit,
    ToggleIssueClipboardImage,
    RefreshIssues,
    CycleIssueFilter,
    OpenIssueLabelFilter,
    ToggleUnblockedOnly,
    OpenIssueDetail,
    EditIssue,
    CommentOnIssue,
    ToggleIssueState,
    EditIssueLabels,
    EditIssueAssignees,
    ToggleIssueLabel,
    OpenIssueInBrowser,
    ScrollUp,
    ScrollDown,
    ScrollPageUp,
    ScrollPageDown,
    ScrollToTop,
    ScrollToBottom,
    ScrollLeft,
    ScrollRight,
    ScrollToLineStart,
    NextHunk,
    PrevHunk,
    NextFile,
    PrevFile,
    StageHunk,
    UnstageHunk,
    DiscardHunk,
    ToggleDiffWrap,
    CreatePullRequest,
    MergePullRequest,
    LoadMoreCommits,
    LoadAllCommits,
    MouseClick { col: u16, row: u16 },
    MouseRightClick { col: u16, row: u16 },
    MouseScroll { col: u16, row: u16, down: bool },
    MouseDrag { col: u16, row: u16 },
    MouseUp { col: u16, row: u16 },
    InputChar(char),
    CommitFilterBackspace,
    CommitFilterChar(char),
    FilesFilterBackspace,
    FilesFilterChar(char),
    EditorChar(char),
    EditorWordLeft(bool),
    EditorWordRight(bool),
    EditorTextStart(bool),
    EditorTextEnd(bool),
    EditorLeft(bool),
    EditorRight(bool),
    EditorUp(bool),
    EditorDown(bool),
    EditorHome(bool),
    EditorEnd(bool),
}

} // verus!
