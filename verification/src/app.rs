//! The program's modes, as far as key routing depends on them.
use vstd::prelude::*;

verus! {

/// The panel that receives keys in the normal mode.
#[derive(Debug, Clone, Copy, PartialEq, Eq, Structural)]
pub enum FocusedPanel {
    Graph,
    Files,
    CommitDetail,
}

/// What a text prompt is for.
#[derive(Debug, Clone, Copy, PartialEq, Eq, Structural)]
pub enum InputAction {
    /// The incremental branch search.
    Search,
    /// Any other single-line prompt.
    Prompt,
}

/// The screen that is on top.
#[derive(Debug, Clone, Copy, PartialEq, Eq, Structural)]
pub enum AppMode {
    Normal,
    Help,
    Input { action: InputAction },
    Confirm,
    Error,
    CommitMenu,
    MetadataMenu,
    Settings,
    PullDivergence,
    CiChecks,
    PrThread,
    PrCompose,
    PrMergePicker,
    PrReviewPicker,
    RebasePlan,
    IssueList,
    IssueDetail,
    IssueCompose,
    IssueLabelPicker,
    IssueLabelFilter,
    BranchPicker,
    BranchDeletePicker,
    TagPicker,
    RemotePicker,
    BranchFilter,
    FileDiff,
    FileHistory,
    CommandPalette,
}

} // verus!
