//! The keys of every mode, as tables.
use crate::action::Action;
use crate::app::{AppMode, FocusedPanel, InputAction};
use crate::keybindings;
use crate::keys::{KeyCode, KeyEvent, KeyEventKind, MouseButton, MouseEvent, MouseEventKind};
use vstd::prelude::*;

verus! {

/// No modifier is held.
pub open spec fn unmodified(key: KeyEvent) -> bool {
    !key.modifiers.shift && !key.modifiers.control && !key.modifiers.alt && !key.modifiers.other
}

/// Shift is held and nothing else.
pub open spec fn shift_only(key: KeyEvent) -> bool {
    key.modifiers.shift && !key.modifiers.control && !key.modifiers.alt && !key.modifiers.other
}

/// Control is held and nothing else.
pub open spec fn control_only(key: KeyEvent) -> bool {
    !key.modifiers.shift && key.modifiers.control && !key.modifiers.alt && !key.modifiers.other
}

/// The keys that do the same everywhere: quitting, the key log, and the layout.
pub open spec fn everywhere(key: KeyEvent) -> bool {
    ||| key.code == KeyCode::Char('q') && key.modifiers.control
    ||| key.code == KeyCode::F(12)
    ||| key.code == KeyCode::Char('/') && key.modifiers.alt
}

/// The keys that do the same in every panel.
pub open spec fn every_panel(key: KeyEvent) -> bool {
    ||| key.code == KeyCode::F(5)
    ||| key.code == KeyCode::Char('p') && key.modifiers.control
    ||| key.code == KeyCode::Char(':') && !key.modifiers.control && !key.modifiers.alt
    ||| key.code == KeyCode::Char(',') && key.modifiers.control
    ||| key.code == KeyCode::Char('I') && key.modifiers.shift
    ||| moves_focus(key)
}

/// The keys that move the focus between panels.
pub open spec fn moves_focus(key: KeyEvent) -> bool {
    ||| key.code == KeyCode::Left && unmodified(key)
    ||| key.code == KeyCode::Right && unmodified(key)
    ||| key.code == KeyCode::Tab && unmodified(key)
    ||| key.code == KeyCode::BackTab && shift_only(key)
}

/// The keys that edit a single line by words.
pub open spec fn edits_line(key: KeyEvent) -> bool {
    ||| key.code == KeyCode::Backspace && (key.modifiers.control || key.modifiers.alt)
    ||| key.code == KeyCode::Char('h') && key.modifiers.control
    ||| key.code == KeyCode::Char('u') && key.modifiers.control
}

/// Everywhere: `Ctrl+q` quits, `F12` shows the key log, `Alt+/` changes the layout.
pub proof fn law_keys_everywhere(
    key: KeyEvent,
    mode: AppMode,
    panel: FocusedPanel,
    editing: bool,
    files_filter: bool,
    commit_filter: bool,
)
    requires
        key.kind != KeyEventKind::Release,
    ensures
        ({
            let action = keybindings::key_action(key, mode, panel, editing, files_filter, commit_filter);
            &&& key.code == KeyCode::Char('q') && key.modifiers.control ==> action == Some(Action::ForceQuit)
            &&& key.code == KeyCode::F(12) ==> action == Some(Action::ToggleDebugKeys)
            &&& key.code == KeyCode::Char('/') && key.modifiers.alt ==> action == Some(Action::ToggleLayout)
        }),
{
}

/// In every panel, unless a message is being edited: `F5` updates all, `Ctrl+p` and
/// `:` open the palette, `Ctrl+,` the settings and `Shift+I` the issues; the arrows
/// and `Tab` move the focus. `F5` and, while a filter is typed, the focus keys work
/// as well.
pub proof fn law_keys_of_every_panel(
    key: KeyEvent,
    panel: FocusedPanel,
    editing: bool,
    files_filter: bool,
    commit_filter: bool,
)
    requires
        key.kind != KeyEventKind::Release,
        !everywhere(key),
    ensures
        ({
            let action = keybindings::key_action(
                key,
                AppMode::Normal,
                panel,
                editing,
                files_filter,
                commit_filter,
            );
            let typing = files_filter || commit_filter;
            let in_editor = editing && panel == FocusedPanel::CommitDetail;
            &&& key.code == KeyCode::F(5) ==> action == Some(Action::FullUpdate)
            &&& !in_editor && !typing && key.code == KeyCode::Char('p') && key.modifiers.control ==> action == Some(
                Action::OpenCommandPalette,
            )
            &&& !in_editor && !typing && key.code == KeyCode::Char(':') && !key.modifiers.control
                && !key.modifiers.alt ==> action == Some(Action::OpenCommandPalette)
            &&& !in_editor && !typing && key.code == KeyCode::Char(',') && key.modifiers.control ==> action == Some(
                Action::OpenSettings,
            )
            &&& !in_editor && !typing && key.code == KeyCode::Char('I') && key.modifiers.shift ==> action == Some(
                Action::OpenIssueList,
            )
            &&& !in_editor && key.code == KeyCode::Left && unmodified(key) ==> action == Some(Action::PanelLeft)
            &&& !in_editor && key.code == KeyCode::BackTab && shift_only(key) ==> action == Some(Action::PanelLeft)
            &&& !in_editor && key.code == KeyCode::Right && unmodified(key) ==> action == Some(Action::PanelRight)
            &&& !in_editor && key.code == KeyCode::Tab && unmodified(key) ==> action == Some(Action::PanelRight)
        }),
{
}

/// Where a line of text is typed, `Ctrl+Backspace`, `Alt+Backspace` and `Ctrl+h`
/// delete a word, and `Ctrl+u` clears the line.
pub proof fn law_word_editing_keys(key: KeyEvent, mode: AppMode, panel: FocusedPanel)
    requires
        key.kind != KeyEventKind::Release,
        ({
            ||| mode == AppMode::CommandPalette
            ||| mode == AppMode::Settings
            ||| mode == AppMode::CommitMenu
            ||| mode == AppMode::BranchFilter
            ||| mode is Input
        }),
    ensures
        ({
            let action = keybindings::key_action(key, mode, panel, false, false, false);
            let filtering = keybindings::key_action(key, AppMode::Normal, FocusedPanel::Graph, false, false, true);
            let files = keybindings::key_action(key, AppMode::Normal, FocusedPanel::Files, false, true, false);
            let word = key.code == KeyCode::Backspace && (key.modifiers.control || key.modifiers.alt) || key.code
                == KeyCode::Char('h') && key.modifiers.control;
            let line = key.code == KeyCode::Char('u') && key.modifiers.control;
            &&& word ==> action == Some(Action::InputBackspaceWord) && filtering == action && files == action
            &&& line ==> action == Some(Action::InputClearLine) && filtering == action && files == action
        }),
{
}

/// The mouse: clicks with either button, the wheel, and dragging with the left
/// button, each where it happened; nothing else.
pub proof fn law_mouse_events(mouse: MouseEvent)
    ensures
        ({
            let action = keybindings::mouse_action(mouse);
            let (col, row) = (mouse.column, mouse.row);
            match mouse.kind {
                MouseEventKind::Down(MouseButton::Left) => action == Some((Action::MouseClick { col, row })),
                MouseEventKind::Down(MouseButton::Right) => action == Some((Action::MouseRightClick { col, row })),
                MouseEventKind::ScrollDown => action == Some((Action::MouseScroll { col, row, down: true })),
                MouseEventKind::ScrollUp => action == Some((Action::MouseScroll { col, row, down: false })),
                MouseEventKind::Drag(MouseButton::Left) => action == Some((Action::MouseDrag { col, row })),
                MouseEventKind::Up(MouseButton::Left) => action == Some((Action::MouseUp { col, row })),
                _ => action is None,
            }
        }),
{
}

/// The graph panel: each key with its action, and no other key acts.
#[verifier::rlimit(40)]
pub proof fn law_graph_panel_keys(key: KeyEvent)
    requires
        key.kind != KeyEventKind::Release,
        !everywhere(key),
        !every_panel(key),
    ensures
        ({
            let action = keybindings::key_action(key, AppMode::Normal, FocusedPanel::Graph, false, false, false);
            &&& key.code == KeyCode::Down && unmodified(key) ==> action == Some(Action::MoveDown)
            &&& key.code == KeyCode::Up && unmodified(key) ==> action == Some(Action::MoveUp)
            &&& key.code == KeyCode::Up && key.modifiers.control ==> action == Some(Action::SameLaneUp)
            &&& key.code == KeyCode::Down && key.modifiers.control ==> action == Some(Action::SameLaneDown)
            &&& key.code == KeyCode::Char('d') && control_only(key) ==> action == Some(Action::PageDown)
            &&& key.code == KeyCode::PageDown && unmodified(key) ==> action == Some(Action::PageDown)
            &&& key.code == KeyCode::Char('u') && control_only(key) ==> action == Some(Action::PageUp)
            &&& key.code == KeyCode::PageUp && unmodified(key) ==> action == Some(Action::PageUp)
            &&& key.code == KeyCode::Char('g') && unmodified(key) ==> action == Some(Action::GoToTop)
            &&& key.code == KeyCode::Home && unmodified(key) ==> action == Some(Action::GoToTop)
            &&& key.code == KeyCode::Home && control_only(key) ==> action == Some(Action::GoToTop)
            &&& key.code == KeyCode::Char('G') && shift_only(key) ==> action == Some(Action::GoToBottom)
            &&& key.code == KeyCode::End && unmodified(key) ==> action == Some(Action::GoToBottom)
            &&& key.code == KeyCode::Char(',') && unmodified(key) ==> action == Some(Action::OpenSettings)
            &&& key.code == KeyCode::Char('@') ==> action == Some(Action::JumpToHead)
            &&& key.code == KeyCode::Char(']') ==> action == Some(Action::NextBranch)
            &&& key.code == KeyCode::Char('[') ==> action == Some(Action::PrevBranch)
            &&& key.code == KeyCode::Enter && unmodified(key) ==> action == Some(Action::OpenCommitMenu)
            &&& key.code == KeyCode::Char('m') && unmodified(key) ==> action == Some(Action::MarkForCompare)
            &&& key.code == KeyCode::Char('^') ==> action == Some(Action::JumpToMergeBase)
            &&& key.code == KeyCode::Char('z') && control_only(key) ==> action == Some(Action::UndoLastOp)
            &&& key.code == KeyCode::Char('o') && unmodified(key) ==> action == Some(Action::OpenPr)
            &&& key.code == KeyCode::Char('c') && unmodified(key) ==> action == Some(Action::OpenCiChecks)
            &&& key.code == KeyCode::Char('v') && unmodified(key) ==> action == Some(Action::OpenPrThread)
            &&& key.code == KeyCode::Char('M') && shift_only(key) ==> action == Some(Action::OpenMetadataMenu)
            &&& key.code == KeyCode::Char('t') && unmodified(key) ==> action == Some(Action::ToggleTrace)
            &&& key.code == KeyCode::Char('<') ==> action == Some(Action::ShrinkGraphWidth)
            &&& key.code == KeyCode::Char('>') ==> action == Some(Action::WidenGraphWidth)
            &&& key.code == KeyCode::Char('b') && unmodified(key) ==> action == Some(Action::CreateBranch)
            &&& key.code == KeyCode::Char('d') && unmodified(key) ==> action == Some(Action::DeleteBranch)
            &&& key.code == KeyCode::Char('f') && unmodified(key) ==> action == Some(Action::Fetch)
            &&& key.code == KeyCode::Char('p') && unmodified(key) ==> action == Some(Action::Pull)
            &&& key.code == KeyCode::Char('P') && shift_only(key) ==> action == Some(Action::Push)
            &&& key.code == KeyCode::Char(' ') && unmodified(key) ==> action == Some(Action::OpenFileDiff)
            &&& key.code == KeyCode::Char('f') && control_only(key) ==> action == Some(Action::StartCommitFilter)
            &&& key.code == KeyCode::Char('B') && shift_only(key) ==> action == Some(Action::OpenBranchFilter)
            &&& key.code == KeyCode::Char('O') && shift_only(key) ==> action == Some(Action::ToggleRemoteBranches)
            &&& key.code == KeyCode::Char('H') && shift_only(key) ==> action == Some(Action::ToggleMergedBranches)
            &&& key.code == KeyCode::Char('/') ==> action == Some(Action::Search)
            &&& key.code == KeyCode::Char('R') && shift_only(key) ==> action == Some(Action::Refresh)
            &&& key.code == KeyCode::Char('?') ==> action == Some(Action::ToggleHelp)
            &&& key.code == KeyCode::Esc && unmodified(key) ==> action == Some(Action::Quit)
            &&& action is Some ==> {
                ||| key.code == KeyCode::Down && unmodified(key)
                ||| key.code == KeyCode::Up && unmodified(key)
                ||| key.code == KeyCode::Up && key.modifiers.control
                ||| key.code == KeyCode::Down && key.modifiers.control
                ||| key.code == KeyCode::Char('d') && control_only(key)
                ||| key.code == KeyCode::PageDown && unmodified(key)
                ||| key.code == KeyCode::Char('u') && control_only(key)
                ||| key.code == KeyCode::PageUp && unmodified(key)
                ||| key.code == KeyCode::Char('g') && unmodified(key)
                ||| key.code == KeyCode::Home && unmodified(key)
                ||| key.code == KeyCode::Home && control_only(key)
                ||| key.code == KeyCode::Char('G') && shift_only(key)
                ||| key.code == KeyCode::End && unmodified(key)
                ||| key.code == KeyCode::Char(',') && unmodified(key)
                ||| key.code == KeyCode::Char('@')
                ||| key.code == KeyCode::Char(']')
                ||| key.code == KeyCode::Char('[')
                ||| key.code == KeyCode::Enter && unmodified(key)
                ||| key.code == KeyCode::Char('m') && unmodified(key)
                ||| key.code == KeyCode::Char('^')
                ||| key.code == KeyCode::Char('z') && control_only(key)
                ||| key.code == KeyCode::Char('o') && unmodified(key)
                ||| key.code == KeyCode::Char('c') && unmodified(key)
                ||| key.code == KeyCode::Char('v') && unmodified(key)
                ||| key.code == KeyCode::Char('M') && shift_only(key)
                ||| key.code == KeyCode::Char('t') && unmodified(key)
                ||| key.code == KeyCode::Char('<')
                ||| key.code == KeyCode::Char('>')
                ||| key.code == KeyCode::Char('b') && unmodified(key)
                ||| key.code == KeyCode::Char('d') && unmodified(key)
                ||| key.code == KeyCode::Char('f') && unmodified(key)
                ||| key.code == KeyCode::Char('p') && unmodified(key)
                ||| key.code == KeyCode::Char('P') && shift_only(key)
                ||| key.code == KeyCode::Char(' ') && unmodified(key)
                ||| key.code == KeyCode::Char('f') && control_only(key)
                ||| key.code == KeyCode::Char('B') && shift_only(key)
                ||| key.code == KeyCode::Char('O') && shift_only(key)
                ||| key.code == KeyCode::Char('H') && shift_only(key)
                ||| key.code == KeyCode::Char('/')
                ||| key.code == KeyCode::Char('R') && shift_only(key)
                ||| key.code == KeyCode::Char('?')
                ||| key.code == KeyCode::Esc && unmodified(key)
            }
        }),
{
}

/// The files panel: each key with its action, and no other key acts.
#[verifier::rlimit(40)]
pub proof fn law_files_panel_keys(key: KeyEvent)
    requires
        key.kind != KeyEventKind::Release,
        !everywhere(key),
        !every_panel(key),
    ensures
        ({
            let action = keybindings::key_action(key, AppMode::Normal, FocusedPanel::Files, false, false, false);
            &&& key.code == KeyCode::Down && unmodified(key) ==> action == Some(Action::MoveDown)
            &&& key.code == KeyCode::Up && unmodified(key) ==> action == Some(Action::MoveUp)
            &&& key.code == KeyCode::Char('d') && control_only(key) ==> action == Some(Action::PageDown)
            &&& key.code == KeyCode::PageDown && unmodified(key) ==> action == Some(Action::PageDown)
            &&& key.code == KeyCode::Char('u') && control_only(key) ==> action == Some(Action::PageUp)
            &&& key.code == KeyCode::PageUp && unmodified(key) ==> action == Some(Action::PageUp)
            &&& key.code == KeyCode::Char('g') && unmodified(key) ==> action == Some(Action::GoToTop)
            &&& key.code == KeyCode::Home && unmodified(key) ==> action == Some(Action::GoToTop)
            &&& key.code == KeyCode::Char('G') && shift_only(key) ==> action == Some(Action::GoToBottom)
            &&& key.code == KeyCode::End && unmodified(key) ==> action == Some(Action::GoToBottom)
            &&& key.code == KeyCode::Char('@') ==> action == Some(Action::JumpToHead)
            &&& key.code == KeyCode::Char('s') && unmodified(key) ==> action == Some(Action::ToggleStage)
            &&& key.code == KeyCode::Char('a') && unmodified(key) ==> action == Some(Action::ToggleStage)
            &&& key.code == KeyCode::Char('S') && shift_only(key) ==> action == Some(Action::StageAll)
            &&& key.code == KeyCode::Char('U') && shift_only(key) ==> action == Some(Action::UnstageAll)
            &&& key.code == KeyCode::Char('i') && unmodified(key) ==> action == Some(Action::AddToGitignore)
            &&& key.code == KeyCode::Char('v') && unmodified(key) ==> action == Some(Action::ArchiveFile)
            &&& key.code == KeyCode::Delete && unmodified(key) ==> action == Some(Action::TrashFile)
            &&& key.code == KeyCode::Char('z') && control_only(key) ==> action == Some(Action::UndoLastFileOp)
            &&& key.code == KeyCode::Char('f') && unmodified(key) ==> action == Some(Action::ToggleFolderView)
            &&& key.code == KeyCode::Char('r') && unmodified(key) ==> action == Some(Action::RestoreFile)
            &&& key.code == KeyCode::Char(']') ==> action == Some(Action::NextConflict)
            &&& key.code == KeyCode::Char('[') ==> action == Some(Action::PrevConflict)
            &&& key.code == KeyCode::Char('o') && unmodified(key) ==> action == Some(Action::AcceptOurs)
            &&& key.code == KeyCode::Char('t') && unmodified(key) ==> action == Some(Action::AcceptTheirs)
            &&& key.code == KeyCode::Char('c') && unmodified(key) ==> action == Some(Action::ContinueOperation)
            &&& key.code == KeyCode::Char('A') && shift_only(key) ==> action == Some(Action::AbortOperation)
            &&& key.code == KeyCode::Char(' ') && unmodified(key) ==> action == Some(Action::OpenWithDefault)
            &&& key.code == KeyCode::Char('y') && unmodified(key) ==> action == Some(Action::CopyPath)
            &&& key.code == KeyCode::Char(',') && unmodified(key) ==> action == Some(Action::OpenSettings)
            &&& key.code == KeyCode::Enter && unmodified(key) ==> action == Some(Action::OpenFileDiff)
            &&& key.code == KeyCode::Char('h') && unmodified(key) ==> action == Some(Action::FileHistory)
            &&& key.code == KeyCode::Char('f') && control_only(key) ==> action == Some(Action::StartFilesFilter)
            &&& key.code == KeyCode::Esc && unmodified(key) ==> action == Some(Action::FocusGraph)
            &&& key.code == KeyCode::Char('?') ==> action == Some(Action::ToggleHelp)
            &&& action is Some ==> {
                ||| key.code == KeyCode::Down && unmodified(key)
                ||| key.code == KeyCode::Up && unmodified(key)
                ||| key.code == KeyCode::Char('d') && control_only(key)
                ||| key.code == KeyCode::PageDown && unmodified(key)
                ||| key.code == KeyCode::Char('u') && control_only(key)
                ||| key.code == KeyCode::PageUp && unmodified(key)
                ||| key.code == KeyCode::Char('g') && unmodified(key)
                ||| key.code == KeyCode::Home && unmodified(key)
                ||| key.code == KeyCode::Char('G') && shift_only(key)
                ||| key.code == KeyCode::End && unmodified(key)
                ||| key.code == KeyCode::Char('@')
                ||| key.code == KeyCode::Char('s') && unmodified(key)
                ||| key.code == KeyCode::Char('a') && unmodified(key)
                ||| key.code == KeyCode::Char('S') && shift_only(key)
                ||| key.code == KeyCode::Char('U') && shift_only(key)
                ||| key.code == KeyCode::Char('i') && unmodified(key)
                ||| key.code == KeyCode::Char('v') && unmodified(key)
                ||| key.code == KeyCode::Delete && unmodified(key)
                ||| key.code == KeyCode::Char('z') && control_only(key)
                ||| key.code == KeyCode::Char('f') && unmodified(key)
                ||| key.code == KeyCode::Char('r') && unmodified(key)
                ||| key.code == KeyCode::Char(']')
                ||| key.code == KeyCode::Char('[')
                ||| key.code == KeyCode::Char('o') && unmodified(key)
                ||| key.code == KeyCode::Char('t') && unmodified(key)
                ||| key.code == KeyCode::Char('c') && unmodified(key)
                ||| key.code == KeyCode::Char('A') && shift_only(key)
                ||| key.code == KeyCode::Char(' ') && unmodified(key)
                ||| key.code == KeyCode::Char('y') && unmodified(key)
                ||| key.code == KeyCode::Char(',') && unmodified(key)
                ||| key.code == KeyCode::Enter && unmodified(key)
                ||| key.code == KeyCode::Char('h') && unmodified(key)
                ||| key.code == KeyCode::Char('f') && control_only(key)
                ||| key.code == KeyCode::Esc && unmodified(key)
                ||| key.code == KeyCode::Char('?')
            }
        }),
{
}

/// The commit panel: each key with its action; any other character starts a message.
#[verifier::rlimit(40)]
pub proof fn law_commit_panel_keys(key: KeyEvent)
    requires
        key.kind != KeyEventKind::Release,
        !everywhere(key),
        !every_panel(key),
    ensures
        ({
            let action = keybindings::key_action(key, AppMode::Normal, FocusedPanel::CommitDetail, false, false, false);
            &&& key.code == KeyCode::Down && unmodified(key) ==> action == Some(Action::MoveDown)
            &&& key.code == KeyCode::Up && unmodified(key) ==> action == Some(Action::MoveUp)
            &&& key.code == KeyCode::Char('d') && control_only(key) ==> action == Some(Action::PageDown)
            &&& key.code == KeyCode::PageDown && unmodified(key) ==> action == Some(Action::PageDown)
            &&& key.code == KeyCode::Char('u') && control_only(key) ==> action == Some(Action::PageUp)
            &&& key.code == KeyCode::PageUp && unmodified(key) ==> action == Some(Action::PageUp)
            &&& key.code == KeyCode::Home && unmodified(key) ==> action == Some(Action::GoToTop)
            &&& key.code == KeyCode::End && unmodified(key) ==> action == Some(Action::GoToBottom)
            &&& key.code == KeyCode::Enter && unmodified(key) ==> action == Some(Action::StartEditing)
            &&& key.code == KeyCode::Enter && key.modifiers.control ==> action == Some(Action::AmendCommit)
            &&& key.code == KeyCode::Char('s') && key.modifiers.control ==> action == Some(Action::StashStaged)
            &&& key.code == KeyCode::Esc && unmodified(key) ==> action == Some(Action::FocusGraph)
            &&& key.code == KeyCode::Char('?') ==> action == Some(Action::ToggleHelp)
            &&& key.code is Char && (unmodified(key) || shift_only(key)) && key.code != KeyCode::Char('?') ==> action == Some(Action::EditorChar(key.code->Char_0))
            &&& action is Some ==> {
                ||| key.code == KeyCode::Down && unmodified(key)
                ||| key.code == KeyCode::Up && unmodified(key)
                ||| key.code == KeyCode::Char('d') && control_only(key)
                ||| key.code == KeyCode::PageDown && unmodified(key)
                ||| key.code == KeyCode::Char('u') && control_only(key)
                ||| key.code == KeyCode::PageUp && unmodified(key)
                ||| key.code == KeyCode::Home && unmodified(key)
                ||| key.code == KeyCode::End && unmodified(key)
                ||| key.code == KeyCode::Enter && unmodified(key)
                ||| key.code == KeyCode::Enter && key.modifiers.control
                ||| key.code == KeyCode::Char('s') && key.modifiers.control
                ||| key.code == KeyCode::Esc && unmodified(key)
                ||| key.code == KeyCode::Char('?')
                ||| key.code is Char && (unmodified(key) || shift_only(key)) && key.code != KeyCode::Char('?')
            }
        }),
{
}

/// The commit message editor: Enter commits, with Control it amends, with Shift or Alt it
/// breaks the line; `Ctrl+s` stashes; the rest moves, deletes or types.
#[verifier::rlimit(60)]
pub proof fn law_message_editor_keys(key: KeyEvent)
    requires
        key.kind != KeyEventKind::Release,
        !everywhere(key),
        key.code != KeyCode::F(5),
    ensures
        ({
            let action = keybindings::key_action(key, AppMode::Normal, FocusedPanel::CommitDetail, true, false, false);
            &&& key.code == KeyCode::Enter && unmodified(key) ==> action == Some(Action::CommitChanges)
            &&& key.code == KeyCode::Enter && key.modifiers.control ==> action == Some(Action::AmendCommit)
            &&& key.code == KeyCode::Char('s') && key.modifiers.control ==> action == Some(Action::StashStaged)
            &&& key.code == KeyCode::Esc && unmodified(key) ==> action == Some(Action::StopEditing)
            &&& key.code == KeyCode::Enter && (key.modifiers.shift || key.modifiers.alt) && !key.modifiers.control ==> action == Some(Action::EditorNewline)
            &&& key.code == KeyCode::Backspace && (key.modifiers.alt || key.modifiers.control) ==> action == Some(Action::EditorBackspaceWord)
            &&& key.code == KeyCode::Char('h') && key.modifiers.control ==> action == Some(Action::EditorBackspaceWord)
            &&& key.code == KeyCode::Delete && (key.modifiers.alt || key.modifiers.control) ==> action == Some(Action::EditorDeleteWord)
            &&& key.code == KeyCode::Char('u') && key.modifiers.control ==> action == Some(Action::EditorKillLine)
            &&& key.code == KeyCode::Char('d') && key.modifiers.alt ==> action == Some(Action::EditorDeleteWord)
            &&& key.code == KeyCode::Left && (key.modifiers.alt || key.modifiers.control) ==> action == Some(Action::EditorWordLeft(key.modifiers.shift))
            &&& key.code == KeyCode::Char('b') && key.modifiers.alt && !key.modifiers.shift ==> action == Some(Action::EditorWordLeft(false))
            &&& key.code == KeyCode::Right && (key.modifiers.alt || key.modifiers.control) ==> action == Some(Action::EditorWordRight(key.modifiers.shift))
            &&& key.code == KeyCode::Char('f') && key.modifiers.alt && !key.modifiers.shift ==> action == Some(Action::EditorWordRight(false))
            &&& key.code == KeyCode::Home && (key.modifiers.control || key.modifiers.alt) ==> action == Some(Action::EditorTextStart(key.modifiers.shift))
            &&& key.code == KeyCode::End && (key.modifiers.control || key.modifiers.alt) ==> action == Some(Action::EditorTextEnd(key.modifiers.shift))
            &&& key.code == KeyCode::Left && !key.modifiers.alt && !key.modifiers.control ==> action == Some(Action::EditorLeft(key.modifiers.shift))
            &&& key.code == KeyCode::Right && !key.modifiers.alt && !key.modifiers.control ==> action == Some(Action::EditorRight(key.modifiers.shift))
            &&& key.code == KeyCode::Up && !key.modifiers.alt && !key.modifiers.control ==> action == Some(Action::EditorUp(key.modifiers.shift))
            &&& key.code == KeyCode::Down && !key.modifiers.alt && !key.modifiers.control ==> action == Some(Action::EditorDown(key.modifiers.shift))
            &&& key.code == KeyCode::Home && !key.modifiers.alt && !key.modifiers.control ==> action == Some(Action::EditorHome(key.modifiers.shift))
            &&& key.code == KeyCode::End && !key.modifiers.alt && !key.modifiers.control ==> action == Some(Action::EditorEnd(key.modifiers.shift))
            &&& key.code == KeyCode::Backspace && unmodified(key) ==> action == Some(Action::EditorBackspace)
            &&& key.code == KeyCode::Delete && unmodified(key) ==> action == Some(Action::EditorDelete)
            &&& key.code is Char && !key.modifiers.control && !key.modifiers.alt ==> action == Some(Action::EditorChar(key.code->Char_0))
            &&& action is Some ==> {
                ||| key.code == KeyCode::Enter && unmodified(key)
                ||| key.code == KeyCode::Enter && key.modifiers.control
                ||| key.code == KeyCode::Char('s') && key.modifiers.control
                ||| key.code == KeyCode::Esc && unmodified(key)
                ||| key.code == KeyCode::Enter && (key.modifiers.shift || key.modifiers.alt) && !key.modifiers.control
                ||| key.code == KeyCode::Backspace && (key.modifiers.alt || key.modifiers.control)
                ||| key.code == KeyCode::Char('h') && key.modifiers.control
                ||| key.code == KeyCode::Delete && (key.modifiers.alt || key.modifiers.control)
                ||| key.code == KeyCode::Char('u') && key.modifiers.control
                ||| key.code == KeyCode::Char('d') && key.modifiers.alt
                ||| key.code == KeyCode::Left && (key.modifiers.alt || key.modifiers.control)
                ||| key.code == KeyCode::Char('b') && key.modifiers.alt && !key.modifiers.shift
                ||| key.code == KeyCode::Right && (key.modifiers.alt || key.modifiers.control)
                ||| key.code == KeyCode::Char('f') && key.modifiers.alt && !key.modifiers.shift
                ||| key.code == KeyCode::Home && (key.modifiers.control || key.modifiers.alt)
                ||| key.code == KeyCode::End && (key.modifiers.control || key.modifiers.alt)
                ||| key.code == KeyCode::Left && !key.modifiers.alt && !key.modifiers.control
                ||| key.code == KeyCode::Right && !key.modifiers.alt && !key.modifiers.control
                ||| key.code == KeyCode::Up && !key.modifiers.alt && !key.modifiers.control
                ||| key.code == KeyCode::Down && !key.modifiers.alt && !key.modifiers.control
                ||| key.code == KeyCode::Home && !key.modifiers.alt && !key.modifiers.control
                ||| key.code == KeyCode::End && !key.modifiers.alt && !key.modifiers.control
                ||| key.code == KeyCode::Backspace && unmodified(key)
                ||| key.code == KeyCode::Delete && unmodified(key)
                ||| key.code is Char && !key.modifiers.control && !key.modifiers.alt
            }
        }),
{
}

/// Typing into the commit filter.
pub proof fn law_commit_filter_keys(key: KeyEvent)
    requires
        key.kind != KeyEventKind::Release,
        !everywhere(key),
        !moves_focus(key),
        key.code != KeyCode::F(5),
        !edits_line(key),
    ensures
        ({
            let action = keybindings::key_action(key, AppMode::Normal, FocusedPanel::Graph, false, false, true);
            &&& key.code == KeyCode::Enter && unmodified(key) ==> action == Some(Action::Confirm)
            &&& key.code == KeyCode::Esc && unmodified(key) ==> action == Some(Action::Cancel)
            &&& key.code == KeyCode::Up && unmodified(key) ==> action == Some(Action::MoveUp)
            &&& key.code == KeyCode::Down && unmodified(key) ==> action == Some(Action::MoveDown)
            &&& key.code == KeyCode::Backspace && unmodified(key) ==> action == Some(Action::CommitFilterBackspace)
            &&& key.code is Char && (unmodified(key) || shift_only(key)) ==> action == Some(Action::CommitFilterChar(key.code->Char_0))
            &&& action is Some ==> {
                ||| key.code == KeyCode::Enter && unmodified(key)
                ||| key.code == KeyCode::Esc && unmodified(key)
                ||| key.code == KeyCode::Up && unmodified(key)
                ||| key.code == KeyCode::Down && unmodified(key)
                ||| key.code == KeyCode::Backspace && unmodified(key)
                ||| key.code is Char && (unmodified(key) || shift_only(key))
            }
        }),
{
}

/// Typing into the files filter.
pub proof fn law_files_filter_keys(key: KeyEvent)
    requires
        key.kind != KeyEventKind::Release,
        !everywhere(key),
        !moves_focus(key),
        key.code != KeyCode::F(5),
        !edits_line(key),
    ensures
        ({
            let action = keybindings::key_action(key, AppMode::Normal, FocusedPanel::Files, false, true, false);
            &&& key.code == KeyCode::Enter && unmodified(key) ==> action == Some(Action::Confirm)
            &&& key.code == KeyCode::Esc && unmodified(key) ==> action == Some(Action::Cancel)
            &&& key.code == KeyCode::Backspace && unmodified(key) ==> action == Some(Action::FilesFilterBackspace)
            &&& key.code is Char && (unmodified(key) || shift_only(key)) ==> action == Some(Action::FilesFilterChar(key.code->Char_0))
            &&& action is Some ==> {
                ||| key.code == KeyCode::Enter && unmodified(key)
                ||| key.code == KeyCode::Esc && unmodified(key)
                ||| key.code == KeyCode::Backspace && unmodified(key)
                ||| key.code is Char && (unmodified(key) || shift_only(key))
            }
        }),
{
}

/// The file diff viewer.
#[verifier::rlimit(40)]
pub proof fn law_file_diff_keys(key: KeyEvent, panel: FocusedPanel)
    requires
        key.kind != KeyEventKind::Release,
        !everywhere(key),
    ensures
        ({
            let action = keybindings::key_action(key, AppMode::FileDiff, panel, false, false, false);
            &&& key.code == KeyCode::Char('w') && key.modifiers.control && key.modifiers.alt ==> action == Some(Action::ToggleDiffWrap)
            &&& key.code == KeyCode::Char('W') && key.modifiers.control && key.modifiers.alt ==> action == Some(Action::ToggleDiffWrap)
            &&& key.code == KeyCode::Down && unmodified(key) ==> action == Some(Action::ScrollDown)
            &&& key.code == KeyCode::Char('j') && unmodified(key) ==> action == Some(Action::ScrollDown)
            &&& key.code == KeyCode::Up && unmodified(key) ==> action == Some(Action::ScrollUp)
            &&& key.code == KeyCode::Char('k') && unmodified(key) ==> action == Some(Action::ScrollUp)
            &&& key.code == KeyCode::Char('d') && control_only(key) ==> action == Some(Action::ScrollPageDown)
            &&& key.code == KeyCode::Char('u') && control_only(key) ==> action == Some(Action::ScrollPageUp)
            &&& key.code == KeyCode::Char('f') && control_only(key) ==> action == Some(Action::PageDown)
            &&& key.code == KeyCode::PageDown && unmodified(key) ==> action == Some(Action::PageDown)
            &&& key.code == KeyCode::Char('b') && control_only(key) ==> action == Some(Action::PageUp)
            &&& key.code == KeyCode::PageUp && unmodified(key) ==> action == Some(Action::PageUp)
            &&& key.code == KeyCode::Char('g') && unmodified(key) ==> action == Some(Action::ScrollToTop)
            &&& key.code == KeyCode::Home && unmodified(key) ==> action == Some(Action::ScrollToTop)
            &&& key.code == KeyCode::Char('G') && shift_only(key) ==> action == Some(Action::ScrollToBottom)
            &&& key.code == KeyCode::End && unmodified(key) ==> action == Some(Action::ScrollToBottom)
            &&& key.code == KeyCode::Char('h') && unmodified(key) ==> action == Some(Action::ScrollLeft)
            &&& key.code == KeyCode::Left && unmodified(key) ==> action == Some(Action::ScrollLeft)
            &&& key.code == KeyCode::Char('l') && unmodified(key) ==> action == Some(Action::ScrollRight)
            &&& key.code == KeyCode::Right && unmodified(key) ==> action == Some(Action::ScrollRight)
            &&& key.code == KeyCode::Char('0') && unmodified(key) ==> action == Some(Action::ScrollToLineStart)
            &&& key.code == KeyCode::Char(']') ==> action == Some(Action::NextHunk)
            &&& key.code == KeyCode::Char('[') ==> action == Some(Action::PrevHunk)
            &&& key.code == KeyCode::Char('n') && unmodified(key) ==> action == Some(Action::NextFile)
            &&& key.code == KeyCode::Char('N') && shift_only(key) ==> action == Some(Action::PrevFile)
            &&& key.code == KeyCode::Char('s') && unmodified(key) ==> action == Some(Action::StageHunk)
            &&& key.code == KeyCode::Char('u') && unmodified(key) ==> action == Some(Action::UnstageHunk)
            &&& key.code == KeyCode::Char('x') && unmodified(key) ==> action == Some(Action::DiscardHunk)
            &&& key.code == KeyCode::Esc && unmodified(key) ==> action == Some(Action::Cancel)
            &&& key.code == KeyCode::Char('q') && unmodified(key) ==> action == Some(Action::Cancel)
            &&& action is Some ==> {
                ||| key.code == KeyCode::Char('w') && key.modifiers.control && key.modifiers.alt
                ||| key.code == KeyCode::Char('W') && key.modifiers.control && key.modifiers.alt
                ||| key.code == KeyCode::Down && unmodified(key)
                ||| key.code == KeyCode::Char('j') && unmodified(key)
                ||| key.code == KeyCode::Up && unmodified(key)
                ||| key.code == KeyCode::Char('k') && unmodified(key)
                ||| key.code == KeyCode::Char('d') && control_only(key)
                ||| key.code == KeyCode::Char('u') && control_only(key)
                ||| key.code == KeyCode::Char('f') && control_only(key)
                ||| key.code == KeyCode::PageDown && unmodified(key)
                ||| key.code == KeyCode::Char('b') && control_only(key)
                ||| key.code == KeyCode::PageUp && unmodified(key)
                ||| key.code == KeyCode::Char('g') && unmodified(key)
                ||| key.code == KeyCode::Home && unmodified(key)
                ||| key.code == KeyCode::Char('G') && shift_only(key)
                ||| key.code == KeyCode::End && unmodified(key)
                ||| key.code == KeyCode::Char('h') && unmodified(key)
                ||| key.code == KeyCode::Left && unmodified(key)
                ||| key.code == KeyCode::Char('l') && unmodified(key)
                ||| key.code == KeyCode::Right && unmodified(key)
                ||| key.code == KeyCode::Char('0') && unmodified(key)
                ||| key.code == KeyCode::Char(']')
                ||| key.code == KeyCode::Char('[')
                ||| key.code == KeyCode::Char('n') && unmodified(key)
                ||| key.code == KeyCode::Char('N') && shift_only(key)
                ||| key.code == KeyCode::Char('s') && unmodified(key)
                ||| key.code == KeyCode::Char('u') && unmodified(key)
                ||| key.code == KeyCode::Char('x') && unmodified(key)
                ||| key.code == KeyCode::Esc && unmodified(key)
                ||| key.code == KeyCode::Char('q') && unmodified(key)
            }
        }),
{
}

/// The branch search prompt.
pub proof fn law_search_keys(key: KeyEvent, panel: FocusedPanel)
    requires
        key.kind != KeyEventKind::Release,
        !everywhere(key),
        !edits_line(key),
    ensures
        ({
            let action = keybindings::key_action(key, (AppMode::Input { action: InputAction::Search }), panel, false, false, false);
            &&& key.code == KeyCode::Up && unmodified(key) ==> action == Some(Action::SearchSelectUp)
            &&& key.code == KeyCode::Char('k') && control_only(key) ==> action == Some(Action::SearchSelectUp)
            &&& key.code == KeyCode::Down && unmodified(key) ==> action == Some(Action::SearchSelectDown)
            &&& key.code == KeyCode::Char('j') && control_only(key) ==> action == Some(Action::SearchSelectDown)
            &&& key.code == KeyCode::Tab && unmodified(key) ==> action == Some(Action::SearchSelectDownQuiet)
            &&& key.code == KeyCode::BackTab && shift_only(key) ==> action == Some(Action::SearchSelectUpQuiet)
            &&& key.code == KeyCode::Enter ==> action == Some(Action::Confirm)
            &&& key.code == KeyCode::Esc ==> action == Some(Action::Cancel)
            &&& key.code == KeyCode::Backspace ==> action == Some(Action::InputBackspace)
            &&& key.code == KeyCode::Delete ==> action == Some(Action::InputBackspace)
            &&& key.code is Char && !(key.code == KeyCode::Char('k') && control_only(key)) && !(key.code == KeyCode::Char('j') && control_only(key)) ==> action == Some(Action::InputChar(key.code->Char_0))
            &&& action is Some ==> {
                ||| key.code == KeyCode::Up && unmodified(key)
                ||| key.code == KeyCode::Char('k') && control_only(key)
                ||| key.code == KeyCode::Down && unmodified(key)
                ||| key.code == KeyCode::Char('j') && control_only(key)
                ||| key.code == KeyCode::Tab && unmodified(key)
                ||| key.code == KeyCode::BackTab && shift_only(key)
                ||| key.code == KeyCode::Enter
                ||| key.code == KeyCode::Esc
                ||| key.code == KeyCode::Backspace
                ||| key.code == KeyCode::Delete
                ||| key.code is Char && !(key.code == KeyCode::Char('k') && control_only(key)) && !(key.code == KeyCode::Char('j') && control_only(key))
            }
        }),
{
}

/// Any other single-line prompt.
pub proof fn law_prompt_keys(key: KeyEvent, panel: FocusedPanel)
    requires
        key.kind != KeyEventKind::Release,
        !everywhere(key),
        !edits_line(key),
    ensures
        ({
            let action = keybindings::key_action(key, (AppMode::Input { action: InputAction::Prompt }), panel, false, false, false);
            &&& key.code == KeyCode::Enter ==> action == Some(Action::Confirm)
            &&& key.code == KeyCode::Esc ==> action == Some(Action::Cancel)
            &&& key.code == KeyCode::Backspace ==> action == Some(Action::InputBackspace)
            &&& key.code is Char ==> action == Some(Action::InputChar(key.code->Char_0))
            &&& action is Some ==> {
                ||| key.code == KeyCode::Enter
                ||| key.code == KeyCode::Esc
                ||| key.code == KeyCode::Backspace
                ||| key.code is Char
            }
        }),
{
}

/// A confirmation: `y` and Enter confirm, `n` and Esc cancel, and `Ctrl+Enter` or `R` confirms
/// for the remote branch too.
pub proof fn law_confirmation_keys(key: KeyEvent, panel: FocusedPanel)
    requires
        key.kind != KeyEventKind::Release,
        !everywhere(key),
    ensures
        ({
            let action = keybindings::key_action(key, AppMode::Confirm, panel, false, false, false);
            &&& key.code == KeyCode::Enter && key.modifiers.control ==> action == Some(Action::ConfirmDeleteBranchAndRemote)
            &&& key.code == KeyCode::Char('R') ==> action == Some(Action::ConfirmDeleteBranchAndRemote)
            &&& key.code == KeyCode::Char('y') ==> action == Some(Action::Confirm)
            &&& key.code == KeyCode::Enter && !key.modifiers.control ==> action == Some(Action::Confirm)
            &&& key.code == KeyCode::Char('n') ==> action == Some(Action::Cancel)
            &&& key.code == KeyCode::Esc ==> action == Some(Action::Cancel)
            &&& action is Some ==> {
                ||| key.code == KeyCode::Enter && key.modifiers.control
                ||| key.code == KeyCode::Char('R')
                ||| key.code == KeyCode::Char('y')
                ||| key.code == KeyCode::Enter && !key.modifiers.control
                ||| key.code == KeyCode::Char('n')
                ||| key.code == KeyCode::Esc
            }
        }),
{
}

/// An error message is closed by Esc, Enter or `q`.
pub proof fn law_error_keys(key: KeyEvent, panel: FocusedPanel)
    requires
        key.kind != KeyEventKind::Release,
        !everywhere(key),
    ensures
        ({
            let action = keybindings::key_action(key, AppMode::Error, panel, false, false, false);
            &&& key.code == KeyCode::Esc ==> action == Some(Action::Cancel)
            &&& key.code == KeyCode::Enter ==> action == Some(Action::Cancel)
            &&& key.code == KeyCode::Char('q') ==> action == Some(Action::Cancel)
            &&& action is Some ==> {
                ||| key.code == KeyCode::Esc
                ||| key.code == KeyCode::Enter
                ||| key.code == KeyCode::Char('q')
            }
        }),
{
}

/// The help popup is closed by Esc, `q` or `?`.
pub proof fn law_help_keys(key: KeyEvent, panel: FocusedPanel)
    requires
        key.kind != KeyEventKind::Release,
        !everywhere(key),
    ensures
        ({
            let action = keybindings::key_action(key, AppMode::Help, panel, false, false, false);
            &&& key.code == KeyCode::Esc ==> action == Some(Action::ToggleHelp)
            &&& key.code == KeyCode::Char('q') ==> action == Some(Action::ToggleHelp)
            &&& key.code == KeyCode::Char('?') ==> action == Some(Action::ToggleHelp)
            &&& action is Some ==> {
                ||| key.code == KeyCode::Esc
                ||| key.code == KeyCode::Char('q')
                ||| key.code == KeyCode::Char('?')
            }
        }),
{
}

/// The command palette.
pub proof fn law_command_palette_keys(key: KeyEvent, panel: FocusedPanel)
    requires
        key.kind != KeyEventKind::Release,
        !everywhere(key),
        !edits_line(key),
    ensures
        ({
            let action = keybindings::key_action(key, AppMode::CommandPalette, panel, false, false, false);
            &&& key.code == KeyCode::Up && unmodified(key) ==> action == Some(Action::MoveUp)
            &&& key.code == KeyCode::Down && unmodified(key) ==> action == Some(Action::MoveDown)
            &&& key.code == KeyCode::Enter && unmodified(key) ==> action == Some(Action::MenuSelect)
            &&& key.code == KeyCode::Esc && unmodified(key) ==> action == Some(Action::Cancel)
            &&& key.code == KeyCode::Backspace && unmodified(key) ==> action == Some(Action::InputBackspace)
            &&& key.code is Char && (unmodified(key) || shift_only(key)) ==> action == Some(Action::InputChar(key.code->Char_0))
            &&& action is Some ==> {
                ||| key.code == KeyCode::Up && unmodified(key)
                ||| key.code == KeyCode::Down && unmodified(key)
                ||| key.code == KeyCode::Enter && unmodified(key)
                ||| key.code == KeyCode::Esc && unmodified(key)
                ||| key.code == KeyCode::Backspace && unmodified(key)
                ||| key.code is Char && (unmodified(key) || shift_only(key))
            }
        }),
{
}

/// The settings menu.
pub proof fn law_settings_keys(key: KeyEvent, panel: FocusedPanel)
    requires
        key.kind != KeyEventKind::Release,
        !everywhere(key),
        !edits_line(key),
    ensures
        ({
            let action = keybindings::key_action(key, AppMode::Settings, panel, false, false, false);
            &&& key.code == KeyCode::Up && unmodified(key) ==> action == Some(Action::MoveUp)
            &&& key.code == KeyCode::Down && unmodified(key) ==> action == Some(Action::MoveDown)
            &&& key.code == KeyCode::Char(' ') && unmodified(key) ==> action == Some(Action::MenuSelect)
            &&& key.code == KeyCode::Enter && unmodified(key) ==> action == Some(Action::MenuSelect)
            &&& key.code == KeyCode::Esc && unmodified(key) ==> action == Some(Action::Cancel)
            &&& key.code == KeyCode::Backspace && unmodified(key) ==> action == Some(Action::InputBackspace)
            &&& key.code is Char && (unmodified(key) || shift_only(key)) && !(key.code == KeyCode::Char(' ') && unmodified(key)) ==> action == Some(Action::InputChar(key.code->Char_0))
            &&& action is Some ==> {
                ||| key.code == KeyCode::Up && unmodified(key)
                ||| key.code == KeyCode::Down && unmodified(key)
                ||| key.code == KeyCode::Char(' ') && unmodified(key)
                ||| key.code == KeyCode::Enter && unmodified(key)
                ||| key.code == KeyCode::Esc && unmodified(key)
                ||| key.code == KeyCode::Backspace && unmodified(key)
                ||| key.code is Char && (unmodified(key) || shift_only(key)) && !(key.code == KeyCode::Char(' ') && unmodified(key))
            }
        }),
{
}

/// The commit actions menu.
pub proof fn law_commit_menu_keys(key: KeyEvent, panel: FocusedPanel)
    requires
        key.kind != KeyEventKind::Release,
        !everywhere(key),
        !edits_line(key),
    ensures
        ({
            let action = keybindings::key_action(key, AppMode::CommitMenu, panel, false, false, false);
            &&& key.code == KeyCode::Up && unmodified(key) ==> action == Some(Action::MoveUp)
            &&& key.code == KeyCode::Down && unmodified(key) ==> action == Some(Action::MoveDown)
            &&& key.code == KeyCode::Enter && unmodified(key) ==> action == Some(Action::MenuSelect)
            &&& key.code == KeyCode::Esc && unmodified(key) ==> action == Some(Action::Cancel)
            &&& key.code == KeyCode::Char('q') && unmodified(key) ==> action == Some(Action::Cancel)
            &&& key.code == KeyCode::Backspace && unmodified(key) ==> action == Some(Action::InputBackspace)
            &&& key.code is Char && (unmodified(key) || shift_only(key)) && !(key.code == KeyCode::Char('q') && unmodified(key)) ==> action == Some(Action::InputChar(key.code->Char_0))
            &&& action is Some ==> {
                ||| key.code == KeyCode::Up && unmodified(key)
                ||| key.code == KeyCode::Down && unmodified(key)
                ||| key.code == KeyCode::Enter && unmodified(key)
                ||| key.code == KeyCode::Esc && unmodified(key)
                ||| key.code == KeyCode::Char('q') && unmodified(key)
                ||| key.code == KeyCode::Backspace && unmodified(key)
                ||| key.code is Char && (unmodified(key) || shift_only(key)) && !(key.code == KeyCode::Char('q') && unmodified(key))
            }
        }),
{
}

/// The branch filter.
pub proof fn law_branch_filter_keys(key: KeyEvent, panel: FocusedPanel)
    requires
        key.kind != KeyEventKind::Release,
        !everywhere(key),
        !edits_line(key),
    ensures
        ({
            let action = keybindings::key_action(key, AppMode::BranchFilter, panel, false, false, false);
            &&& key.code == KeyCode::Up && unmodified(key) ==> action == Some(Action::MoveUp)
            &&& key.code == KeyCode::Down && unmodified(key) ==> action == Some(Action::MoveDown)
            &&& key.code == KeyCode::Char(' ') && unmodified(key) ==> action == Some(Action::MenuSelect)
            &&& key.code == KeyCode::Char('a') && control_only(key) ==> action == Some(Action::SelectAll)
            &&& key.code == KeyCode::Char('o') && control_only(key) ==> action == Some(Action::SelectNone)
            &&& key.code == KeyCode::Enter && unmodified(key) ==> action == Some(Action::Confirm)
            &&& key.code == KeyCode::Backspace && unmodified(key) ==> action == Some(Action::InputBackspace)
            &&& key.code == KeyCode::Esc && unmodified(key) ==> action == Some(Action::Cancel)
            &&& key.code is Char && (unmodified(key) || shift_only(key)) && !(key.code == KeyCode::Char(' ') && unmodified(key)) ==> action == Some(Action::InputChar(key.code->Char_0))
            &&& action is Some ==> {
                ||| key.code == KeyCode::Up && unmodified(key)
                ||| key.code == KeyCode::Down && unmodified(key)
                ||| key.code == KeyCode::Char(' ') && unmodified(key)
                ||| key.code == KeyCode::Char('a') && control_only(key)
                ||| key.code == KeyCode::Char('o') && control_only(key)
                ||| key.code == KeyCode::Enter && unmodified(key)
                ||| key.code == KeyCode::Backspace && unmodified(key)
                ||| key.code == KeyCode::Esc && unmodified(key)
                ||| key.code is Char && (unmodified(key) || shift_only(key)) && !(key.code == KeyCode::Char(' ') && unmodified(key))
            }
        }),
{
}

/// The small pickers and the file history.
pub proof fn law_picker_keys(key: KeyEvent, panel: FocusedPanel, mode: AppMode)
    requires
        key.kind != KeyEventKind::Release,
        !everywhere(key),
        ({
            ||| mode == AppMode::BranchPicker
            ||| mode == AppMode::BranchDeletePicker
            ||| mode == AppMode::TagPicker
            ||| mode == AppMode::RemotePicker
            ||| mode == AppMode::FileHistory
        }),
    ensures
        ({
            let action = keybindings::key_action(key, mode, panel, false, false, false);
            &&& key.code == KeyCode::Up && unmodified(key) ==> action == Some(Action::MoveUp)
            &&& key.code == KeyCode::Down && unmodified(key) ==> action == Some(Action::MoveDown)
            &&& key.code == KeyCode::Enter && unmodified(key) ==> action == Some(Action::MenuSelect)
            &&& key.code == KeyCode::Esc && unmodified(key) ==> action == Some(Action::Cancel)
            &&& key.code == KeyCode::Char('q') && unmodified(key) ==> action == Some(Action::Cancel)
            &&& action is Some ==> {
                ||| key.code == KeyCode::Up && unmodified(key)
                ||| key.code == KeyCode::Down && unmodified(key)
                ||| key.code == KeyCode::Enter && unmodified(key)
                ||| key.code == KeyCode::Esc && unmodified(key)
                ||| key.code == KeyCode::Char('q') && unmodified(key)
            }
        }),
{
}

/// The choices after a divergent pull, and those of merging and reviewing a pull request.
pub proof fn law_choice_keys(key: KeyEvent, panel: FocusedPanel, mode: AppMode)
    requires
        key.kind != KeyEventKind::Release,
        !everywhere(key),
        ({
            ||| mode == AppMode::PullDivergence
            ||| mode == AppMode::PrMergePicker
            ||| mode == AppMode::PrReviewPicker
        }),
    ensures
        ({
            let action = keybindings::key_action(key, mode, panel, false, false, false);
            &&& key.code == KeyCode::Up && unmodified(key) ==> action == Some(Action::MoveUp)
            &&& key.code == KeyCode::Char('k') && unmodified(key) ==> action == Some(Action::MoveUp)
            &&& key.code == KeyCode::Down && unmodified(key) ==> action == Some(Action::MoveDown)
            &&& key.code == KeyCode::Char('j') && unmodified(key) ==> action == Some(Action::MoveDown)
            &&& key.code == KeyCode::Enter && unmodified(key) ==> action == Some(Action::MenuSelect)
            &&& key.code == KeyCode::Esc && unmodified(key) ==> action == Some(Action::Cancel)
            &&& key.code == KeyCode::Char('q') && unmodified(key) ==> action == Some(Action::Cancel)
            &&& action is Some ==> {
                ||| key.code == KeyCode::Up && unmodified(key)
                ||| key.code == KeyCode::Char('k') && unmodified(key)
                ||| key.code == KeyCode::Down && unmodified(key)
                ||| key.code == KeyCode::Char('j') && unmodified(key)
                ||| key.code == KeyCode::Enter && unmodified(key)
                ||| key.code == KeyCode::Esc && unmodified(key)
                ||| key.code == KeyCode::Char('q') && unmodified(key)
            }
        }),
{
}

/// The metadata column menu.
pub proof fn law_metadata_menu_keys(key: KeyEvent, panel: FocusedPanel)
    requires
        key.kind != KeyEventKind::Release,
        !everywhere(key),
    ensures
        ({
            let action = keybindings::key_action(key, AppMode::MetadataMenu, panel, false, false, false);
            &&& key.code == KeyCode::Up && unmodified(key) ==> action == Some(Action::MoveUp)
            &&& key.code == KeyCode::Char('k') && unmodified(key) ==> action == Some(Action::MoveUp)
            &&& key.code == KeyCode::Down && unmodified(key) ==> action == Some(Action::MoveDown)
            &&& key.code == KeyCode::Char('j') && unmodified(key) ==> action == Some(Action::MoveDown)
            &&& key.code == KeyCode::Char(' ') && unmodified(key) ==> action == Some(Action::MenuSelect)
            &&& key.code == KeyCode::Enter && unmodified(key) ==> action == Some(Action::MenuSelect)
            &&& key.code == KeyCode::Esc && unmodified(key) ==> action == Some(Action::Cancel)
            &&& key.code == KeyCode::Char('q') && unmodified(key) ==> action == Some(Action::Cancel)
            &&& action is Some ==> {
                ||| key.code == KeyCode::Up && unmodified(key)
                ||| key.code == KeyCode::Char('k') && unmodified(key)
                ||| key.code == KeyCode::Down && unmodified(key)
                ||| key.code == KeyCode::Char('j') && unmodified(key)
                ||| key.code == KeyCode::Char(' ') && unmodified(key)
                ||| key.code == KeyCode::Enter && unmodified(key)
                ||| key.code == KeyCode::Esc && unmodified(key)
                ||| key.code == KeyCode::Char('q') && unmodified(key)
            }
        }),
{
}

/// The pull request conversation.
pub proof fn law_conversation_keys(key: KeyEvent, panel: FocusedPanel)
    requires
        key.kind != KeyEventKind::Release,
        !everywhere(key),
    ensures
        ({
            let action = keybindings::key_action(key, AppMode::PrThread, panel, false, false, false);
            &&& key.code == KeyCode::Up && unmodified(key) ==> action == Some(Action::MoveUp)
            &&& key.code == KeyCode::Char('k') && unmodified(key) ==> action == Some(Action::MoveUp)
            &&& key.code == KeyCode::Down && unmodified(key) ==> action == Some(Action::MoveDown)
            &&& key.code == KeyCode::Char('j') && unmodified(key) ==> action == Some(Action::MoveDown)
            &&& key.code == KeyCode::Char('u') && control_only(key) ==> action == Some(Action::PageUp)
            &&& key.code == KeyCode::PageUp && unmodified(key) ==> action == Some(Action::PageUp)
            &&& key.code == KeyCode::Char('d') && control_only(key) ==> action == Some(Action::PageDown)
            &&& key.code == KeyCode::PageDown && unmodified(key) ==> action == Some(Action::PageDown)
            &&& key.code == KeyCode::Char('g') && unmodified(key) ==> action == Some(Action::GoToTop)
            &&& key.code == KeyCode::Home && unmodified(key) ==> action == Some(Action::GoToTop)
            &&& key.code == KeyCode::Char('G') && shift_only(key) ==> action == Some(Action::GoToBottom)
            &&& key.code == KeyCode::End && unmodified(key) ==> action == Some(Action::GoToBottom)
            &&& key.code == KeyCode::Char('o') && unmodified(key) ==> action == Some(Action::OpenPr)
            &&& key.code == KeyCode::Char('r') && unmodified(key) ==> action == Some(Action::OpenReviewPicker)
            &&& key.code == KeyCode::Esc && unmodified(key) ==> action == Some(Action::Cancel)
            &&& key.code == KeyCode::Char('q') && unmodified(key) ==> action == Some(Action::Cancel)
            &&& action is Some ==> {
                ||| key.code == KeyCode::Up && unmodified(key)
                ||| key.code == KeyCode::Char('k') && unmodified(key)
                ||| key.code == KeyCode::Down && unmodified(key)
                ||| key.code == KeyCode::Char('j') && unmodified(key)
                ||| key.code == KeyCode::Char('u') && control_only(key)
                ||| key.code == KeyCode::PageUp && unmodified(key)
                ||| key.code == KeyCode::Char('d') && control_only(key)
                ||| key.code == KeyCode::PageDown && unmodified(key)
                ||| key.code == KeyCode::Char('g') && unmodified(key)
                ||| key.code == KeyCode::Home && unmodified(key)
                ||| key.code == KeyCode::Char('G') && shift_only(key)
                ||| key.code == KeyCode::End && unmodified(key)
                ||| key.code == KeyCode::Char('o') && unmodified(key)
                ||| key.code == KeyCode::Char('r') && unmodified(key)
                ||| key.code == KeyCode::Esc && unmodified(key)
                ||| key.code == KeyCode::Char('q') && unmodified(key)
            }
        }),
{
}

/// The issue list.
#[verifier::rlimit(40)]
pub proof fn law_issue_list_keys(key: KeyEvent, panel: FocusedPanel)
    requires
        key.kind != KeyEventKind::Release,
        !everywhere(key),
    ensures
        ({
            let action = keybindings::key_action(key, AppMode::IssueList, panel, false, false, false);
            &&& key.code == KeyCode::Up && unmodified(key) ==> action == Some(Action::MoveUp)
            &&& key.code == KeyCode::Char('k') && unmodified(key) ==> action == Some(Action::MoveUp)
            &&& key.code == KeyCode::Down && unmodified(key) ==> action == Some(Action::MoveDown)
            &&& key.code == KeyCode::Char('j') && unmodified(key) ==> action == Some(Action::MoveDown)
            &&& key.code == KeyCode::Char('u') && control_only(key) ==> action == Some(Action::PageUp)
            &&& key.code == KeyCode::PageUp && unmodified(key) ==> action == Some(Action::PageUp)
            &&& key.code == KeyCode::Char('d') && control_only(key) ==> action == Some(Action::PageDown)
            &&& key.code == KeyCode::PageDown && unmodified(key) ==> action == Some(Action::PageDown)
            &&& key.code == KeyCode::Char('g') && unmodified(key) ==> action == Some(Action::GoToTop)
            &&& key.code == KeyCode::Home && unmodified(key) ==> action == Some(Action::GoToTop)
            &&& key.code == KeyCode::Char('G') && shift_only(key) ==> action == Some(Action::GoToBottom)
            &&& key.code == KeyCode::End && unmodified(key) ==> action == Some(Action::GoToBottom)
            &&& key.code == KeyCode::Enter && unmodified(key) ==> action == Some(Action::OpenIssueDetail)
            &&& key.code == KeyCode::Tab && unmodified(key) ==> action == Some(Action::CycleIssueFilter)
            &&& key.code == KeyCode::Char('f') && unmodified(key) ==> action == Some(Action::CycleIssueFilter)
            &&& key.code == KeyCode::Char('r') && unmodified(key) ==> action == Some(Action::RefreshIssues)
            &&& key.code == KeyCode::Char('n') && unmodified(key) ==> action == Some(Action::NewIssue)
            &&& key.code == KeyCode::Char('t') && unmodified(key) ==> action == Some(Action::OpenIssueLabelFilter)
            &&& key.code == KeyCode::Char('u') && unmodified(key) ==> action == Some(Action::ToggleUnblockedOnly)
            &&& key.code == KeyCode::Char('l') && unmodified(key) ==> action == Some(Action::EditIssueLabels)
            &&& key.code == KeyCode::Char('o') && unmodified(key) ==> action == Some(Action::OpenIssueInBrowser)
            &&& key.code == KeyCode::Esc && unmodified(key) ==> action == Some(Action::Cancel)
            &&& key.code == KeyCode::Char('q') && unmodified(key) ==> action == Some(Action::Cancel)
            &&& action is Some ==> {
                ||| key.code == KeyCode::Up && unmodified(key)
                ||| key.code == KeyCode::Char('k') && unmodified(key)
                ||| key.code == KeyCode::Down && unmodified(key)
                ||| key.code == KeyCode::Char('j') && unmodified(key)
                ||| key.code == KeyCode::Char('u') && control_only(key)
                ||| key.code == KeyCode::PageUp && unmodified(key)
                ||| key.code == KeyCode::Char('d') && control_only(key)
                ||| key.code == KeyCode::PageDown && unmodified(key)
                ||| key.code == KeyCode::Char('g') && unmodified(key)
                ||| key.code == KeyCode::Home && unmodified(key)
                ||| key.code == KeyCode::Char('G') && shift_only(key)
                ||| key.code == KeyCode::End && unmodified(key)
                ||| key.code == KeyCode::Enter && unmodified(key)
                ||| key.code == KeyCode::Tab && unmodified(key)
                ||| key.code == KeyCode::Char('f') && unmodified(key)
                ||| key.code == KeyCode::Char('r') && unmodified(key)
                ||| key.code == KeyCode::Char('n') && unmodified(key)
                ||| key.code == KeyCode::Char('t') && unmodified(key)
                ||| key.code == KeyCode::Char('u') && unmodified(key)
                ||| key.code == KeyCode::Char('l') && unmodified(key)
                ||| key.code == KeyCode::Char('o') && unmodified(key)
                ||| key.code == KeyCode::Esc && unmodified(key)
                ||| key.code == KeyCode::Char('q') && unmodified(key)
            }
        }),
{
}

/// One issue.
#[verifier::rlimit(40)]
pub proof fn law_issue_keys(key: KeyEvent, panel: FocusedPanel)
    requires
        key.kind != KeyEventKind::Release,
        !everywhere(key),
    ensures
        ({
            let action = keybindings::key_action(key, AppMode::IssueDetail, panel, false, false, false);
            &&& key.code == KeyCode::Up && unmodified(key) ==> action == Some(Action::MoveUp)
            &&& key.code == KeyCode::Char('k') && unmodified(key) ==> action == Some(Action::MoveUp)
            &&& key.code == KeyCode::Down && unmodified(key) ==> action == Some(Action::MoveDown)
            &&& key.code == KeyCode::Char('j') && unmodified(key) ==> action == Some(Action::MoveDown)
            &&& key.code == KeyCode::Char('u') && control_only(key) ==> action == Some(Action::PageUp)
            &&& key.code == KeyCode::PageUp && unmodified(key) ==> action == Some(Action::PageUp)
            &&& key.code == KeyCode::Char('d') && control_only(key) ==> action == Some(Action::PageDown)
            &&& key.code == KeyCode::PageDown && unmodified(key) ==> action == Some(Action::PageDown)
            &&& key.code == KeyCode::Char('g') && unmodified(key) ==> action == Some(Action::GoToTop)
            &&& key.code == KeyCode::Home && unmodified(key) ==> action == Some(Action::GoToTop)
            &&& key.code == KeyCode::Char('G') && shift_only(key) ==> action == Some(Action::GoToBottom)
            &&& key.code == KeyCode::End && unmodified(key) ==> action == Some(Action::GoToBottom)
            &&& key.code == KeyCode::Char('c') && unmodified(key) ==> action == Some(Action::CommentOnIssue)
            &&& key.code == KeyCode::Char('x') && unmodified(key) ==> action == Some(Action::ToggleIssueState)
            &&& key.code == KeyCode::Char('l') && unmodified(key) ==> action == Some(Action::EditIssueLabels)
            &&& key.code == KeyCode::Char('a') && unmodified(key) ==> action == Some(Action::EditIssueAssignees)
            &&& key.code == KeyCode::Char('o') && unmodified(key) ==> action == Some(Action::OpenIssueInBrowser)
            &&& key.code == KeyCode::Char('r') && unmodified(key) ==> action == Some(Action::RefreshIssues)
            &&& key.code == KeyCode::Esc && unmodified(key) ==> action == Some(Action::Cancel)
            &&& key.code == KeyCode::Char('q') && unmodified(key) ==> action == Some(Action::Cancel)
            &&& action is Some ==> {
                ||| key.code == KeyCode::Up && unmodified(key)
                ||| key.code == KeyCode::Char('k') && unmodified(key)
                ||| key.code == KeyCode::Down && unmodified(key)
                ||| key.code == KeyCode::Char('j') && unmodified(key)
                ||| key.code == KeyCode::Char('u') && control_only(key)
                ||| key.code == KeyCode::PageUp && unmodified(key)
                ||| key.code == KeyCode::Char('d') && control_only(key)
                ||| key.code == KeyCode::PageDown && unmodified(key)
                ||| key.code == KeyCode::Char('g') && unmodified(key)
                ||| key.code == KeyCode::Home && unmodified(key)
                ||| key.code == KeyCode::Char('G') && shift_only(key)
                ||| key.code == KeyCode::End && unmodified(key)
                ||| key.code == KeyCode::Char('c') && unmodified(key)
                ||| key.code == KeyCode::Char('x') && unmodified(key)
                ||| key.code == KeyCode::Char('l') && unmodified(key)
                ||| key.code == KeyCode::Char('a') && unmodified(key)
                ||| key.code == KeyCode::Char('o') && unmodified(key)
                ||| key.code == KeyCode::Char('r') && unmodified(key)
                ||| key.code == KeyCode::Esc && unmodified(key)
                ||| key.code == KeyCode::Char('q') && unmodified(key)
            }
        }),
{
}

/// The issue label filter.
pub proof fn law_issue_label_filter_keys(key: KeyEvent, panel: FocusedPanel)
    requires
        key.kind != KeyEventKind::Release,
        !everywhere(key),
    ensures
        ({
            let action = keybindings::key_action(key, AppMode::IssueLabelFilter, panel, false, false, false);
            &&& key.code == KeyCode::Up && unmodified(key) ==> action == Some(Action::MoveUp)
            &&& key.code == KeyCode::Char('k') && unmodified(key) ==> action == Some(Action::MoveUp)
            &&& key.code == KeyCode::Down && unmodified(key) ==> action == Some(Action::MoveDown)
            &&& key.code == KeyCode::Char('j') && unmodified(key) ==> action == Some(Action::MoveDown)
            &&& key.code == KeyCode::Char(' ') && unmodified(key) ==> action == Some(Action::ToggleIssueLabel)
            &&& key.code == KeyCode::Char('a') && control_only(key) ==> action == Some(Action::SelectAll)
            &&& key.code == KeyCode::Char('o') && control_only(key) ==> action == Some(Action::SelectNone)
            &&& key.code == KeyCode::Enter && unmodified(key) ==> action == Some(Action::MenuSelect)
            &&& key.code == KeyCode::Esc && unmodified(key) ==> action == Some(Action::Cancel)
            &&& key.code == KeyCode::Char('q') && unmodified(key) ==> action == Some(Action::Cancel)
            &&& action is Some ==> {
                ||| key.code == KeyCode::Up && unmodified(key)
                ||| key.code == KeyCode::Char('k') && unmodified(key)
                ||| key.code == KeyCode::Down && unmodified(key)
                ||| key.code == KeyCode::Char('j') && unmodified(key)
                ||| key.code == KeyCode::Char(' ') && unmodified(key)
                ||| key.code == KeyCode::Char('a') && control_only(key)
                ||| key.code == KeyCode::Char('o') && control_only(key)
                ||| key.code == KeyCode::Enter && unmodified(key)
                ||| key.code == KeyCode::Esc && unmodified(key)
                ||| key.code == KeyCode::Char('q') && unmodified(key)
            }
        }),
{
}

/// The issue label picker.
pub proof fn law_issue_label_picker_keys(key: KeyEvent, panel: FocusedPanel)
    requires
        key.kind != KeyEventKind::Release,
        !everywhere(key),
    ensures
        ({
            let action = keybindings::key_action(key, AppMode::IssueLabelPicker, panel, false, false, false);
            &&& key.code == KeyCode::Up && unmodified(key) ==> action == Some(Action::MoveUp)
            &&& key.code == KeyCode::Char('k') && unmodified(key) ==> action == Some(Action::MoveUp)
            &&& key.code == KeyCode::Down && unmodified(key) ==> action == Some(Action::MoveDown)
            &&& key.code == KeyCode::Char('j') && unmodified(key) ==> action == Some(Action::MoveDown)
            &&& key.code == KeyCode::Char(' ') && unmodified(key) ==> action == Some(Action::ToggleIssueLabel)
            &&& key.code == KeyCode::Enter && unmodified(key) ==> action == Some(Action::MenuSelect)
            &&& key.code == KeyCode::Esc && unmodified(key) ==> action == Some(Action::Cancel)
            &&& key.code == KeyCode::Char('q') && unmodified(key) ==> action == Some(Action::Cancel)
            &&& action is Some ==> {
                ||| key.code == KeyCode::Up && unmodified(key)
                ||| key.code == KeyCode::Char('k') && unmodified(key)
                ||| key.code == KeyCode::Down && unmodified(key)
                ||| key.code == KeyCode::Char('j') && unmodified(key)
                ||| key.code == KeyCode::Char(' ') && unmodified(key)
                ||| key.code == KeyCode::Enter && unmodified(key)
                ||| key.code == KeyCode::Esc && unmodified(key)
                ||| key.code == KeyCode::Char('q') && unmodified(key)
            }
        }),
{
}

/// The list of CI checks.
pub proof fn law_ci_check_keys(key: KeyEvent, panel: FocusedPanel)
    requires
        key.kind != KeyEventKind::Release,
        !everywhere(key),
    ensures
        ({
            let action = keybindings::key_action(key, AppMode::CiChecks, panel, false, false, false);
            &&& key.code == KeyCode::Up && unmodified(key) ==> action == Some(Action::MoveUp)
            &&& key.code == KeyCode::Char('k') && unmodified(key) ==> action == Some(Action::MoveUp)
            &&& key.code == KeyCode::Down && unmodified(key) ==> action == Some(Action::MoveDown)
            &&& key.code == KeyCode::Char('j') && unmodified(key) ==> action == Some(Action::MoveDown)
            &&& key.code == KeyCode::Char('u') && control_only(key) ==> action == Some(Action::PageUp)
            &&& key.code == KeyCode::PageUp && unmodified(key) ==> action == Some(Action::PageUp)
            &&& key.code == KeyCode::Char('d') && control_only(key) ==> action == Some(Action::PageDown)
            &&& key.code == KeyCode::PageDown && unmodified(key) ==> action == Some(Action::PageDown)
            &&& key.code == KeyCode::Char('g') && unmodified(key) ==> action == Some(Action::GoToTop)
            &&& key.code == KeyCode::Home && unmodified(key) ==> action == Some(Action::GoToTop)
            &&& key.code == KeyCode::Char('G') && shift_only(key) ==> action == Some(Action::GoToBottom)
            &&& key.code == KeyCode::End && unmodified(key) ==> action == Some(Action::GoToBottom)
            &&& key.code == KeyCode::Enter && unmodified(key) ==> action == Some(Action::MenuSelect)
            &&& key.code == KeyCode::Char('o') && unmodified(key) ==> action == Some(Action::OpenPr)
            &&& key.code == KeyCode::Esc && unmodified(key) ==> action == Some(Action::Cancel)
            &&& key.code == KeyCode::Char('q') && unmodified(key) ==> action == Some(Action::Cancel)
            &&& action is Some ==> {
                ||| key.code == KeyCode::Up && unmodified(key)
                ||| key.code == KeyCode::Char('k') && unmodified(key)
                ||| key.code == KeyCode::Down && unmodified(key)
                ||| key.code == KeyCode::Char('j') && unmodified(key)
                ||| key.code == KeyCode::Char('u') && control_only(key)
                ||| key.code == KeyCode::PageUp && unmodified(key)
                ||| key.code == KeyCode::Char('d') && control_only(key)
                ||| key.code == KeyCode::PageDown && unmodified(key)
                ||| key.code == KeyCode::Char('g') && unmodified(key)
                ||| key.code == KeyCode::Home && unmodified(key)
                ||| key.code == KeyCode::Char('G') && shift_only(key)
                ||| key.code == KeyCode::End && unmodified(key)
                ||| key.code == KeyCode::Enter && unmodified(key)
                ||| key.code == KeyCode::Char('o') && unmodified(key)
                ||| key.code == KeyCode::Esc && unmodified(key)
                ||| key.code == KeyCode::Char('q') && unmodified(key)
            }
        }),
{
}

/// Composing a comment or an issue: Esc leaves, `Ctrl+s` and `Ctrl+Enter` submit,
/// `Ctrl+e` opens the editor of the system, Enter breaks the line, and the rest is
/// the message editor.
pub proof fn law_compose_keys(key: KeyEvent, panel: FocusedPanel, mode: AppMode)
    requires
        key.kind != KeyEventKind::Release,
        !everywhere(key),
        mode == AppMode::PrCompose || mode == AppMode::IssueCompose,
    ensures
        ({
            let action = keybindings::key_action(key, mode, panel, false, false, false);
            let special = {
                ||| key.code == KeyCode::Esc
                ||| key.code == KeyCode::Enter && (key.modifiers.control || unmodified(key))
                ||| (key.code == KeyCode::Char('s') || key.code == KeyCode::Char('e')) && key.modifiers.control
            };
            &&& key.code == KeyCode::Esc ==> action == Some(Action::Cancel)
            &&& key.code == KeyCode::Char('s') && key.modifiers.control ==> action == Some(Action::SubmitCompose)
            &&& key.code == KeyCode::Enter && key.modifiers.control ==> action == Some(Action::SubmitCompose)
            &&& key.code == KeyCode::Char('e') && key.modifiers.control ==> action == Some(Action::ExternalEdit)
            &&& key.code == KeyCode::Enter && unmodified(key) ==> action == Some(Action::EditorNewline)
            &&& !special && key.code != KeyCode::F(5) ==> action == keybindings::key_action(
                key,
                AppMode::Normal,
                FocusedPanel::CommitDetail,
                true,
                false,
                false,
            )
        }),
{
}

/// The rebase plan has no keys of its own here.
pub proof fn law_rebase_plan_keys(key: KeyEvent, panel: FocusedPanel)
    requires
        !everywhere(key),
    ensures
        keybindings::key_action(key, AppMode::RebasePlan, panel, false, false, false) is None,
{
}

} // verus!
