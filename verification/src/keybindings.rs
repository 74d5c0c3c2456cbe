//! The built-in keys of every mode.
pub mod tables;

use vstd::prelude::*;

use crate::action::Action;
use crate::app::{AppMode, FocusedPanel, InputAction};
use crate::keys::{KeyCode, KeyEvent, KeyEventKind, KeyModifiers, MouseButton, MouseEvent, MouseEventKind};

verus! {

/// What a mouse event asks for. Which panel, row or menu the cell belongs to
/// is decided by whoever handles the action.
pub open spec fn mouse_action(mouse: MouseEvent) -> Option<Action> {
    let (col, row) = (mouse.column, mouse.row);
    match mouse.kind {
        MouseEventKind::Down(MouseButton::Left) => Some(Action::MouseClick { col, row }),
        MouseEventKind::Down(MouseButton::Right) => Some(Action::MouseRightClick { col, row }),
        MouseEventKind::ScrollDown => Some(Action::MouseScroll { col, row, down: true }),
        MouseEventKind::ScrollUp => Some(Action::MouseScroll { col, row, down: false }),
        MouseEventKind::Drag(MouseButton::Left) => Some(Action::MouseDrag { col, row }),
        MouseEventKind::Up(MouseButton::Left) => Some(Action::MouseUp { col, row }),
        _ => None,
    }
}

/// The action of a mouse event.
pub fn map_mouse_to_action(mouse: MouseEvent) -> (action: Option<Action>)
    ensures
        action == mouse_action(mouse),
{
    let col: u16 = mouse.column;
    let row: u16 = mouse.row;
    match mouse.kind {
        MouseEventKind::Down(MouseButton::Left) => Some(Action::MouseClick { col, row }),
        MouseEventKind::Down(MouseButton::Right) => Some(Action::MouseRightClick { col, row }),
        MouseEventKind::ScrollDown => Some(Action::MouseScroll { col, row, down: true }),
        MouseEventKind::ScrollUp => Some(Action::MouseScroll { col, row, down: false }),
        MouseEventKind::Drag(MouseButton::Left) => Some(Action::MouseDrag { col, row }),
        MouseEventKind::Up(MouseButton::Left) => Some(Action::MouseUp { col, row }),
        _ => None,
    }
}

/// A key with no modifier.
pub open spec fn plain(key: KeyEvent, code: KeyCode) -> bool {
    key.code == code && key.modifiers == KeyModifiers::plain()
}

/// A key with Shift and nothing else.
pub open spec fn shifted(key: KeyEvent, code: KeyCode) -> bool {
    key.code == code && key.modifiers == KeyModifiers::of(true, false, false)
}

/// A key with Control and nothing else.
pub open spec fn ctrl(key: KeyEvent, code: KeyCode) -> bool {
    key.code == code && key.modifiers == KeyModifiers::of(false, true, false)
}

/// A key whatever is held with it.
pub open spec fn any(key: KeyEvent, code: KeyCode) -> bool {
    key.code == code
}

/// A key with at least Control.
pub open spec fn with_ctrl(key: KeyEvent, code: KeyCode) -> bool {
    key.code == code && key.modifiers.control
}

/// A key with at least Alt.
pub open spec fn with_alt(key: KeyEvent, code: KeyCode) -> bool {
    key.code == code && key.modifiers.alt
}

/// A key with at least Control and Alt.
pub open spec fn ctrl_alt(key: KeyEvent, code: KeyCode) -> bool {
    key.code == code && key.modifiers.control && key.modifiers.alt
}

/// A key with at least one of Control and Alt.
pub open spec fn ctrl_or_alt(key: KeyEvent, code: KeyCode) -> bool {
    key.code == code && (key.modifiers.control || key.modifiers.alt)
}

/// A key with neither Control nor Alt.
pub open spec fn no_ctrl_alt(key: KeyEvent, code: KeyCode) -> bool {
    key.code == code && !key.modifiers.control && !key.modifiers.alt
}

/// The word-editing keys shared by all single-line text fields.
pub open spec fn editing_shortcut(key: KeyEvent) -> Option<Action> {
    if ctrl_or_alt(key, KeyCode::Backspace) || with_ctrl(key, KeyCode::Char('h')) {
        Some(Action::InputBackspaceWord)
    } else if with_ctrl(key, KeyCode::Char('u')) {
        Some(Action::InputClearLine)
    } else {
        None
    }
}

fn map_text_editing_shortcut(key: KeyEvent) -> (action: Option<Action>)
    ensures
        action == editing_shortcut(key),
{
    let ctrl = key.modifiers.control;
    let alt = key.modifiers.alt;
    match key.code {
        KeyCode::Backspace if ctrl || alt => Some(Action::InputBackspaceWord),
        KeyCode::Char('h') if ctrl => Some(Action::InputBackspaceWord),
        KeyCode::Char('u') if ctrl => Some(Action::InputClearLine),
        _ => None,
    }
}

/// The commit message editor.
pub open spec fn editor_key(key: KeyEvent) -> Option<Action> {
    let m = key.modifiers;
    if plain(key, KeyCode::Enter) {
        Some(Action::CommitChanges)
    } else if with_ctrl(key, KeyCode::Enter) {
        Some(Action::AmendCommit)
    } else if key.code == KeyCode::Enter && (m.shift || m.alt) {
        Some(Action::EditorNewline)
    } else if with_ctrl(key, KeyCode::Char('s')) {
        Some(Action::StashStaged)
    } else if plain(key, KeyCode::Esc) {
        Some(Action::StopEditing)
    } else if ctrl_or_alt(key, KeyCode::Backspace) || with_ctrl(key, KeyCode::Char('h')) {
        Some(Action::EditorBackspaceWord)
    } else if ctrl_or_alt(key, KeyCode::Delete) || with_alt(key, KeyCode::Char('d')) {
        Some(Action::EditorDeleteWord)
    } else if with_ctrl(key, KeyCode::Char('u')) {
        Some(Action::EditorKillLine)
    } else if ctrl_or_alt(key, KeyCode::Left) {
        Some(Action::EditorWordLeft(m.shift))
    } else if with_alt(key, KeyCode::Char('b')) && !m.shift {
        Some(Action::EditorWordLeft(false))
    } else if ctrl_or_alt(key, KeyCode::Right) {
        Some(Action::EditorWordRight(m.shift))
    } else if with_alt(key, KeyCode::Char('f')) && !m.shift {
        Some(Action::EditorWordRight(false))
    } else if ctrl_or_alt(key, KeyCode::Home) {
        Some(Action::EditorTextStart(m.shift))
    } else if ctrl_or_alt(key, KeyCode::End) {
        Some(Action::EditorTextEnd(m.shift))
    } else if no_ctrl_alt(key, KeyCode::Left) {
        Some(Action::EditorLeft(m.shift))
    } else if no_ctrl_alt(key, KeyCode::Right) {
        Some(Action::EditorRight(m.shift))
    } else if no_ctrl_alt(key, KeyCode::Up) {
        Some(Action::EditorUp(m.shift))
    } else if no_ctrl_alt(key, KeyCode::Down) {
        Some(Action::EditorDown(m.shift))
    } else if no_ctrl_alt(key, KeyCode::Home) {
        Some(Action::EditorHome(m.shift))
    } else if no_ctrl_alt(key, KeyCode::End) {
        Some(Action::EditorEnd(m.shift))
    } else if plain(key, KeyCode::Backspace) {
        Some(Action::EditorBackspace)
    } else if plain(key, KeyCode::Delete) {
        Some(Action::EditorDelete)
    } else if key.code is Char && !m.control && !m.alt {
        Some(Action::EditorChar(key.code->Char_0))
    } else {
        None
    }
}

pub fn map_editor_mode(key: KeyEvent) -> (action: Option<Action>)
    ensures
        action == editor_key(key),
{
    let plain = key.modifiers == KeyModifiers::none();
    let shift = key.modifiers.shift;
    let alt = key.modifiers.alt;
    let ctrl = key.modifiers.control;
    match key.code {
        // Enter commits, with Control it amends, otherwise it breaks the line.
        KeyCode::Enter if plain => Some(Action::CommitChanges),
        KeyCode::Enter if ctrl => Some(Action::AmendCommit),
        KeyCode::Char('s') if ctrl => Some(Action::StashStaged),
        KeyCode::Esc if plain => Some(Action::StopEditing),
        KeyCode::Enter if shift || alt => Some(Action::EditorNewline),
        // Deleting by word and line.
        KeyCode::Backspace if alt || ctrl => Some(Action::EditorBackspaceWord),
        KeyCode::Char('h') if ctrl => Some(Action::EditorBackspaceWord),
        KeyCode::Delete if alt || ctrl => Some(Action::EditorDeleteWord),
        KeyCode::Char('u') if ctrl => Some(Action::EditorKillLine),
        KeyCode::Char('d') if alt => Some(Action::EditorDeleteWord),
        // Moving by word and to the ends of the text.
        KeyCode::Left if alt || ctrl => Some(Action::EditorWordLeft(shift)),
        KeyCode::Char('b') if alt && !shift => Some(Action::EditorWordLeft(false)),
        KeyCode::Right if alt || ctrl => Some(Action::EditorWordRight(shift)),
        KeyCode::Char('f') if alt && !shift => Some(Action::EditorWordRight(false)),
        KeyCode::Home if ctrl || alt => Some(Action::EditorTextStart(shift)),
        KeyCode::End if ctrl || alt => Some(Action::EditorTextEnd(shift)),
        // Moving by character and line.
        KeyCode::Left if !alt && !ctrl => Some(Action::EditorLeft(shift)),
        KeyCode::Right if !alt && !ctrl => Some(Action::EditorRight(shift)),
        KeyCode::Up if !alt && !ctrl => Some(Action::EditorUp(shift)),
        KeyCode::Down if !alt && !ctrl => Some(Action::EditorDown(shift)),
        KeyCode::Home if !alt && !ctrl => Some(Action::EditorHome(shift)),
        KeyCode::End if !alt && !ctrl => Some(Action::EditorEnd(shift)),
        KeyCode::Backspace if plain => Some(Action::EditorBackspace),
        KeyCode::Delete if plain => Some(Action::EditorDelete),
        KeyCode::Char(c) if !ctrl && !alt => Some(Action::EditorChar(c)),
        _ => None,
    }
}

/// Composing a comment or an issue: Enter breaks the line, Control with `s` or
/// Enter submits, the rest is the message editor.
pub open spec fn compose_key(key: KeyEvent) -> Option<Action> {
    if any(key, KeyCode::Esc) {
        Some(Action::Cancel)
    } else if with_ctrl(key, KeyCode::Char('s')) || with_ctrl(key, KeyCode::Enter) {
        Some(Action::SubmitCompose)
    } else if with_ctrl(key, KeyCode::Char('e')) {
        Some(Action::ExternalEdit)
    } else if plain(key, KeyCode::Enter) {
        Some(Action::EditorNewline)
    } else {
        editor_key(key)
    }
}

pub fn map_pr_compose_mode(key: KeyEvent) -> (action: Option<Action>)
    ensures
        action == compose_key(key),
{
    let ctrl = key.modifiers.control;
    match key.code {
        KeyCode::Esc => Some(Action::Cancel),
        KeyCode::Char('s') if ctrl => Some(Action::SubmitCompose),
        KeyCode::Char('e') if ctrl => Some(Action::ExternalEdit),
        KeyCode::Enter if ctrl => Some(Action::SubmitCompose),
        KeyCode::Enter if key.modifiers == KeyModifiers::none() => Some(Action::EditorNewline),
        _ => map_editor_mode(key),
    }
}

/// The command palette, filtered by typing.
pub open spec fn command_palette_key(key: KeyEvent) -> Option<Action> {
    if editing_shortcut(key) is Some {
        editing_shortcut(key)
    } else if plain(key, KeyCode::Up) {
        Some(Action::MoveUp)
    } else if plain(key, KeyCode::Down) {
        Some(Action::MoveDown)
    } else if plain(key, KeyCode::Enter) {
        Some(Action::MenuSelect)
    } else if plain(key, KeyCode::Esc) {
        Some(Action::Cancel)
    } else if plain(key, KeyCode::Backspace) {
        Some(Action::InputBackspace)
    } else if key.code is Char && (key.modifiers == KeyModifiers::plain() || key.modifiers == KeyModifiers::of(true, false, false)) {
        Some(Action::InputChar(key.code->Char_0))
    } else {
        None
    }
}

pub fn map_command_palette_mode(key: KeyEvent) -> (action: Option<Action>)
    ensures
        action == command_palette_key(key),
{
    if let Some(action) = map_text_editing_shortcut(key) {
        return Some(action);
    }
    let m = key.modifiers;
    let plain = m == KeyModifiers::none();
    let shift = m == KeyModifiers::shift();
    match key.code {
        KeyCode::Up if plain => Some(Action::MoveUp),
        KeyCode::Down if plain => Some(Action::MoveDown),
        KeyCode::Enter if plain => Some(Action::MenuSelect),
        KeyCode::Esc if plain => Some(Action::Cancel),
        KeyCode::Backspace if plain => Some(Action::InputBackspace),
        KeyCode::Char(c) if plain || shift => Some(Action::InputChar(c)),
        _ => None,
    }
}

/// The graph panel.
pub open spec fn graph_key(key: KeyEvent) -> Option<Action> {
    if plain(key, KeyCode::Down) {
        Some(Action::MoveDown)
    } else if plain(key, KeyCode::Up) {
        Some(Action::MoveUp)
    } else if with_ctrl(key, KeyCode::Up) {
        Some(Action::SameLaneUp)
    } else if with_ctrl(key, KeyCode::Down) {
        Some(Action::SameLaneDown)
    } else if ctrl(key, KeyCode::Char('d')) || plain(key, KeyCode::PageDown) {
        Some(Action::PageDown)
    } else if ctrl(key, KeyCode::Char('u')) || plain(key, KeyCode::PageUp) {
        Some(Action::PageUp)
    } else if plain(key, KeyCode::Char('g')) || plain(key, KeyCode::Home) || ctrl(key, KeyCode::Home) {
        Some(Action::GoToTop)
    } else if shifted(key, KeyCode::Char('G')) || plain(key, KeyCode::End) {
        Some(Action::GoToBottom)
    } else if plain(key, KeyCode::Char(',')) {
        Some(Action::OpenSettings)
    } else if any(key, KeyCode::Char('@')) {
        Some(Action::JumpToHead)
    } else if any(key, KeyCode::Char(']')) {
        Some(Action::NextBranch)
    } else if any(key, KeyCode::Char('[')) {
        Some(Action::PrevBranch)
    } else if plain(key, KeyCode::Enter) {
        Some(Action::OpenCommitMenu)
    } else if plain(key, KeyCode::Char('m')) {
        Some(Action::MarkForCompare)
    } else if any(key, KeyCode::Char('^')) {
        Some(Action::JumpToMergeBase)
    } else if ctrl(key, KeyCode::Char('z')) {
        Some(Action::UndoLastOp)
    } else if plain(key, KeyCode::Char('o')) {
        Some(Action::OpenPr)
    } else if plain(key, KeyCode::Char('c')) {
        Some(Action::OpenCiChecks)
    } else if plain(key, KeyCode::Char('v')) {
        Some(Action::OpenPrThread)
    } else if shifted(key, KeyCode::Char('M')) {
        Some(Action::OpenMetadataMenu)
    } else if plain(key, KeyCode::Char('t')) {
        Some(Action::ToggleTrace)
    } else if any(key, KeyCode::Char('<')) {
        Some(Action::ShrinkGraphWidth)
    } else if any(key, KeyCode::Char('>')) {
        Some(Action::WidenGraphWidth)
    } else if plain(key, KeyCode::Char('b')) {
        Some(Action::CreateBranch)
    } else if plain(key, KeyCode::Char('d')) {
        Some(Action::DeleteBranch)
    } else if plain(key, KeyCode::Char('f')) {
        Some(Action::Fetch)
    } else if plain(key, KeyCode::Char('p')) {
        Some(Action::Pull)
    } else if shifted(key, KeyCode::Char('P')) {
        Some(Action::Push)
    } else if plain(key, KeyCode::Char(' ')) {
        Some(Action::OpenFileDiff)
    } else if ctrl(key, KeyCode::Char('f')) {
        Some(Action::StartCommitFilter)
    } else if shifted(key, KeyCode::Char('B')) {
        Some(Action::OpenBranchFilter)
    } else if shifted(key, KeyCode::Char('O')) {
        Some(Action::ToggleRemoteBranches)
    } else if shifted(key, KeyCode::Char('H')) {
        Some(Action::ToggleMergedBranches)
    } else if any(key, KeyCode::Char('/')) {
        Some(Action::Search)
    } else if shifted(key, KeyCode::Char('R')) {
        Some(Action::Refresh)
    } else if any(key, KeyCode::Char('?')) {
        Some(Action::ToggleHelp)
    } else if plain(key, KeyCode::Esc) {
        Some(Action::Quit)
    } else {
        None
    }
}

pub fn map_graph_mode(key: KeyEvent) -> (action: Option<Action>)
    ensures
        action == graph_key(key),
{
    let m = key.modifiers;
    let plain = m == KeyModifiers::none();
    let shift = m == KeyModifiers::shift();
    let ctrl = m == KeyModifiers::control();
    match key.code {
        KeyCode::Down if plain => Some(Action::MoveDown),
        KeyCode::Up if plain => Some(Action::MoveUp),
        KeyCode::Up if m.control => Some(Action::SameLaneUp),
        KeyCode::Down if m.control => Some(Action::SameLaneDown),
        KeyCode::Char('d') if ctrl => Some(Action::PageDown),
        KeyCode::PageDown if plain => Some(Action::PageDown),
        KeyCode::Char('u') if ctrl => Some(Action::PageUp),
        KeyCode::PageUp if plain => Some(Action::PageUp),
        KeyCode::Char('g') if plain => Some(Action::GoToTop),
        KeyCode::Home if plain => Some(Action::GoToTop),
        KeyCode::Home if ctrl => Some(Action::GoToTop),
        KeyCode::Char('G') if shift => Some(Action::GoToBottom),
        KeyCode::End if plain => Some(Action::GoToBottom),
        KeyCode::Char(',') if plain => Some(Action::OpenSettings),
        KeyCode::Char('@') => Some(Action::JumpToHead),
        KeyCode::Char(']') => Some(Action::NextBranch),
        KeyCode::Char('[') => Some(Action::PrevBranch),
        KeyCode::Enter if plain => Some(Action::OpenCommitMenu),
        KeyCode::Char('m') if plain => Some(Action::MarkForCompare),
        KeyCode::Char('^') => Some(Action::JumpToMergeBase),
        KeyCode::Char('z') if ctrl => Some(Action::UndoLastOp),
        KeyCode::Char('o') if plain => Some(Action::OpenPr),
        KeyCode::Char('c') if plain => Some(Action::OpenCiChecks),
        KeyCode::Char('v') if plain => Some(Action::OpenPrThread),
        KeyCode::Char('M') if shift => Some(Action::OpenMetadataMenu),
        KeyCode::Char('t') if plain => Some(Action::ToggleTrace),
        KeyCode::Char('<') => Some(Action::ShrinkGraphWidth),
        KeyCode::Char('>') => Some(Action::WidenGraphWidth),
        KeyCode::Char('b') if plain => Some(Action::CreateBranch),
        KeyCode::Char('d') if plain => Some(Action::DeleteBranch),
        KeyCode::Char('f') if plain => Some(Action::Fetch),
        KeyCode::Char('p') if plain => Some(Action::Pull),
        KeyCode::Char('P') if shift => Some(Action::Push),
        KeyCode::Char(' ') if plain => Some(Action::OpenFileDiff),
        KeyCode::Char('f') if ctrl => Some(Action::StartCommitFilter),
        KeyCode::Char('B') if shift => Some(Action::OpenBranchFilter),
        KeyCode::Char('O') if shift => Some(Action::ToggleRemoteBranches),
        KeyCode::Char('H') if shift => Some(Action::ToggleMergedBranches),
        KeyCode::Char('/') => Some(Action::Search),
        KeyCode::Char('R') if shift => Some(Action::Refresh),
        KeyCode::Char('?') => Some(Action::ToggleHelp),
        KeyCode::Esc if plain => Some(Action::Quit),
        _ => None,
    }
}

/// The files panel.
pub open spec fn files_key(key: KeyEvent) -> Option<Action> {
    if plain(key, KeyCode::Down) {
        Some(Action::MoveDown)
    } else if plain(key, KeyCode::Up) {
        Some(Action::MoveUp)
    } else if ctrl(key, KeyCode::Char('d')) || plain(key, KeyCode::PageDown) {
        Some(Action::PageDown)
    } else if ctrl(key, KeyCode::Char('u')) || plain(key, KeyCode::PageUp) {
        Some(Action::PageUp)
    } else if plain(key, KeyCode::Char('g')) || plain(key, KeyCode::Home) {
        Some(Action::GoToTop)
    } else if shifted(key, KeyCode::Char('G')) || plain(key, KeyCode::End) {
        Some(Action::GoToBottom)
    } else if any(key, KeyCode::Char('@')) {
        Some(Action::JumpToHead)
    } else if plain(key, KeyCode::Char('s')) || plain(key, KeyCode::Char('a')) {
        Some(Action::ToggleStage)
    } else if shifted(key, KeyCode::Char('S')) {
        Some(Action::StageAll)
    } else if shifted(key, KeyCode::Char('U')) {
        Some(Action::UnstageAll)
    } else if plain(key, KeyCode::Char('i')) {
        Some(Action::AddToGitignore)
    } else if plain(key, KeyCode::Char('v')) {
        Some(Action::ArchiveFile)
    } else if plain(key, KeyCode::Delete) {
        Some(Action::TrashFile)
    } else if ctrl(key, KeyCode::Char('z')) {
        Some(Action::UndoLastFileOp)
    } else if plain(key, KeyCode::Char('f')) {
        Some(Action::ToggleFolderView)
    } else if plain(key, KeyCode::Char('r')) {
        Some(Action::RestoreFile)
    } else if any(key, KeyCode::Char(']')) {
        Some(Action::NextConflict)
    } else if any(key, KeyCode::Char('[')) {
        Some(Action::PrevConflict)
    } else if plain(key, KeyCode::Char('o')) {
        Some(Action::AcceptOurs)
    } else if plain(key, KeyCode::Char('t')) {
        Some(Action::AcceptTheirs)
    } else if plain(key, KeyCode::Char('c')) {
        Some(Action::ContinueOperation)
    } else if shifted(key, KeyCode::Char('A')) {
        Some(Action::AbortOperation)
    } else if plain(key, KeyCode::Char(' ')) {
        Some(Action::OpenWithDefault)
    } else if plain(key, KeyCode::Char('y')) {
        Some(Action::CopyPath)
    } else if plain(key, KeyCode::Char(',')) {
        Some(Action::OpenSettings)
    } else if plain(key, KeyCode::Enter) {
        Some(Action::OpenFileDiff)
    } else if plain(key, KeyCode::Char('h')) {
        Some(Action::FileHistory)
    } else if ctrl(key, KeyCode::Char('f')) {
        Some(Action::StartFilesFilter)
    } else if plain(key, KeyCode::Esc) {
        Some(Action::FocusGraph)
    } else if any(key, KeyCode::Char('?')) {
        Some(Action::ToggleHelp)
    } else {
        None
    }
}

pub fn map_files_mode(key: KeyEvent) -> (action: Option<Action>)
    ensures
        action == files_key(key),
{
    let m = key.modifiers;
    let plain = m == KeyModifiers::none();
    let shift = m == KeyModifiers::shift();
    let ctrl = m == KeyModifiers::control();
    match key.code {
        KeyCode::Down if plain => Some(Action::MoveDown),
        KeyCode::Up if plain => Some(Action::MoveUp),
        KeyCode::Char('d') if ctrl => Some(Action::PageDown),
        KeyCode::PageDown if plain => Some(Action::PageDown),
        KeyCode::Char('u') if ctrl => Some(Action::PageUp),
        KeyCode::PageUp if plain => Some(Action::PageUp),
        KeyCode::Char('g') if plain => Some(Action::GoToTop),
        KeyCode::Home if plain => Some(Action::GoToTop),
        KeyCode::Char('G') if shift => Some(Action::GoToBottom),
        KeyCode::End if plain => Some(Action::GoToBottom),
        KeyCode::Char('@') => Some(Action::JumpToHead),
        KeyCode::Char('s') if plain => Some(Action::ToggleStage),
        KeyCode::Char('a') if plain => Some(Action::ToggleStage),
        KeyCode::Char('S') if shift => Some(Action::StageAll),
        KeyCode::Char('U') if shift => Some(Action::UnstageAll),
        KeyCode::Char('i') if plain => Some(Action::AddToGitignore),
        KeyCode::Char('v') if plain => Some(Action::ArchiveFile),
        KeyCode::Delete if plain => Some(Action::TrashFile),
        KeyCode::Char('z') if ctrl => Some(Action::UndoLastFileOp),
        KeyCode::Char('f') if plain => Some(Action::ToggleFolderView),
        KeyCode::Char('r') if plain => Some(Action::RestoreFile),
        KeyCode::Char(']') => Some(Action::NextConflict),
        KeyCode::Char('[') => Some(Action::PrevConflict),
        KeyCode::Char('o') if plain => Some(Action::AcceptOurs),
        KeyCode::Char('t') if plain => Some(Action::AcceptTheirs),
        KeyCode::Char('c') if plain => Some(Action::ContinueOperation),
        KeyCode::Char('A') if shift => Some(Action::AbortOperation),
        KeyCode::Char(' ') if plain => Some(Action::OpenWithDefault),
        KeyCode::Char('y') if plain => Some(Action::CopyPath),
        KeyCode::Char(',') if plain => Some(Action::OpenSettings),
        KeyCode::Enter if plain => Some(Action::OpenFileDiff),
        KeyCode::Char('h') if plain => Some(Action::FileHistory),
        KeyCode::Char('f') if ctrl => Some(Action::StartFilesFilter),
        KeyCode::Esc if plain => Some(Action::FocusGraph),
        KeyCode::Char('?') => Some(Action::ToggleHelp),
        _ => None,
    }
}

/// Typing into the commit filter.
pub open spec fn commit_filter_key(key: KeyEvent) -> Option<Action> {
    if editing_shortcut(key) is Some {
        editing_shortcut(key)
    } else if plain(key, KeyCode::Enter) {
        Some(Action::Confirm)
    } else if plain(key, KeyCode::Esc) {
        Some(Action::Cancel)
    } else if plain(key, KeyCode::Up) {
        Some(Action::MoveUp)
    } else if plain(key, KeyCode::Down) {
        Some(Action::MoveDown)
    } else if plain(key, KeyCode::Backspace) {
        Some(Action::CommitFilterBackspace)
    } else if key.code is Char && (key.modifiers == KeyModifiers::plain() || key.modifiers == KeyModifiers::of(true, false, false)) {
        Some(Action::CommitFilterChar(key.code->Char_0))
    } else {
        None
    }
}

pub fn map_commit_filter_mode(key: KeyEvent) -> (action: Option<Action>)
    ensures
        action == commit_filter_key(key),
{
    if let Some(action) = map_text_editing_shortcut(key) {
        return Some(action);
    }
    let m = key.modifiers;
    let plain = m == KeyModifiers::none();
    let shift = m == KeyModifiers::shift();
    match key.code {
        KeyCode::Enter if plain => Some(Action::Confirm),
        KeyCode::Esc if plain => Some(Action::Cancel),
        KeyCode::Up if plain => Some(Action::MoveUp),
        KeyCode::Down if plain => Some(Action::MoveDown),
        KeyCode::Backspace if plain => Some(Action::CommitFilterBackspace),
        KeyCode::Char(c) if plain || shift => Some(Action::CommitFilterChar(c)),
        _ => None,
    }
}

/// Typing into the files filter.
pub open spec fn files_filter_key(key: KeyEvent) -> Option<Action> {
    if editing_shortcut(key) is Some {
        editing_shortcut(key)
    } else if plain(key, KeyCode::Enter) {
        Some(Action::Confirm)
    } else if plain(key, KeyCode::Esc) {
        Some(Action::Cancel)
    } else if plain(key, KeyCode::Backspace) {
        Some(Action::FilesFilterBackspace)
    } else if key.code is Char && (key.modifiers == KeyModifiers::plain() || key.modifiers == KeyModifiers::of(true, false, false)) {
        Some(Action::FilesFilterChar(key.code->Char_0))
    } else {
        None
    }
}

pub fn map_files_filter_mode(key: KeyEvent) -> (action: Option<Action>)
    ensures
        action == files_filter_key(key),
{
    if let Some(action) = map_text_editing_shortcut(key) {
        return Some(action);
    }
    let m = key.modifiers;
    let plain = m == KeyModifiers::none();
    let shift = m == KeyModifiers::shift();
    match key.code {
        KeyCode::Enter if plain => Some(Action::Confirm),
        KeyCode::Esc if plain => Some(Action::Cancel),
        KeyCode::Backspace if plain => Some(Action::FilesFilterBackspace),
        KeyCode::Char(c) if plain || shift => Some(Action::FilesFilterChar(c)),
        _ => None,
    }
}

/// The commit panel: any other printable character starts editing.
pub open spec fn commit_detail_key(key: KeyEvent) -> Option<Action> {
    if plain(key, KeyCode::Down) {
        Some(Action::MoveDown)
    } else if plain(key, KeyCode::Up) {
        Some(Action::MoveUp)
    } else if ctrl(key, KeyCode::Char('d')) || plain(key, KeyCode::PageDown) {
        Some(Action::PageDown)
    } else if ctrl(key, KeyCode::Char('u')) || plain(key, KeyCode::PageUp) {
        Some(Action::PageUp)
    } else if plain(key, KeyCode::Home) {
        Some(Action::GoToTop)
    } else if plain(key, KeyCode::End) {
        Some(Action::GoToBottom)
    } else if plain(key, KeyCode::Enter) {
        Some(Action::StartEditing)
    } else if with_ctrl(key, KeyCode::Enter) {
        Some(Action::AmendCommit)
    } else if with_ctrl(key, KeyCode::Char('s')) {
        Some(Action::StashStaged)
    } else if plain(key, KeyCode::Esc) {
        Some(Action::FocusGraph)
    } else if any(key, KeyCode::Char('?')) {
        Some(Action::ToggleHelp)
    } else if key.code is Char && (key.modifiers == KeyModifiers::plain() || key.modifiers == KeyModifiers::of(true, false, false)) {
        Some(Action::EditorChar(key.code->Char_0))
    } else {
        None
    }
}

pub fn map_commit_detail_mode(key: KeyEvent) -> (action: Option<Action>)
    ensures
        action == commit_detail_key(key),
{
    let m = key.modifiers;
    let plain = m == KeyModifiers::none();
    let shift = m == KeyModifiers::shift();
    let ctrl = m == KeyModifiers::control();
    match key.code {
        KeyCode::Down if plain => Some(Action::MoveDown),
        KeyCode::Up if plain => Some(Action::MoveUp),
        KeyCode::Char('d') if ctrl => Some(Action::PageDown),
        KeyCode::PageDown if plain => Some(Action::PageDown),
        KeyCode::Char('u') if ctrl => Some(Action::PageUp),
        KeyCode::PageUp if plain => Some(Action::PageUp),
        KeyCode::Home if plain => Some(Action::GoToTop),
        KeyCode::End if plain => Some(Action::GoToBottom),
        KeyCode::Enter if plain => Some(Action::StartEditing),
        KeyCode::Enter if m.control => Some(Action::AmendCommit),
        KeyCode::Char('s') if m.control => Some(Action::StashStaged),
        KeyCode::Esc if plain => Some(Action::FocusGraph),
        KeyCode::Char('?') => Some(Action::ToggleHelp),
        KeyCode::Char(c) if plain || shift => Some(Action::EditorChar(c)),
        _ => None,
    }
}

/// The small pickers.
pub open spec fn picker_key(key: KeyEvent) -> Option<Action> {
    if plain(key, KeyCode::Up) {
        Some(Action::MoveUp)
    } else if plain(key, KeyCode::Down) {
        Some(Action::MoveDown)
    } else if plain(key, KeyCode::Enter) {
        Some(Action::MenuSelect)
    } else if plain(key, KeyCode::Esc) || plain(key, KeyCode::Char('q')) {
        Some(Action::Cancel)
    } else {
        None
    }
}

pub fn map_picker_mode(key: KeyEvent) -> (action: Option<Action>)
    ensures
        action == picker_key(key),
{
    let m = key.modifiers;
    let plain = m == KeyModifiers::none();
    match key.code {
        KeyCode::Up if plain => Some(Action::MoveUp),
        KeyCode::Down if plain => Some(Action::MoveDown),
        KeyCode::Enter if plain => Some(Action::MenuSelect),
        KeyCode::Esc if plain => Some(Action::Cancel),
        KeyCode::Char('q') if plain => Some(Action::Cancel),
        _ => None,
    }
}

/// The metadata column menu.
pub open spec fn metadata_menu_key(key: KeyEvent) -> Option<Action> {
    if plain(key, KeyCode::Up) || plain(key, KeyCode::Char('k')) {
        Some(Action::MoveUp)
    } else if plain(key, KeyCode::Down) || plain(key, KeyCode::Char('j')) {
        Some(Action::MoveDown)
    } else if plain(key, KeyCode::Char(' ')) || plain(key, KeyCode::Enter) {
        Some(Action::MenuSelect)
    } else if plain(key, KeyCode::Esc) || plain(key, KeyCode::Char('q')) {
        Some(Action::Cancel)
    } else {
        None
    }
}

pub fn map_metadata_menu_mode(key: KeyEvent) -> (action: Option<Action>)
    ensures
        action == metadata_menu_key(key),
{
    let m = key.modifiers;
    let plain = m == KeyModifiers::none();
    match key.code {
        KeyCode::Up if plain => Some(Action::MoveUp),
        KeyCode::Char('k') if plain => Some(Action::MoveUp),
        KeyCode::Down if plain => Some(Action::MoveDown),
        KeyCode::Char('j') if plain => Some(Action::MoveDown),
        KeyCode::Char(' ') if plain => Some(Action::MenuSelect),
        KeyCode::Enter if plain => Some(Action::MenuSelect),
        KeyCode::Esc if plain => Some(Action::Cancel),
        KeyCode::Char('q') if plain => Some(Action::Cancel),
        _ => None,
    }
}

/// The settings menu: typing filters the list, so letters never navigate.
pub open spec fn settings_menu_key(key: KeyEvent) -> Option<Action> {
    if editing_shortcut(key) is Some {
        editing_shortcut(key)
    } else if plain(key, KeyCode::Up) {
        Some(Action::MoveUp)
    } else if plain(key, KeyCode::Down) {
        Some(Action::MoveDown)
    } else if plain(key, KeyCode::Char(' ')) || plain(key, KeyCode::Enter) {
        Some(Action::MenuSelect)
    } else if plain(key, KeyCode::Esc) {
        Some(Action::Cancel)
    } else if plain(key, KeyCode::Backspace) {
        Some(Action::InputBackspace)
    } else if key.code is Char && (key.modifiers == KeyModifiers::plain() || key.modifiers == KeyModifiers::of(true, false, false)) {
        Some(Action::InputChar(key.code->Char_0))
    } else {
        None
    }
}

pub fn map_settings_menu_mode(key: KeyEvent) -> (action: Option<Action>)
    ensures
        action == settings_menu_key(key),
{
    if let Some(action) = map_text_editing_shortcut(key) {
        return Some(action);
    }
    let m = key.modifiers;
    let plain = m == KeyModifiers::none();
    let shift = m == KeyModifiers::shift();
    match key.code {
        KeyCode::Up if plain => Some(Action::MoveUp),
        KeyCode::Down if plain => Some(Action::MoveDown),
        KeyCode::Char(' ') if plain => Some(Action::MenuSelect),
        KeyCode::Enter if plain => Some(Action::MenuSelect),
        KeyCode::Esc if plain => Some(Action::Cancel),
        KeyCode::Backspace if plain => Some(Action::InputBackspace),
        KeyCode::Char(c) if plain || shift => Some(Action::InputChar(c)),
        _ => None,
    }
}

/// The pull request conversation.
pub open spec fn pr_thread_key(key: KeyEvent) -> Option<Action> {
    if plain(key, KeyCode::Up) || plain(key, KeyCode::Char('k')) {
        Some(Action::MoveUp)
    } else if plain(key, KeyCode::Down) || plain(key, KeyCode::Char('j')) {
        Some(Action::MoveDown)
    } else if ctrl(key, KeyCode::Char('u')) || plain(key, KeyCode::PageUp) {
        Some(Action::PageUp)
    } else if ctrl(key, KeyCode::Char('d')) || plain(key, KeyCode::PageDown) {
        Some(Action::PageDown)
    } else if plain(key, KeyCode::Char('g')) || plain(key, KeyCode::Home) {
        Some(Action::GoToTop)
    } else if shifted(key, KeyCode::Char('G')) || plain(key, KeyCode::End) {
        Some(Action::GoToBottom)
    } else if plain(key, KeyCode::Char('o')) {
        Some(Action::OpenPr)
    } else if plain(key, KeyCode::Char('r')) {
        Some(Action::OpenReviewPicker)
    } else if plain(key, KeyCode::Esc) || plain(key, KeyCode::Char('q')) {
        Some(Action::Cancel)
    } else {
        None
    }
}

pub fn map_pr_thread_mode(key: KeyEvent) -> (action: Option<Action>)
    ensures
        action == pr_thread_key(key),
{
    let m = key.modifiers;
    let plain = m == KeyModifiers::none();
    let shift = m == KeyModifiers::shift();
    let ctrl = m == KeyModifiers::control();
    match key.code {
        KeyCode::Up if plain => Some(Action::MoveUp),
        KeyCode::Char('k') if plain => Some(Action::MoveUp),
        KeyCode::Down if plain => Some(Action::MoveDown),
        KeyCode::Char('j') if plain => Some(Action::MoveDown),
        KeyCode::Char('u') if ctrl => Some(Action::PageUp),
        KeyCode::PageUp if plain => Some(Action::PageUp),
        KeyCode::Char('d') if ctrl => Some(Action::PageDown),
        KeyCode::PageDown if plain => Some(Action::PageDown),
        KeyCode::Char('g') if plain => Some(Action::GoToTop),
        KeyCode::Home if plain => Some(Action::GoToTop),
        KeyCode::Char('G') if shift => Some(Action::GoToBottom),
        KeyCode::End if plain => Some(Action::GoToBottom),
        KeyCode::Char('o') if plain => Some(Action::OpenPr),
        KeyCode::Char('r') if plain => Some(Action::OpenReviewPicker),
        KeyCode::Esc if plain => Some(Action::Cancel),
        KeyCode::Char('q') if plain => Some(Action::Cancel),
        _ => None,
    }
}

/// The issue list.
pub open spec fn issue_list_key(key: KeyEvent) -> Option<Action> {
    if plain(key, KeyCode::Up) || plain(key, KeyCode::Char('k')) {
        Some(Action::MoveUp)
    } else if plain(key, KeyCode::Down) || plain(key, KeyCode::Char('j')) {
        Some(Action::MoveDown)
    } else if ctrl(key, KeyCode::Char('u')) || plain(key, KeyCode::PageUp) {
        Some(Action::PageUp)
    } else if ctrl(key, KeyCode::Char('d')) || plain(key, KeyCode::PageDown) {
        Some(Action::PageDown)
    } else if plain(key, KeyCode::Char('g')) || plain(key, KeyCode::Home) {
        Some(Action::GoToTop)
    } else if shifted(key, KeyCode::Char('G')) || plain(key, KeyCode::End) {
        Some(Action::GoToBottom)
    } else if plain(key, KeyCode::Enter) {
        Some(Action::OpenIssueDetail)
    } else if plain(key, KeyCode::Tab) || plain(key, KeyCode::Char('f')) {
        Some(Action::CycleIssueFilter)
    } else if plain(key, KeyCode::Char('r')) {
        Some(Action::RefreshIssues)
    } else if plain(key, KeyCode::Char('n')) {
        Some(Action::NewIssue)
    } else if plain(key, KeyCode::Char('t')) {
        Some(Action::OpenIssueLabelFilter)
    } else if plain(key, KeyCode::Char('u')) {
        Some(Action::ToggleUnblockedOnly)
    } else if plain(key, KeyCode::Char('l')) {
        Some(Action::EditIssueLabels)
    } else if plain(key, KeyCode::Char('o')) {
        Some(Action::OpenIssueInBrowser)
    } else if plain(key, KeyCode::Esc) || plain(key, KeyCode::Char('q')) {
        Some(Action::Cancel)
    } else {
        None
    }
}

pub fn map_issue_list_mode(key: KeyEvent) -> (action: Option<Action>)
    ensures
        action == issue_list_key(key),
{
    let m = key.modifiers;
    let plain = m == KeyModifiers::none();
    let shift = m == KeyModifiers::shift();
    let ctrl = m == KeyModifiers::control();
    match key.code {
        KeyCode::Up if plain => Some(Action::MoveUp),
        KeyCode::Char('k') if plain => Some(Action::MoveUp),
        KeyCode::Down if plain => Some(Action::MoveDown),
        KeyCode::Char('j') if plain => Some(Action::MoveDown),
        KeyCode::Char('u') if ctrl => Some(Action::PageUp),
        KeyCode::PageUp if plain => Some(Action::PageUp),
        KeyCode::Char('d') if ctrl => Some(Action::PageDown),
        KeyCode::PageDown if plain => Some(Action::PageDown),
        KeyCode::Char('g') if plain => Some(Action::GoToTop),
        KeyCode::Home if plain => Some(Action::GoToTop),
        KeyCode::Char('G') if shift => Some(Action::GoToBottom),
        KeyCode::End if plain => Some(Action::GoToBottom),
        KeyCode::Enter if plain => Some(Action::OpenIssueDetail),
        KeyCode::Tab if plain => Some(Action::CycleIssueFilter),
        KeyCode::Char('f') if plain => Some(Action::CycleIssueFilter),
        KeyCode::Char('r') if plain => Some(Action::RefreshIssues),
        KeyCode::Char('n') if plain => Some(Action::NewIssue),
        KeyCode::Char('t') if plain => Some(Action::OpenIssueLabelFilter),
        KeyCode::Char('u') if plain => Some(Action::ToggleUnblockedOnly),
        KeyCode::Char('l') if plain => Some(Action::EditIssueLabels),
        KeyCode::Char('o') if plain => Some(Action::OpenIssueInBrowser),
        KeyCode::Esc if plain => Some(Action::Cancel),
        KeyCode::Char('q') if plain => Some(Action::Cancel),
        _ => None,
    }
}

/// The issue label filter.
pub open spec fn issue_label_filter_key(key: KeyEvent) -> Option<Action> {
    if plain(key, KeyCode::Up) || plain(key, KeyCode::Char('k')) {
        Some(Action::MoveUp)
    } else if plain(key, KeyCode::Down) || plain(key, KeyCode::Char('j')) {
        Some(Action::MoveDown)
    } else if plain(key, KeyCode::Char(' ')) {
        Some(Action::ToggleIssueLabel)
    } else if ctrl(key, KeyCode::Char('a')) {
        Some(Action::SelectAll)
    } else if ctrl(key, KeyCode::Char('o')) {
        Some(Action::SelectNone)
    } else if plain(key, KeyCode::Enter) {
        Some(Action::MenuSelect)
    } else if plain(key, KeyCode::Esc) || plain(key, KeyCode::Char('q')) {
        Some(Action::Cancel)
    } else {
        None
    }
}

pub fn map_issue_label_filter_mode(key: KeyEvent) -> (action: Option<Action>)
    ensures
        action == issue_label_filter_key(key),
{
    let m = key.modifiers;
    let plain = m == KeyModifiers::none();
    let ctrl = m == KeyModifiers::control();
    match key.code {
        KeyCode::Up if plain => Some(Action::MoveUp),
        KeyCode::Char('k') if plain => Some(Action::MoveUp),
        KeyCode::Down if plain => Some(Action::MoveDown),
        KeyCode::Char('j') if plain => Some(Action::MoveDown),
        KeyCode::Char(' ') if plain => Some(Action::ToggleIssueLabel),
        KeyCode::Char('a') if ctrl => Some(Action::SelectAll),
        KeyCode::Char('o') if ctrl => Some(Action::SelectNone),
        KeyCode::Enter if plain => Some(Action::MenuSelect),
        KeyCode::Esc if plain => Some(Action::Cancel),
        KeyCode::Char('q') if plain => Some(Action::Cancel),
        _ => None,
    }
}

/// One issue.
pub open spec fn issue_detail_key(key: KeyEvent) -> Option<Action> {
    if plain(key, KeyCode::Up) || plain(key, KeyCode::Char('k')) {
        Some(Action::MoveUp)
    } else if plain(key, KeyCode::Down) || plain(key, KeyCode::Char('j')) {
        Some(Action::MoveDown)
    } else if ctrl(key, KeyCode::Char('u')) || plain(key, KeyCode::PageUp) {
        Some(Action::PageUp)
    } else if ctrl(key, KeyCode::Char('d')) || plain(key, KeyCode::PageDown) {
        Some(Action::PageDown)
    } else if plain(key, KeyCode::Char('g')) || plain(key, KeyCode::Home) {
        Some(Action::GoToTop)
    } else if shifted(key, KeyCode::Char('G')) || plain(key, KeyCode::End) {
        Some(Action::GoToBottom)
    } else if plain(key, KeyCode::Char('c')) {
        Some(Action::CommentOnIssue)
    } else if plain(key, KeyCode::Char('x')) {
        Some(Action::ToggleIssueState)
    } else if plain(key, KeyCode::Char('l')) {
        Some(Action::EditIssueLabels)
    } else if plain(key, KeyCode::Char('a')) {
        Some(Action::EditIssueAssignees)
    } else if plain(key, KeyCode::Char('o')) {
        Some(Action::OpenIssueInBrowser)
    } else if plain(key, KeyCode::Char('r')) {
        Some(Action::RefreshIssues)
    } else if plain(key, KeyCode::Esc) || plain(key, KeyCode::Char('q')) {
        Some(Action::Cancel)
    } else {
        None
    }
}

pub fn map_issue_detail_mode(key: KeyEvent) -> (action: Option<Action>)
    ensures
        action == issue_detail_key(key),
{
    let m = key.modifiers;
    let plain = m == KeyModifiers::none();
    let shift = m == KeyModifiers::shift();
    let ctrl = m == KeyModifiers::control();
    match key.code {
        KeyCode::Up if plain => Some(Action::MoveUp),
        KeyCode::Char('k') if plain => Some(Action::MoveUp),
        KeyCode::Down if plain => Some(Action::MoveDown),
        KeyCode::Char('j') if plain => Some(Action::MoveDown),
        KeyCode::Char('u') if ctrl => Some(Action::PageUp),
        KeyCode::PageUp if plain => Some(Action::PageUp),
        KeyCode::Char('d') if ctrl => Some(Action::PageDown),
        KeyCode::PageDown if plain => Some(Action::PageDown),
        KeyCode::Char('g') if plain => Some(Action::GoToTop),
        KeyCode::Home if plain => Some(Action::GoToTop),
        KeyCode::Char('G') if shift => Some(Action::GoToBottom),
        KeyCode::End if plain => Some(Action::GoToBottom),
        KeyCode::Char('c') if plain => Some(Action::CommentOnIssue),
        KeyCode::Char('x') if plain => Some(Action::ToggleIssueState),
        KeyCode::Char('l') if plain => Some(Action::EditIssueLabels),
        KeyCode::Char('a') if plain => Some(Action::EditIssueAssignees),
        KeyCode::Char('o') if plain => Some(Action::OpenIssueInBrowser),
        KeyCode::Char('r') if plain => Some(Action::RefreshIssues),
        KeyCode::Esc if plain => Some(Action::Cancel),
        KeyCode::Char('q') if plain => Some(Action::Cancel),
        _ => None,
    }
}

/// The issue label picker.
pub open spec fn issue_label_picker_key(key: KeyEvent) -> Option<Action> {
    if plain(key, KeyCode::Up) || plain(key, KeyCode::Char('k')) {
        Some(Action::MoveUp)
    } else if plain(key, KeyCode::Down) || plain(key, KeyCode::Char('j')) {
        Some(Action::MoveDown)
    } else if plain(key, KeyCode::Char(' ')) {
        Some(Action::ToggleIssueLabel)
    } else if plain(key, KeyCode::Enter) {
        Some(Action::MenuSelect)
    } else if plain(key, KeyCode::Esc) || plain(key, KeyCode::Char('q')) {
        Some(Action::Cancel)
    } else {
        None
    }
}

pub fn map_issue_label_picker_mode(key: KeyEvent) -> (action: Option<Action>)
    ensures
        action == issue_label_picker_key(key),
{
    let m = key.modifiers;
    let plain = m == KeyModifiers::none();
    match key.code {
        KeyCode::Up if plain => Some(Action::MoveUp),
        KeyCode::Char('k') if plain => Some(Action::MoveUp),
        KeyCode::Down if plain => Some(Action::MoveDown),
        KeyCode::Char('j') if plain => Some(Action::MoveDown),
        KeyCode::Char(' ') if plain => Some(Action::ToggleIssueLabel),
        KeyCode::Enter if plain => Some(Action::MenuSelect),
        KeyCode::Esc if plain => Some(Action::Cancel),
        KeyCode::Char('q') if plain => Some(Action::Cancel),
        _ => None,
    }
}

/// The list of CI checks.
pub open spec fn ci_checks_key(key: KeyEvent) -> Option<Action> {
    if plain(key, KeyCode::Up) || plain(key, KeyCode::Char('k')) {
        Some(Action::MoveUp)
    } else if plain(key, KeyCode::Down) || plain(key, KeyCode::Char('j')) {
        Some(Action::MoveDown)
    } else if ctrl(key, KeyCode::Char('u')) || plain(key, KeyCode::PageUp) {
        Some(Action::PageUp)
    } else if ctrl(key, KeyCode::Char('d')) || plain(key, KeyCode::PageDown) {
        Some(Action::PageDown)
    } else if plain(key, KeyCode::Char('g')) || plain(key, KeyCode::Home) {
        Some(Action::GoToTop)
    } else if shifted(key, KeyCode::Char('G')) || plain(key, KeyCode::End) {
        Some(Action::GoToBottom)
    } else if plain(key, KeyCode::Enter) {
        Some(Action::MenuSelect)
    } else if plain(key, KeyCode::Char('o')) {
        Some(Action::OpenPr)
    } else if plain(key, KeyCode::Esc) || plain(key, KeyCode::Char('q')) {
        Some(Action::Cancel)
    } else {
        None
    }
}

pub fn map_ci_checks_mode(key: KeyEvent) -> (action: Option<Action>)
    ensures
        action == ci_checks_key(key),
{
    let m = key.modifiers;
    let plain = m == KeyModifiers::none();
    let shift = m == KeyModifiers::shift();
    let ctrl = m == KeyModifiers::control();
    match key.code {
        KeyCode::Up if plain => Some(Action::MoveUp),
        KeyCode::Char('k') if plain => Some(Action::MoveUp),
        KeyCode::Down if plain => Some(Action::MoveDown),
        KeyCode::Char('j') if plain => Some(Action::MoveDown),
        KeyCode::Char('u') if ctrl => Some(Action::PageUp),
        KeyCode::PageUp if plain => Some(Action::PageUp),
        KeyCode::Char('d') if ctrl => Some(Action::PageDown),
        KeyCode::PageDown if plain => Some(Action::PageDown),
        KeyCode::Char('g') if plain => Some(Action::GoToTop),
        KeyCode::Home if plain => Some(Action::GoToTop),
        KeyCode::Char('G') if shift => Some(Action::GoToBottom),
        KeyCode::End if plain => Some(Action::GoToBottom),
        KeyCode::Enter if plain => Some(Action::MenuSelect),
        KeyCode::Char('o') if plain => Some(Action::OpenPr),
        KeyCode::Esc if plain => Some(Action::Cancel),
        KeyCode::Char('q') if plain => Some(Action::Cancel),
        _ => None,
    }
}

/// The pull choices and the pull request pickers.
pub open spec fn pull_divergence_key(key: KeyEvent) -> Option<Action> {
    if plain(key, KeyCode::Up) || plain(key, KeyCode::Char('k')) {
        Some(Action::MoveUp)
    } else if plain(key, KeyCode::Down) || plain(key, KeyCode::Char('j')) {
        Some(Action::MoveDown)
    } else if plain(key, KeyCode::Enter) {
        Some(Action::MenuSelect)
    } else if plain(key, KeyCode::Esc) || plain(key, KeyCode::Char('q')) {
        Some(Action::Cancel)
    } else {
        None
    }
}

pub fn map_pull_divergence_mode(key: KeyEvent) -> (action: Option<Action>)
    ensures
        action == pull_divergence_key(key),
{
    let m = key.modifiers;
    let plain = m == KeyModifiers::none();
    match key.code {
        KeyCode::Up if plain => Some(Action::MoveUp),
        KeyCode::Char('k') if plain => Some(Action::MoveUp),
        KeyCode::Down if plain => Some(Action::MoveDown),
        KeyCode::Char('j') if plain => Some(Action::MoveDown),
        KeyCode::Enter if plain => Some(Action::MenuSelect),
        KeyCode::Esc if plain => Some(Action::Cancel),
        KeyCode::Char('q') if plain => Some(Action::Cancel),
        _ => None,
    }
}

/// The commit actions menu, filtered by typing.
pub open spec fn commit_menu_key(key: KeyEvent) -> Option<Action> {
    if editing_shortcut(key) is Some {
        editing_shortcut(key)
    } else if plain(key, KeyCode::Up) {
        Some(Action::MoveUp)
    } else if plain(key, KeyCode::Down) {
        Some(Action::MoveDown)
    } else if plain(key, KeyCode::Enter) {
        Some(Action::MenuSelect)
    } else if plain(key, KeyCode::Esc) || plain(key, KeyCode::Char('q')) {
        Some(Action::Cancel)
    } else if plain(key, KeyCode::Backspace) {
        Some(Action::InputBackspace)
    } else if key.code is Char && (key.modifiers == KeyModifiers::plain() || key.modifiers == KeyModifiers::of(true, false, false)) {
        Some(Action::InputChar(key.code->Char_0))
    } else {
        None
    }
}

pub fn map_commit_menu_mode(key: KeyEvent) -> (action: Option<Action>)
    ensures
        action == commit_menu_key(key),
{
    if let Some(action) = map_text_editing_shortcut(key) {
        return Some(action);
    }
    let m = key.modifiers;
    let plain = m == KeyModifiers::none();
    let shift = m == KeyModifiers::shift();
    match key.code {
        KeyCode::Up if plain => Some(Action::MoveUp),
        KeyCode::Down if plain => Some(Action::MoveDown),
        KeyCode::Enter if plain => Some(Action::MenuSelect),
        KeyCode::Esc if plain => Some(Action::Cancel),
        KeyCode::Char('q') if plain => Some(Action::Cancel),
        KeyCode::Backspace if plain => Some(Action::InputBackspace),
        KeyCode::Char(c) if plain || shift => Some(Action::InputChar(c)),
        _ => None,
    }
}

/// The branch filter.
pub open spec fn branch_filter_key(key: KeyEvent) -> Option<Action> {
    if editing_shortcut(key) is Some {
        editing_shortcut(key)
    } else if plain(key, KeyCode::Up) {
        Some(Action::MoveUp)
    } else if plain(key, KeyCode::Down) {
        Some(Action::MoveDown)
    } else if plain(key, KeyCode::Char(' ')) {
        Some(Action::MenuSelect)
    } else if ctrl(key, KeyCode::Char('a')) {
        Some(Action::SelectAll)
    } else if ctrl(key, KeyCode::Char('o')) {
        Some(Action::SelectNone)
    } else if plain(key, KeyCode::Enter) {
        Some(Action::Confirm)
    } else if plain(key, KeyCode::Backspace) {
        Some(Action::InputBackspace)
    } else if plain(key, KeyCode::Esc) {
        Some(Action::Cancel)
    } else if key.code is Char && (key.modifiers == KeyModifiers::plain() || key.modifiers == KeyModifiers::of(true, false, false)) {
        Some(Action::InputChar(key.code->Char_0))
    } else {
        None
    }
}

pub fn map_branch_filter_mode(key: KeyEvent) -> (action: Option<Action>)
    ensures
        action == branch_filter_key(key),
{
    if let Some(action) = map_text_editing_shortcut(key) {
        return Some(action);
    }
    let m = key.modifiers;
    let plain = m == KeyModifiers::none();
    let shift = m == KeyModifiers::shift();
    let ctrl = m == KeyModifiers::control();
    match key.code {
        KeyCode::Up if plain => Some(Action::MoveUp),
        KeyCode::Down if plain => Some(Action::MoveDown),
        KeyCode::Char(' ') if plain => Some(Action::MenuSelect),
        KeyCode::Char('a') if ctrl => Some(Action::SelectAll),
        KeyCode::Char('o') if ctrl => Some(Action::SelectNone),
        KeyCode::Enter if plain => Some(Action::Confirm),
        KeyCode::Backspace if plain => Some(Action::InputBackspace),
        KeyCode::Esc if plain => Some(Action::Cancel),
        KeyCode::Char(c) if plain || shift => Some(Action::InputChar(c)),
        _ => None,
    }
}

/// The help popup.
pub open spec fn help_key(key: KeyEvent) -> Option<Action> {
    if any(key, KeyCode::Esc) || any(key, KeyCode::Char('q')) || any(key, KeyCode::Char('?')) {
        Some(Action::ToggleHelp)
    } else {
        None
    }
}

pub fn map_help_mode(key: KeyEvent) -> (action: Option<Action>)
    ensures
        action == help_key(key),
{
    match key.code {
        KeyCode::Esc | KeyCode::Char('q') | KeyCode::Char('?') => Some(Action::ToggleHelp),
        _ => None,
    }
}

/// A single-line prompt.
pub open spec fn input_key(key: KeyEvent) -> Option<Action> {
    if editing_shortcut(key) is Some {
        editing_shortcut(key)
    } else if any(key, KeyCode::Enter) {
        Some(Action::Confirm)
    } else if any(key, KeyCode::Esc) {
        Some(Action::Cancel)
    } else if any(key, KeyCode::Backspace) {
        Some(Action::InputBackspace)
    } else if key.code is Char {
        Some(Action::InputChar(key.code->Char_0))
    } else {
        None
    }
}

pub fn map_input_mode(key: KeyEvent) -> (action: Option<Action>)
    ensures
        action == input_key(key),
{
    if let Some(action) = map_text_editing_shortcut(key) {
        return Some(action);
    }
    match key.code {
        KeyCode::Enter => Some(Action::Confirm),
        KeyCode::Esc => Some(Action::Cancel),
        KeyCode::Backspace => Some(Action::InputBackspace),
        KeyCode::Char(c) => Some(Action::InputChar(c)),
        _ => None,
    }
}

/// The branch search prompt.
pub open spec fn search_key(key: KeyEvent) -> Option<Action> {
    if editing_shortcut(key) is Some {
        editing_shortcut(key)
    } else if plain(key, KeyCode::Up) || ctrl(key, KeyCode::Char('k')) {
        Some(Action::SearchSelectUp)
    } else if plain(key, KeyCode::Down) || ctrl(key, KeyCode::Char('j')) {
        Some(Action::SearchSelectDown)
    } else if plain(key, KeyCode::Tab) {
        Some(Action::SearchSelectDownQuiet)
    } else if shifted(key, KeyCode::BackTab) {
        Some(Action::SearchSelectUpQuiet)
    } else if any(key, KeyCode::Enter) {
        Some(Action::Confirm)
    } else if any(key, KeyCode::Esc) {
        Some(Action::Cancel)
    } else if any(key, KeyCode::Backspace) || any(key, KeyCode::Delete) {
        Some(Action::InputBackspace)
    } else if key.code is Char {
        Some(Action::InputChar(key.code->Char_0))
    } else {
        None
    }
}

pub fn map_search_mode(key: KeyEvent) -> (action: Option<Action>)
    ensures
        action == search_key(key),
{
    if let Some(action) = map_text_editing_shortcut(key) {
        return Some(action);
    }
    let m = key.modifiers;
    let plain = m == KeyModifiers::none();
    let shift = m == KeyModifiers::shift();
    let ctrl = m == KeyModifiers::control();
    match key.code {
        KeyCode::Up if plain => Some(Action::SearchSelectUp),
        KeyCode::Char('k') if ctrl => Some(Action::SearchSelectUp),
        KeyCode::Down if plain => Some(Action::SearchSelectDown),
        KeyCode::Char('j') if ctrl => Some(Action::SearchSelectDown),
        KeyCode::Tab if plain => Some(Action::SearchSelectDownQuiet),
        KeyCode::BackTab if shift => Some(Action::SearchSelectUpQuiet),
        KeyCode::Enter => Some(Action::Confirm),
        KeyCode::Esc => Some(Action::Cancel),
        KeyCode::Backspace | KeyCode::Delete => Some(Action::InputBackspace),
        KeyCode::Char(c) => Some(Action::InputChar(c)),
        _ => None,
    }
}

/// A confirmation. Control with Enter, or `R` where a terminal cannot send
/// that chord, also confirms the secondary action.
pub open spec fn confirm_key(key: KeyEvent) -> Option<Action> {
    if with_ctrl(key, KeyCode::Enter) || any(key, KeyCode::Char('R')) {
        Some(Action::ConfirmDeleteBranchAndRemote)
    } else if any(key, KeyCode::Char('y')) || any(key, KeyCode::Enter) {
        Some(Action::Confirm)
    } else if any(key, KeyCode::Char('n')) || any(key, KeyCode::Esc) {
        Some(Action::Cancel)
    } else {
        None
    }
}

pub fn map_confirm_mode(key: KeyEvent) -> (action: Option<Action>)
    ensures
        action == confirm_key(key),
{
    let m = key.modifiers;
    match key.code {
        KeyCode::Enter if m.control => Some(Action::ConfirmDeleteBranchAndRemote),
        KeyCode::Char('R') => Some(Action::ConfirmDeleteBranchAndRemote),
        KeyCode::Char('y') | KeyCode::Enter => Some(Action::Confirm),
        KeyCode::Char('n') | KeyCode::Esc => Some(Action::Cancel),
        _ => None,
    }
}

/// An error message.
pub open spec fn error_key(key: KeyEvent) -> Option<Action> {
    if any(key, KeyCode::Esc) || any(key, KeyCode::Enter) || any(key, KeyCode::Char('q')) {
        Some(Action::Cancel)
    } else {
        None
    }
}

pub fn map_error_mode(key: KeyEvent) -> (action: Option<Action>)
    ensures
        action == error_key(key),
{
    match key.code {
        KeyCode::Esc | KeyCode::Enter | KeyCode::Char('q') => Some(Action::Cancel),
        _ => None,
    }
}

/// The file diff viewer.
pub open spec fn file_diff_key(key: KeyEvent) -> Option<Action> {
    if ctrl_alt(key, KeyCode::Char('w')) || ctrl_alt(key, KeyCode::Char('W')) {
        Some(Action::ToggleDiffWrap)
    } else if plain(key, KeyCode::Down) || plain(key, KeyCode::Char('j')) {
        Some(Action::ScrollDown)
    } else if plain(key, KeyCode::Up) || plain(key, KeyCode::Char('k')) {
        Some(Action::ScrollUp)
    } else if ctrl(key, KeyCode::Char('d')) {
        Some(Action::ScrollPageDown)
    } else if ctrl(key, KeyCode::Char('u')) {
        Some(Action::ScrollPageUp)
    } else if ctrl(key, KeyCode::Char('f')) || plain(key, KeyCode::PageDown) {
        Some(Action::PageDown)
    } else if ctrl(key, KeyCode::Char('b')) || plain(key, KeyCode::PageUp) {
        Some(Action::PageUp)
    } else if plain(key, KeyCode::Char('g')) || plain(key, KeyCode::Home) {
        Some(Action::ScrollToTop)
    } else if shifted(key, KeyCode::Char('G')) || plain(key, KeyCode::End) {
        Some(Action::ScrollToBottom)
    } else if plain(key, KeyCode::Char('h')) || plain(key, KeyCode::Left) {
        Some(Action::ScrollLeft)
    } else if plain(key, KeyCode::Char('l')) || plain(key, KeyCode::Right) {
        Some(Action::ScrollRight)
    } else if plain(key, KeyCode::Char('0')) {
        Some(Action::ScrollToLineStart)
    } else if any(key, KeyCode::Char(']')) {
        Some(Action::NextHunk)
    } else if any(key, KeyCode::Char('[')) {
        Some(Action::PrevHunk)
    } else if plain(key, KeyCode::Char('n')) {
        Some(Action::NextFile)
    } else if shifted(key, KeyCode::Char('N')) {
        Some(Action::PrevFile)
    } else if plain(key, KeyCode::Char('s')) {
        Some(Action::StageHunk)
    } else if plain(key, KeyCode::Char('u')) {
        Some(Action::UnstageHunk)
    } else if plain(key, KeyCode::Char('x')) {
        Some(Action::DiscardHunk)
    } else if plain(key, KeyCode::Esc) || plain(key, KeyCode::Char('q')) {
        Some(Action::Cancel)
    } else {
        None
    }
}

pub fn map_file_diff_mode(key: KeyEvent) -> (action: Option<Action>)
    ensures
        action == file_diff_key(key),
{
    let m = key.modifiers;
    let plain = m == KeyModifiers::none();
    let shift = m == KeyModifiers::shift();
    let ctrl = m == KeyModifiers::control();
    match key.code {
        KeyCode::Char('w') if m.control && m.alt => Some(Action::ToggleDiffWrap),
        KeyCode::Char('W') if m.control && m.alt => Some(Action::ToggleDiffWrap),
        KeyCode::Down if plain => Some(Action::ScrollDown),
        KeyCode::Char('j') if plain => Some(Action::ScrollDown),
        KeyCode::Up if plain => Some(Action::ScrollUp),
        KeyCode::Char('k') if plain => Some(Action::ScrollUp),
        KeyCode::Char('d') if ctrl => Some(Action::ScrollPageDown),
        KeyCode::Char('u') if ctrl => Some(Action::ScrollPageUp),
        KeyCode::Char('f') if ctrl => Some(Action::PageDown),
        KeyCode::PageDown if plain => Some(Action::PageDown),
        KeyCode::Char('b') if ctrl => Some(Action::PageUp),
        KeyCode::PageUp if plain => Some(Action::PageUp),
        KeyCode::Char('g') if plain => Some(Action::ScrollToTop),
        KeyCode::Home if plain => Some(Action::ScrollToTop),
        KeyCode::Char('G') if shift => Some(Action::ScrollToBottom),
        KeyCode::End if plain => Some(Action::ScrollToBottom),
        KeyCode::Char('h') if plain => Some(Action::ScrollLeft),
        KeyCode::Left if plain => Some(Action::ScrollLeft),
        KeyCode::Char('l') if plain => Some(Action::ScrollRight),
        KeyCode::Right if plain => Some(Action::ScrollRight),
        KeyCode::Char('0') if plain => Some(Action::ScrollToLineStart),
        KeyCode::Char(']') => Some(Action::NextHunk),
        KeyCode::Char('[') => Some(Action::PrevHunk),
        KeyCode::Char('n') if plain => Some(Action::NextFile),
        KeyCode::Char('N') if shift => Some(Action::PrevFile),
        KeyCode::Char('s') if plain => Some(Action::StageHunk),
        KeyCode::Char('u') if plain => Some(Action::UnstageHunk),
        KeyCode::Char('x') if plain => Some(Action::DiscardHunk),
        KeyCode::Esc if plain => Some(Action::Cancel),
        KeyCode::Char('q') if plain => Some(Action::Cancel),
        _ => None,
    }
}

/// The normal mode: the message editor while it has the focus, the keys that
/// work in every panel, then those of the focused panel.
pub open spec fn normal_key(
    key: KeyEvent,
    panel: FocusedPanel,
    editing_commit: bool,
    files_filter_active: bool,
    commit_filter_active: bool,
) -> Option<Action> {
    let typing = files_filter_active || commit_filter_active;
    if any(key, KeyCode::F(5)) {
        Some(Action::FullUpdate)
    } else if editing_commit && panel == FocusedPanel::CommitDetail {
        editor_key(key)
    } else if !typing && (with_ctrl(key, KeyCode::Char('p')) || no_ctrl_alt(key, KeyCode::Char(':'))) {
        Some(Action::OpenCommandPalette)
    } else if !typing && with_ctrl(key, KeyCode::Char(',')) {
        Some(Action::OpenSettings)
    } else if !typing && key.code == KeyCode::Char('I') && key.modifiers.shift {
        Some(Action::OpenIssueList)
    } else if plain(key, KeyCode::Left) || shifted(key, KeyCode::BackTab) {
        Some(Action::PanelLeft)
    } else if plain(key, KeyCode::Right) || plain(key, KeyCode::Tab) {
        Some(Action::PanelRight)
    } else {
        match panel {
            FocusedPanel::Graph => if commit_filter_active {
                commit_filter_key(key)
            } else {
                graph_key(key)
            },
            FocusedPanel::Files => if files_filter_active {
                files_filter_key(key)
            } else {
                files_key(key)
            },
            FocusedPanel::CommitDetail => commit_detail_key(key),
        }
    }
}

pub fn map_normal_mode(
    key: KeyEvent,
    panel: FocusedPanel,
    editing_commit: bool,
    files_filter_active: bool,
    commit_filter_active: bool,
) -> (action: Option<Action>)
    ensures
        action == normal_key(key, panel, editing_commit, files_filter_active, commit_filter_active),
{
    if key.code == KeyCode::F(5) {
        return Some(Action::FullUpdate);
    }
    if editing_commit && panel == FocusedPanel::CommitDetail {
        return map_editor_mode(key);
    }
    let m = key.modifiers;
    if !files_filter_active && !commit_filter_active {
        let ctrl_p = m.control && key.code == KeyCode::Char('p');
        let colon = !m.control && !m.alt && key.code == KeyCode::Char(':');
        if ctrl_p || colon {
            return Some(Action::OpenCommandPalette);
        }
        if m.control && key.code == KeyCode::Char(',') {
            return Some(Action::OpenSettings);
        }
        if m.shift && key.code == KeyCode::Char('I') {
            return Some(Action::OpenIssueList);
        }
    }
    let plain = m == KeyModifiers::none();
    match key.code {
        KeyCode::Left if plain => {
            return Some(Action::PanelLeft);
        },
        KeyCode::BackTab if m == KeyModifiers::shift() => {
            return Some(Action::PanelLeft);
        },
        KeyCode::Right if plain => {
            return Some(Action::PanelRight);
        },
        KeyCode::Tab if plain => {
            return Some(Action::PanelRight);
        },
        _ => {},
    }
    match panel {
        FocusedPanel::Graph => {
            if commit_filter_active {
                map_commit_filter_mode(key)
            } else {
                map_graph_mode(key)
            }
        },
        FocusedPanel::Files => {
            if files_filter_active {
                map_files_filter_mode(key)
            } else {
                map_files_mode(key)
            }
        },
        FocusedPanel::CommitDetail => map_commit_detail_mode(key),
    }
}

/// The keys of a mode. The rebase plan has none of its own here: its commands
/// are reached through the registry.
pub open spec fn mode_key(
    key: KeyEvent,
    mode: AppMode,
    panel: FocusedPanel,
    editing_commit: bool,
    files_filter_active: bool,
    commit_filter_active: bool,
) -> Option<Action> {
    match mode {
        AppMode::Normal => normal_key(key, panel, editing_commit, files_filter_active, commit_filter_active),
        AppMode::Help => help_key(key),
        AppMode::Input { action } => if action == InputAction::Search {
            search_key(key)
        } else {
            input_key(key)
        },
        AppMode::Confirm => confirm_key(key),
        AppMode::Error => error_key(key),
        AppMode::CommitMenu => commit_menu_key(key),
        AppMode::MetadataMenu => metadata_menu_key(key),
        AppMode::Settings => settings_menu_key(key),
        AppMode::PullDivergence => pull_divergence_key(key),
        AppMode::CiChecks => ci_checks_key(key),
        AppMode::PrThread => pr_thread_key(key),
        AppMode::PrCompose => compose_key(key),
        AppMode::PrMergePicker => pull_divergence_key(key),
        AppMode::PrReviewPicker => pull_divergence_key(key),
        AppMode::RebasePlan => None,
        AppMode::IssueList => issue_list_key(key),
        AppMode::IssueDetail => issue_detail_key(key),
        AppMode::IssueCompose => compose_key(key),
        AppMode::IssueLabelPicker => issue_label_picker_key(key),
        AppMode::IssueLabelFilter => issue_label_filter_key(key),
        AppMode::BranchPicker => picker_key(key),
        AppMode::BranchDeletePicker => picker_key(key),
        AppMode::TagPicker => picker_key(key),
        AppMode::RemotePicker => picker_key(key),
        AppMode::BranchFilter => branch_filter_key(key),
        AppMode::FileDiff => file_diff_key(key),
        AppMode::FileHistory => picker_key(key),
        AppMode::CommandPalette => command_palette_key(key),
    }
}

/// What a key event asks for: nothing when a key is let go, else the keys that
/// work everywhere, else those of the mode.
pub open spec fn key_action(
    key: KeyEvent,
    mode: AppMode,
    panel: FocusedPanel,
    editing_commit: bool,
    files_filter_active: bool,
    commit_filter_active: bool,
) -> Option<Action> {
    if key.kind == KeyEventKind::Release {
        None
    } else if with_ctrl(key, KeyCode::Char('q')) {
        Some(Action::ForceQuit)
    } else if any(key, KeyCode::F(12)) {
        Some(Action::ToggleDebugKeys)
    } else if with_alt(key, KeyCode::Char('/')) {
        Some(Action::ToggleLayout)
    } else {
        mode_key(key, mode, panel, editing_commit, files_filter_active, commit_filter_active)
    }
}

/// The action of a key event. Holding a key counts as pressing it again;
/// letting it go counts as nothing.
pub fn map_key_to_action(
    key: KeyEvent,
    mode: &AppMode,
    focused_panel: FocusedPanel,
    editing_commit: bool,
    files_filter_active: bool,
    commit_filter_active: bool,
) -> (action: Option<Action>)
    ensures
        action == key_action(
            key,
            *mode,
            focused_panel,
            editing_commit,
            files_filter_active,
            commit_filter_active,
        ),
{
    if key.kind == KeyEventKind::Release {
        return None;
    }
    if key.modifiers.control && key.code == KeyCode::Char('q') {
        return Some(Action::ForceQuit);
    }
    if key.code == KeyCode::F(12) {
        return Some(Action::ToggleDebugKeys);
    }
    if key.modifiers.alt && key.code == KeyCode::Char('/') {
        return Some(Action::ToggleLayout);
    }
    match mode {
        AppMode::Normal => map_normal_mode(
            key,
            focused_panel,
            editing_commit,
            files_filter_active,
            commit_filter_active,
        ),
        AppMode::Help => map_help_mode(key),
        AppMode::Input { action } => {
            if *action == InputAction::Search {
                map_search_mode(key)
            } else {
                map_input_mode(key)
            }
        },
        AppMode::Confirm => map_confirm_mode(key),
        AppMode::Error => map_error_mode(key),
        AppMode::CommitMenu => map_commit_menu_mode(key),
        AppMode::MetadataMenu => map_metadata_menu_mode(key),
        AppMode::Settings => map_settings_menu_mode(key),
        AppMode::PullDivergence => map_pull_divergence_mode(key),
        AppMode::CiChecks => map_ci_checks_mode(key),
        AppMode::PrThread => map_pr_thread_mode(key),
        AppMode::PrCompose | AppMode::IssueCompose => map_pr_compose_mode(key),
        AppMode::PrMergePicker | AppMode::PrReviewPicker => map_pull_divergence_mode(key),
        AppMode::RebasePlan => None,
        AppMode::IssueList => map_issue_list_mode(key),
        AppMode::IssueDetail => map_issue_detail_mode(key),
        AppMode::IssueLabelPicker => map_issue_label_picker_mode(key),
        AppMode::IssueLabelFilter => map_issue_label_filter_mode(key),
        AppMode::BranchPicker | AppMode::BranchDeletePicker | AppMode::TagPicker | AppMode::RemotePicker
        | AppMode::FileHistory => map_picker_mode(key),
        AppMode::BranchFilter => map_branch_filter_mode(key),
        AppMode::FileDiff => map_file_diff_mode(key),
        AppMode::CommandPalette => map_command_palette_mode(key),
    }
}

/// Control with `q` quits from anywhere.
pub proof fn law_quit_from_anywhere(
    key: KeyEvent,
    mode: AppMode,
    panel: FocusedPanel,
    editing_commit: bool,
    files_filter_active: bool,
    commit_filter_active: bool,
)
    requires
        key.code == KeyCode::Char('q'),
        key.modifiers.control,
        key.kind != KeyEventKind::Release,
    ensures
        key_action(key, mode, panel, editing_commit, files_filter_active, commit_filter_active) == Some(
            Action::ForceQuit,
        ),
{
}

/// Letting a key go never triggers anything.
pub proof fn law_release_does_nothing(
    key: KeyEvent,
    mode: AppMode,
    panel: FocusedPanel,
    editing_commit: bool,
    files_filter_active: bool,
    commit_filter_active: bool,
)
    requires
        key.kind == KeyEventKind::Release,
    ensures
        key_action(key, mode, panel, editing_commit, files_filter_active, commit_filter_active) is None,
{
}

/// A held key does what pressing it does.
pub proof fn law_repeat_acts_as_press(
    code: KeyCode,
    modifiers: KeyModifiers,
    mode: AppMode,
    panel: FocusedPanel,
    editing_commit: bool,
    files_filter_active: bool,
    commit_filter_active: bool,
)
    ensures
        key_action(
            KeyEvent { code, modifiers, kind: KeyEventKind::Repeat },
            mode,
            panel,
            editing_commit,
            files_filter_active,
            commit_filter_active,
        ) == key_action(
            KeyEvent { code, modifiers, kind: KeyEventKind::Press },
            mode,
            panel,
            editing_commit,
            files_filter_active,
            commit_filter_active,
        ),
{
}

/// In every mode where typing filters a list, a letter typed without Control,
/// Alt or any other modifier reaches the filter, save `q` in the commit menu,
/// which closes it.
pub proof fn law_letters_reach_the_filter(key: KeyEvent, c: char)
    requires
        plain(key, KeyCode::Char(c)),
        c != ' ',
    ensures
        settings_menu_key(key) == Some(Action::InputChar(c)),
        command_palette_key(key) == Some(Action::InputChar(c)),
        branch_filter_key(key) == Some(Action::InputChar(c)),
        c != 'q' ==> commit_menu_key(key) == Some(Action::InputChar(c)),
        commit_filter_key(key) == Some(Action::CommitFilterChar(c)),
        files_filter_key(key) == Some(Action::FilesFilterChar(c)),
{
}

} // verus!
