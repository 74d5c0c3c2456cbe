use keifu::action::Action;
use keifu::app::{AppMode, FocusedPanel};
use keifu::keybindings::{
    map_confirm_mode, map_file_diff_mode, map_files_mode, map_key_to_action, map_pr_compose_mode, map_settings_menu_mode,
};
use keifu::keys::{KeyCode, KeyEvent, KeyEventKind, KeyModifiers};

#[test]
fn compose_maps_ctrl_e_to_external_edit() {
    let key = KeyEvent::new(KeyCode::Char('e'), KeyModifiers::control());
    assert_eq!(map_pr_compose_mode(key), Some(Action::ExternalEdit));
}

#[test]
fn compose_ctrl_s_still_submits_and_plain_e_types_a_char() {
    let submit = KeyEvent::new(KeyCode::Char('s'), KeyModifiers::control());
    assert_eq!(map_pr_compose_mode(submit), Some(Action::SubmitCompose));
    // Plain 'e' (no ctrl) types a character, not an external-edit request.
    let plain = KeyEvent::new(KeyCode::Char('e'), KeyModifiers::none());
    assert_eq!(map_pr_compose_mode(plain), Some(Action::EditorChar('e')));
}

#[test]
fn graph_ctrl_home_goes_to_top() {
    let plain = KeyEvent::new(KeyCode::Home, KeyModifiers::none());
    let chord = KeyEvent::new(KeyCode::Home, KeyModifiers::control());
    assert_eq!(map_normal(plain), Some(Action::GoToTop));
    assert_eq!(map_normal(chord), Some(Action::GoToTop));
}

/// Helper: map a key in Normal mode, Graph panel, no filters/editing.
fn map_normal(key: KeyEvent) -> Option<Action> {
    map_key_to_action(
        key,
        &AppMode::Normal,
        FocusedPanel::Graph,
        false,
        false,
        false,
    )
}

#[test]
fn release_events_produce_no_action() {
    // With keyboard enhancement on, the terminal echoes a Release for every
    // key. It must not re-fire the binding (here: 'p' → Pull in the graph).
    let press = KeyEvent::new_with_kind(
        KeyCode::Char('p'),
        KeyModifiers::none(),
        KeyEventKind::Press,
    );
    let release = KeyEvent::new_with_kind(
        KeyCode::Char('p'),
        KeyModifiers::none(),
        KeyEventKind::Release,
    );
    assert_eq!(map_normal(press), Some(Action::Pull));
    assert_eq!(map_normal(release), None);
}

#[test]
fn repeat_events_behave_as_press() {
    // A held navigation key repeats; Repeat is treated as Press so scrolling
    // continues while held.
    let repeat = KeyEvent::new_with_kind(
        KeyCode::Down,
        KeyModifiers::none(),
        KeyEventKind::Repeat,
    );
    assert_eq!(map_normal(repeat), Some(Action::MoveDown));
}

#[test]
fn plain_comma_opens_settings_in_graph_and_files() {
    // Legacy fallback for the (often unencodable) Ctrl+, binding.
    let comma = KeyEvent::new(KeyCode::Char(','), KeyModifiers::none());
    assert_eq!(
        map_key_to_action(
            comma,
            &AppMode::Normal,
            FocusedPanel::Graph,
            false,
            false,
            false
        ),
        Some(Action::OpenSettings)
    );
    assert_eq!(
        map_key_to_action(
            comma,
            &AppMode::Normal,
            FocusedPanel::Files,
            false,
            false,
            false
        ),
        Some(Action::OpenSettings)
    );
}

#[test]
fn ctrl_comma_still_opens_settings() {
    let key = KeyEvent::new(KeyCode::Char(','), KeyModifiers::control());
    assert_eq!(map_normal(key), Some(Action::OpenSettings));
}

#[test]
fn settings_menu_letters_type_into_the_filter_not_nav_shortcuts() {
    // Typing filters the list, so 'j' and 'k' behave like every other letter.
    let j = KeyEvent::new(KeyCode::Char('j'), KeyModifiers::none());
    let k = KeyEvent::new(KeyCode::Char('k'), KeyModifiers::none());
    assert_eq!(map_settings_menu_mode(j), Some(Action::InputChar('j')));
    assert_eq!(map_settings_menu_mode(k), Some(Action::InputChar('k')));
    // An arbitrary letter also types.
    let d = KeyEvent::new(KeyCode::Char('d'), KeyModifiers::none());
    assert_eq!(map_settings_menu_mode(d), Some(Action::InputChar('d')));
    // Uppercase (Shift held) types too.
    let shift_d = KeyEvent::new(KeyCode::Char('D'), KeyModifiers::shift());
    assert_eq!(map_settings_menu_mode(shift_d), Some(Action::InputChar('D')));
}

#[test]
fn settings_menu_arrows_still_navigate() {
    let up = KeyEvent::new(KeyCode::Up, KeyModifiers::none());
    let down = KeyEvent::new(KeyCode::Down, KeyModifiers::none());
    assert_eq!(map_settings_menu_mode(up), Some(Action::MoveUp));
    assert_eq!(map_settings_menu_mode(down), Some(Action::MoveDown));
}

#[test]
fn settings_menu_space_and_enter_still_select_not_type() {
    let space = KeyEvent::new(KeyCode::Char(' '), KeyModifiers::none());
    let enter = KeyEvent::new(KeyCode::Enter, KeyModifiers::none());
    assert_eq!(map_settings_menu_mode(space), Some(Action::MenuSelect));
    assert_eq!(map_settings_menu_mode(enter), Some(Action::MenuSelect));
}

#[test]
fn settings_menu_digits_still_route_through_input_char() {
    // The handler (not the keybinding layer) decides whether a digit
    // starts a numeric edit or filters, based on live state.
    let five = KeyEvent::new(KeyCode::Char('5'), KeyModifiers::none());
    assert_eq!(map_settings_menu_mode(five), Some(Action::InputChar('5')));
}

#[test]
fn settings_menu_esc_backspace_map_unconditionally() {
    // The three-way Esc priority (cancel edit / clear filter / close) and
    // backspace's dual role (filter vs numeric buffer) are decided by the
    // action handler, not the keybinding layer — both always map here.
    let esc = KeyEvent::new(KeyCode::Esc, KeyModifiers::none());
    let bs = KeyEvent::new(KeyCode::Backspace, KeyModifiers::none());
    assert_eq!(map_settings_menu_mode(esc), Some(Action::Cancel));
    assert_eq!(map_settings_menu_mode(bs), Some(Action::InputBackspace));
}

#[test]
fn settings_menu_ctrl_w_and_ctrl_u_edit_shortcuts_still_work() {
    let ctrl_w = KeyEvent::new(KeyCode::Backspace, KeyModifiers::control());
    let ctrl_u = KeyEvent::new(KeyCode::Char('u'), KeyModifiers::control());
    assert_eq!(
        map_settings_menu_mode(ctrl_w),
        Some(Action::InputBackspaceWord)
    );
    assert_eq!(map_settings_menu_mode(ctrl_u), Some(Action::InputClearLine));
}

#[test]
fn confirm_mode_plain_enter_is_primary_confirm() {
    let enter = KeyEvent::new(KeyCode::Enter, KeyModifiers::none());
    assert_eq!(map_confirm_mode(enter), Some(Action::Confirm));
    let y = KeyEvent::new(KeyCode::Char('y'), KeyModifiers::none());
    assert_eq!(map_confirm_mode(y), Some(Action::Confirm));
}

#[test]
fn confirm_mode_ctrl_enter_routes_to_secondary_confirm() {
    // Ctrl+Enter is the "also delete remote" secondary confirm.
    let ctrl_enter = KeyEvent::new(KeyCode::Enter, KeyModifiers::control());
    assert_eq!(
        map_confirm_mode(ctrl_enter),
        Some(Action::ConfirmDeleteBranchAndRemote)
    );
}

#[test]
fn confirm_mode_r_is_ctrl_enter_fallback() {
    // `R` reaches the secondary confirm on terminals that can't encode
    // Ctrl+Enter (no kitty keyboard enhancement).
    let r = KeyEvent::new(KeyCode::Char('R'), KeyModifiers::none());
    assert_eq!(
        map_confirm_mode(r),
        Some(Action::ConfirmDeleteBranchAndRemote)
    );
}

#[test]
fn quit_works_from_anywhere() {
    let key = KeyEvent::new(KeyCode::Char('c'), KeyModifiers::control());
    for mode in [AppMode::Normal, AppMode::Help, AppMode::Confirm] {
        assert_eq!(
            map_key_to_action(key, &mode, FocusedPanel::Files, false, false, false),
            map_normal(key)
        );
    }
}

#[test]
fn letters_scroll_a_file_diff() {
    let j = KeyEvent::new(KeyCode::Char('j'), KeyModifiers::none());
    let k = KeyEvent::new(KeyCode::Char('k'), KeyModifiers::none());
    let down = KeyEvent::new(KeyCode::Down, KeyModifiers::none());
    let up = KeyEvent::new(KeyCode::Up, KeyModifiers::none());
    assert!(map_file_diff_mode(j).is_some());
    assert_eq!(map_file_diff_mode(j), map_file_diff_mode(down));
    assert_eq!(map_file_diff_mode(k), map_file_diff_mode(up));
}

#[test]
fn letters_reach_the_commit_filter() {
    let x = KeyEvent::new(KeyCode::Char('x'), KeyModifiers::none());
    assert_eq!(
        map_key_to_action(x, &AppMode::Normal, FocusedPanel::Graph, false, false, true),
        Some(Action::CommitFilterChar('x')),
        "a filter takes letters"
    );
}
