use keifu::action::Action;
use keifu::app::{AppMode, FocusedPanel};
use keifu::keymap::{aliases, binding_registry, public_action_id, ConfigEntry, KeyBinding, ResolvedKeymap};
use keifu::keys::{KeyCode, KeyEvent, KeyEventKind, KeyModifiers, MediaKeyCode, ModifierKeyCode};

fn entry(id: &str, keys: &[&str]) -> ConfigEntry {
    ConfigEntry { id: id.to_string(), shortcuts: Some(keys.iter().map(|k| Some(k.to_string())).collect()) }
}

fn pressed(code: KeyCode, modifiers: KeyModifiers) -> KeyEvent {
    KeyEvent::new(code, modifiers)
}

fn graph_action(keymap: &ResolvedKeymap, key: KeyEvent) -> Option<Action> {
    keymap.action_for_key(key, &AppMode::Normal, FocusedPanel::Graph, false, false, false)
}

#[test]
fn every_default_is_a_binding() {
    for d in binding_registry() {
        for text in &d.defaults {
            assert!(KeyBinding::from_str(text).is_ok(), "{} has an unreadable default {text}", d.id);
        }
    }
}

#[test]
fn every_command_is_registered_once() {
    let rows = binding_registry();
    for (i, a) in rows.iter().enumerate() {
        for b in &rows[i + 1..] {
            assert_ne!(a.id, b.id);
            assert_ne!(a.action, b.action);
        }
    }
    for row in &rows {
        assert_eq!(public_action_id(&row.action), Some(row.id));
    }
    for (alias, id) in aliases() {
        assert!(!rows.iter().any(|d| d.id == alias));
        assert!(rows.iter().any(|d| d.id == id));
    }
}

#[test]
fn bindings_are_read_and_shown() {
    for (source, shown) in [
        ("ctrl+shift+p", "Ctrl+Shift+P"),
        ("Alt+Enter", "Alt+Enter"),
        ("F12", "F12"),
        ("esc", "Esc"),
        ("space", "Space"),
    ] {
        assert_eq!(KeyBinding::from_str(source).unwrap().to_string(), shown);
    }
    let fails = |s: &str| KeyBinding::from_str(s).unwrap_err();
    assert_eq!(fails(""), "binding is empty");
    assert_eq!(fails("g g"), "multi-key sequences are not supported");
    assert_eq!(fails("ctrl++"), "binding contains an empty modifier or key");
    assert_eq!(fails("ctrl+shift"), "binding has modifiers but no key");
    assert_eq!(fails("ctrl+ctrl+a"), "modifier 'ctrl' is repeated");
    assert_eq!(fails("a+ctrl"), "modifier 'ctrl' appears after the key");
    assert_eq!(fails("a+b"), "a binding must contain exactly one key");
    assert_eq!(fails("F25"), "function keys must be between F1 and F24");
    assert_eq!(fails("nokey"), "unknown key 'nokey'");
}

#[test]
fn bindings_match_in_either_letter_case() {
    let b = KeyBinding::from_str("Ctrl+p").unwrap();
    assert!(b.matches(pressed(KeyCode::Char('P'), KeyModifiers::control())));
    assert!(!b.matches(pressed(KeyCode::Char('p'), KeyModifiers::none())));
    let release = KeyEvent::new_with_kind(KeyCode::Char('p'), KeyModifiers::control(), KeyEventKind::Release);
    assert!(!b.matches(release));
}

#[test]
fn overrides_route_keys() {
    let keymap = ResolvedKeymap::from_table(&[entry("pull", &["Ctrl+Y"])]);
    assert!(keymap.warnings().is_empty());
    assert!(keymap.is_overridden("pull"));
    assert!(keymap.replaces_action(&Action::Pull));
    assert_eq!(keymap.display_bindings("pull"), "Ctrl+Y");
    let key = pressed(KeyCode::Char('y'), KeyModifiers::control());
    assert_eq!(graph_action(&keymap, key), Some(Action::Pull));
    let release = KeyEvent::new_with_kind(KeyCode::Char('y'), KeyModifiers::control(), KeyEventKind::Release);
    assert_eq!(graph_action(&keymap, release), None);
    assert_eq!(graph_action(&keymap, pressed(KeyCode::Char('z'), KeyModifiers::none())), None);
}

#[test]
fn an_empty_list_unbinds() {
    let keymap = ResolvedKeymap::from_table(&[entry("pull", &[])]);
    assert_eq!(keymap.display_bindings("pull"), "Unassigned");
    assert!(keymap.replaces_action(&Action::Pull));
    assert_eq!(keymap.display_bindings("search"), "/");
}

#[test]
fn bad_entries_are_only_warned_about() {
    let keymap = ResolvedKeymap::from_table(&[
        entry("no-such-command", &["x"]),
        entry("pull", &["nokey"]),
        ConfigEntry { id: "search".to_string(), shortcuts: None },
        ConfigEntry { id: "quit".to_string(), shortcuts: Some(vec![None]) },
    ]);
    assert_eq!(keymap.warnings().len(), 4);
    assert!(!keymap.is_overridden("pull"));
    assert!(!keymap.is_overridden("search"));
    assert!(!keymap.is_overridden("quit"));
}

#[test]
fn the_later_of_two_commands_wins() {
    let keymap = ResolvedKeymap::from_table(&[entry("pull", &["F9"]), entry("search", &["F9"])]);
    assert!(!keymap.warnings().is_empty());
    assert_eq!(graph_action(&keymap, pressed(KeyCode::F(9), KeyModifiers::none())), Some(Action::Search));
}

#[test]
fn aliases_stand_for_their_command() {
    let keymap = ResolvedKeymap::from_table(&[entry("command-palette", &["F8"])]);
    assert!(keymap.warnings().is_empty());
    assert!(keymap.is_overridden("open-command-palette"));
    assert!(keymap.is_overridden("open-palette"));
}

#[test]
fn actions_have_public_names() {
    assert_eq!(public_action_id(&Action::Pull), Some("pull"));
    assert_eq!(public_action_id(&Action::InputChar('x')), None);
}

#[test]
fn shown_bindings_read_back() {
    for source in ["ctrl+alt+shift+x", "F12", "pgdn", "Space", "alt+;", "q", "Shift+g"] {
        let binding = KeyBinding::from_str(source).unwrap();
        let again = KeyBinding::from_str(&binding.to_string()).unwrap();
        assert_eq!(again.to_string(), binding.to_string());
        let event = KeyEvent { code: binding.code, modifiers: binding.modifiers, kind: KeyEventKind::Press };
        assert!(again.matches(event));
    }
}

#[test]
fn media_and_modifier_keys_are_told_apart() {
    let play = KeyBinding { code: KeyCode::Media(MediaKeyCode::Play), modifiers: KeyModifiers::none() };
    assert!(play.matches(pressed(KeyCode::Media(MediaKeyCode::Play), KeyModifiers::none())));
    assert!(!play.matches(pressed(KeyCode::Media(MediaKeyCode::Stop), KeyModifiers::none())));
    assert!(!play.matches(pressed(KeyCode::Modifier(ModifierKeyCode::LeftAlt), KeyModifiers::none())));
    assert_eq!(play.to_string(), "Media(Play)");
    let shift = KeyBinding { code: KeyCode::Modifier(ModifierKeyCode::RightShift), modifiers: KeyModifiers::control() };
    assert_eq!(shift.to_string(), "Ctrl+Modifier(RightShift)");
}

#[test]
fn the_default_keymap_changes_nothing() {
    let keymap = ResolvedKeymap::default();
    assert_eq!(graph_action(&keymap, pressed(KeyCode::Char('x'), KeyModifiers::none())), None);
}
