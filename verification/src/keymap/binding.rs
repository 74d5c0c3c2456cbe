//! One shortcut: its text form and the key events that trigger it.
use vstd::prelude::*;
use vstd::string::*;

use crate::keys::{KeyCode, KeyEvent, KeyEventKind, KeyModifiers, MediaKeyCode, ModifierKeyCode};
use crate::text;

verus! {

/// A key with exactly the modifiers that must be held.
#[derive(Debug, Clone, Copy, PartialEq, Eq, Hash, Structural)]
pub struct KeyBinding {
    pub code: KeyCode,
    pub modifiers: KeyModifiers,
}

/// Whether two keys are the same up to the case of a letter.
pub open spec fn same_key(a: KeyCode, b: KeyCode) -> bool {
    match (a, b) {
        (KeyCode::Char(x), KeyCode::Char(y)) => text::lower_char(x) == text::lower_char(y),
        _ => a == b,
    }
}

impl KeyBinding {
    /// Whether an event triggers the binding: the key goes down or is held,
    /// Shift, Control and Alt are as the binding says, and the key is the same.
    pub open spec fn fires(self, event: KeyEvent) -> bool {
        &&& event.kind != KeyEventKind::Release
        &&& self.modifiers == KeyModifiers::of(
            event.modifiers.shift,
            event.modifiers.control,
            event.modifiers.alt,
        )
        &&& same_key(self.code, event.code)
    }

    /// Whether an event triggers the binding.
    pub fn matches(self, event: KeyEvent) -> (yes: bool)
        ensures
            yes == self.fires(event),
    {
        if event.kind == KeyEventKind::Release {
            return false;
        }
        let held = KeyModifiers {
            shift: event.modifiers.shift,
            control: event.modifiers.control,
            alt: event.modifiers.alt,
            other: false,
        };
        if self.modifiers != held {
            return false;
        }
        match (self.code, event.code) {
            (KeyCode::Char(expected), KeyCode::Char(actual)) => text::to_lower_char(expected)
                == text::to_lower_char(actual),
            (expected, actual) => expected == actual,
        }
    }
}

/// The modifiers a binding can name.
#[derive(Debug, Clone, Copy, PartialEq, Eq, Structural)]
pub enum Modifier {
    Control,
    Alt,
    Shift,
}

/// The modifier that a part of a binding names, in any letter case.
pub open spec fn modifier_named(part: Seq<char>) -> Option<Modifier> {
    let l = text::lower(part);
    if l == "ctrl"@ || l == "control"@ {
        Some(Modifier::Control)
    } else if l == "alt"@ {
        Some(Modifier::Alt)
    } else if l == "shift"@ {
        Some(Modifier::Shift)
    } else {
        None
    }
}

/// Whether a modifier is among those held.
pub open spec fn holds(m: KeyModifiers, which: Modifier) -> bool {
    match which {
        Modifier::Control => m.control,
        Modifier::Alt => m.alt,
        Modifier::Shift => m.shift,
    }
}

/// The modifiers with one more held.
pub open spec fn with_modifier(m: KeyModifiers, which: Modifier) -> KeyModifiers {
    match which {
        Modifier::Control => KeyModifiers { shift: m.shift, control: true, alt: m.alt, other: m.other },
        Modifier::Alt => KeyModifiers { shift: m.shift, control: m.control, alt: true, other: m.other },
        Modifier::Shift => KeyModifiers { shift: true, control: m.control, alt: m.alt, other: m.other },
    }
}

/// The key with a fixed lower-case name.
pub open spec fn special_key(name: Seq<char>) -> Option<KeyCode> {
    if name == "enter"@ || name == "return"@ {
        Some(KeyCode::Enter)
    } else if name == "esc"@ || name == "escape"@ {
        Some(KeyCode::Esc)
    } else if name == "tab"@ {
        Some(KeyCode::Tab)
    } else if name == "backtab"@ {
        Some(KeyCode::BackTab)
    } else if name == "backspace"@ {
        Some(KeyCode::Backspace)
    } else if name == "delete"@ || name == "del"@ {
        Some(KeyCode::Delete)
    } else if name == "insert"@ || name == "ins"@ {
        Some(KeyCode::Insert)
    } else if name == "up"@ {
        Some(KeyCode::Up)
    } else if name == "down"@ {
        Some(KeyCode::Down)
    } else if name == "left"@ {
        Some(KeyCode::Left)
    } else if name == "right"@ {
        Some(KeyCode::Right)
    } else if name == "home"@ {
        Some(KeyCode::Home)
    } else if name == "end"@ {
        Some(KeyCode::End)
    } else if name == "pageup"@ || name == "pgup"@ {
        Some(KeyCode::PageUp)
    } else if name == "pagedown"@ || name == "pgdn"@ {
        Some(KeyCode::PageDown)
    } else if name == "space"@ {
        Some(KeyCode::Char(' '))
    } else {
        None
    }
}

/// The number below two hundred and fifty-six that a text spells in decimal.
pub open spec fn small_number(s: Seq<char>) -> Option<nat> {
    if s.len() > 0 && (forall|i: int| 0 <= i < s.len() ==> text::is_digit(#[trigger] s[i])) && text::digits_value(s) <= 255 {
        Some(text::digits_value(s))
    } else {
        None
    }
}

/// The message for a key that does not exist.
pub open spec fn unknown_key(source: Seq<char>) -> Seq<char> {
    "unknown key '"@ + source + "'"@
}

/// The key that a part of a binding names, or why it names none.
pub open spec fn key_named(source: Seq<char>) -> Result<KeyCode, Seq<char>> {
    let l = text::lower(source);
    match special_key(l) {
        Some(code) => Ok(code),
        None => if l.len() > 1 && l[0] == 'f' {
            match small_number(l.skip(1)) {
                None => Err(unknown_key(source)),
                Some(n) => if 1 <= n <= 24 {
                    Ok(KeyCode::F(n as u8))
                } else {
                    Err("function keys must be between F1 and F24"@)
                },
            }
        } else if source.len() == 1 {
            Ok(KeyCode::Char(source[0]))
        } else {
            Err(unknown_key(source))
        },
    }
}

/// A letter in upper case; any other character as it is.
pub open spec fn upper_char(c: char) -> char {
    if 'a' <= c && c <= 'z' {
        ((c as int) - 32) as char
    } else {
        c
    }
}

/// The key that is sent while the modifiers are held: a letter arrives in
/// upper case under Shift.
pub open spec fn shifted(code: KeyCode, m: KeyModifiers) -> KeyCode {
    match code {
        KeyCode::Char(c) => if m.shift {
            KeyCode::Char(upper_char(c))
        } else {
            code
        },
        _ => code,
    }
}

/// Reads the parts of a binding from left to right, after some modifiers and
/// perhaps a key.
pub open spec fn read_parts(parts: Seq<Seq<char>>, m: KeyModifiers, base: Option<KeyCode>) -> Result<
    KeyBinding,
    Seq<char>,
>
    decreases parts.len(),
{
    if parts.len() == 0 {
        match base {
            None => Err("binding has modifiers but no key"@),
            Some(code) => Ok(KeyBinding { code: shifted(code, m), modifiers: m }),
        }
    } else {
        let part = parts[0];
        match modifier_named(part) {
            Some(which) => if base is Some {
                Err("modifier '"@ + part + "' appears after the key"@)
            } else if holds(m, which) {
                Err("modifier '"@ + part + "' is repeated"@)
            } else {
                read_parts(parts.skip(1), with_modifier(m, which), base)
            },
            None => if base is Some {
                Err("a binding must contain exactly one key"@)
            } else {
                match key_named(part) {
                    Err(reason) => Err(reason),
                    Ok(code) => read_parts(parts.skip(1), m, Some(code)),
                }
            },
        }
    }
}

/// What a text says as a binding, or why it is none.
pub open spec fn parsed(source: Seq<char>) -> Result<KeyBinding, Seq<char>> {
    let s = text::trim(source);
    let parts = text::split(s, '+');
    if s.len() == 0 {
        Err("binding is empty"@)
    } else if exists|i: int| 0 <= i < s.len() && text::is_space(#[trigger] s[i]) {
        Err("multi-key sequences are not supported"@)
    } else if exists|i: int| 0 <= i < parts.len() && (#[trigger] parts[i]).len() == 0 {
        Err("binding contains an empty modifier or key"@)
    } else {
        read_parts(parts, KeyModifiers::plain(), None)
    }
}

fn upper(c: char) -> (u: char)
    ensures
        u == upper_char(c),
{
    if 'a' <= c && c <= 'z' {
        ((c as u8) - 32) as char
    } else {
        c
    }
}

fn modifier_of(lower: &str) -> (m: Option<Modifier>)
    ensures
        forall|part: Seq<char>| text::lower(part) == lower@ ==> m == #[trigger] modifier_named(part),
{
    if text::same_text(lower, "ctrl") || text::same_text(lower, "control") {
        Some(Modifier::Control)
    } else if text::same_text(lower, "alt") {
        Some(Modifier::Alt)
    } else if text::same_text(lower, "shift") {
        Some(Modifier::Shift)
    } else {
        None
    }
}

fn special(name: &str) -> (code: Option<KeyCode>)
    ensures
        code == special_key(name@),
{
    if text::same_text(name, "enter") || text::same_text(name, "return") {
        Some(KeyCode::Enter)
    } else if text::same_text(name, "esc") || text::same_text(name, "escape") {
        Some(KeyCode::Esc)
    } else if text::same_text(name, "tab") {
        Some(KeyCode::Tab)
    } else if text::same_text(name, "backtab") {
        Some(KeyCode::BackTab)
    } else if text::same_text(name, "backspace") {
        Some(KeyCode::Backspace)
    } else if text::same_text(name, "delete") || text::same_text(name, "del") {
        Some(KeyCode::Delete)
    } else if text::same_text(name, "insert") || text::same_text(name, "ins") {
        Some(KeyCode::Insert)
    } else if text::same_text(name, "up") {
        Some(KeyCode::Up)
    } else if text::same_text(name, "down") {
        Some(KeyCode::Down)
    } else if text::same_text(name, "left") {
        Some(KeyCode::Left)
    } else if text::same_text(name, "right") {
        Some(KeyCode::Right)
    } else if text::same_text(name, "home") {
        Some(KeyCode::Home)
    } else if text::same_text(name, "end") {
        Some(KeyCode::End)
    } else if text::same_text(name, "pageup") || text::same_text(name, "pgup") {
        Some(KeyCode::PageUp)
    } else if text::same_text(name, "pagedown") || text::same_text(name, "pgdn") {
        Some(KeyCode::PageDown)
    } else if text::same_text(name, "space") {
        Some(KeyCode::Char(' '))
    } else {
        None
    }
}

/// The number that the characters from `from` on spell.
fn number_from(chars: &[char], from: usize) -> (n: Option<u8>)
    requires
        from < chars.len(),
    ensures
        match small_number(chars@.skip(from as int)) {
            Some(v) => n == Some(v as u8),
            None => n is None,
        },
{
    let ghost s = chars@.skip(from as int);
    let mut i: usize = from;
    let mut n: u32 = 0;
    while i < chars.len()
        invariant
            from <= i <= chars.len(),
            s == chars@.skip(from as int),
            forall|k: int| 0 <= k < i - from ==> text::is_digit(#[trigger] s[k]),
            n <= 256,
            n <= 255 ==> n == text::digits_value(s.take(i - from)),
            n == 256 ==> text::digits_value(s.take(i - from)) > 255,
        decreases chars.len() - i,
    {
        let c = chars[i];
        assert(s[i - from] == c);
        if !('0' <= c && c <= '9') {
            return None;
        }
        let d: u32 = (c as u32) - ('0' as u32);
        assert(s.take(i + 1 - from).drop_last() =~= s.take(i - from));
        if n < 256 {
            n = n * 10 + d;
            if n > 256 {
                n = 256;
            }
        }
        i = i + 1;
    }
    assert(s.take(i - from) =~= s);
    if n > 255 {
        return None;
    }
    Some(n as u8)
}

fn quoted(before: &str, source: &str, after: &str) -> (s: String)
    ensures
        s@ == before@ + source@ + after@,
{
    let mut s = before.to_owned();
    s.append(source);
    s.append(after);
    s
}

/// A parse result with its message as characters.
pub open spec fn outcome<T>(r: Result<T, String>) -> Result<T, Seq<char>> {
    match r {
        Ok(v) => Ok(v),
        Err(e) => Err(e@),
    }
}

fn parse_key(source: &str) -> (r: Result<KeyCode, String>)
    ensures
        outcome(r) == key_named(source@),
{
    let chars = text::chars_of(source);
    let lower = text::lower_chars(chars.as_slice());
    let name = text::text_of(lower.as_slice());
    if let Some(code) = special(name.as_str()) {
        return Ok(code);
    }
    if lower.len() > 1 && lower[0] == 'f' {
        return match number_from(lower.as_slice(), 1) {
            None => Err(quoted("unknown key '", source, "'")),
            Some(n) => if 1 <= n && n <= 24 {
                Ok(KeyCode::F(n))
            } else {
                Err("function keys must be between F1 and F24".to_owned())
            },
        };
    }
    if chars.len() == 1 {
        Ok(KeyCode::Char(chars[0]))
    } else {
        Err(quoted("unknown key '", source, "'"))
    }
}

fn any_space(s: &[char]) -> (yes: bool)
    ensures
        yes == exists|i: int| 0 <= i < s.len() && text::is_space(#[trigger] s@[i]),
{
    let mut i: usize = 0;
    while i < s.len()
        invariant
            0 <= i <= s.len(),
            forall|k: int| 0 <= k < i ==> !text::is_space(#[trigger] s@[k]),
        decreases s.len() - i,
    {
        if text::is_space_char(s[i]) {
            return true;
        }
        i = i + 1;
    }
    false
}

fn any_empty(parts: &Vec<Vec<char>>) -> (yes: bool)
    ensures
        yes == exists|i: int| 0 <= i < parts.len() && (#[trigger] text::char_lists(parts@)[i]).len() == 0,
{
    let mut i: usize = 0;
    while i < parts.len()
        invariant
            0 <= i <= parts.len(),
            forall|k: int| 0 <= k < i ==> (#[trigger] text::char_lists(parts@)[k]).len() != 0,
        decreases parts.len() - i,
    {
        if parts[i].len() == 0 {
            assert(text::char_lists(parts@)[i as int].len() == 0);
            return true;
        }
        i = i + 1;
    }
    false
}

impl KeyBinding {
    /// Reads a binding such as `Ctrl+Shift+F`: modifiers in any order and
    /// letter case, then exactly one key.
    pub fn from_str(source: &str) -> (r: Result<KeyBinding, String>)
        ensures
            outcome(r) == parsed(source@),
    {
        let s = text::trimmed(text::chars_of(source).as_slice());
        if s.len() == 0 {
            return Err("binding is empty".to_owned());
        }
        if any_space(s.as_slice()) {
            return Err("multi-key sequences are not supported".to_owned());
        }
        let parts = text::split_chars(s.as_slice(), '+');
        if any_empty(&parts) {
            return Err("binding contains an empty modifier or key".to_owned());
        }
        let ghost all = text::char_lists(parts@);
        let mut modifiers = KeyModifiers::none();
        let mut base: Option<KeyCode> = None;
        let mut i: usize = 0;
        assert(all.skip(0) =~= all);
        while i < parts.len()
            invariant
                0 <= i <= parts.len(),
                all == text::char_lists(parts@),
                parsed(source@) == read_parts(all.skip(i as int), modifiers, base),
            decreases parts.len() - i,
        {
            let part = text::text_of(parts[i].as_slice());
            let lower_chars = text::lower_chars(parts[i].as_slice());
            let lower = text::text_of(lower_chars.as_slice());
            assert(all.skip(i as int)[0] == part@);
            assert(all.skip(i as int).skip(1) =~= all.skip(i + 1));
            assert(modifier_named(part@) == modifier_named(all.skip(i as int)[0]));
            match modifier_of(lower.as_str()) {
                Some(which) => {
                    if base.is_some() {
                        return Err(quoted("modifier '", part.as_str(), "' appears after the key"));
                    }
                    let repeated = match which {
                        Modifier::Control => modifiers.control,
                        Modifier::Alt => modifiers.alt,
                        Modifier::Shift => modifiers.shift,
                    };
                    if repeated {
                        return Err(quoted("modifier '", part.as_str(), "' is repeated"));
                    }
                    match which {
                        Modifier::Control => modifiers.control = true,
                        Modifier::Alt => modifiers.alt = true,
                        Modifier::Shift => modifiers.shift = true,
                    }
                },
                None => {
                    if base.is_some() {
                        return Err("a binding must contain exactly one key".to_owned());
                    }
                    match parse_key(part.as_str()) {
                        Err(reason) => {
                            return Err(reason);
                        },
                        Ok(code) => {
                            base = Some(code);
                        },
                    }
                },
            }
            i = i + 1;
        }
        match base {
            None => Err("binding has modifiers but no key".to_owned()),
            Some(code) => {
                let code = match code {
                    KeyCode::Char(c) => if modifiers.shift {
                        KeyCode::Char(upper(c))
                    } else {
                        code
                    },
                    _ => code,
                };
                Ok(KeyBinding { code, modifiers })
            },
        }
    }
}

/// The name of a media key.
pub open spec fn media_name(key: MediaKeyCode) -> Seq<char> {
    match key {
        MediaKeyCode::Play => "Play"@,
        MediaKeyCode::Pause => "Pause"@,
        MediaKeyCode::PlayPause => "PlayPause"@,
        MediaKeyCode::Reverse => "Reverse"@,
        MediaKeyCode::Stop => "Stop"@,
        MediaKeyCode::FastForward => "FastForward"@,
        MediaKeyCode::Rewind => "Rewind"@,
        MediaKeyCode::TrackNext => "TrackNext"@,
        MediaKeyCode::TrackPrevious => "TrackPrevious"@,
        MediaKeyCode::Record => "Record"@,
        MediaKeyCode::LowerVolume => "LowerVolume"@,
        MediaKeyCode::RaiseVolume => "RaiseVolume"@,
        MediaKeyCode::MuteVolume => "MuteVolume"@,
    }
}

fn media_text(key: MediaKeyCode) -> (s: &'static str)
    ensures
        s@ == media_name(key),
{
    match key {
        MediaKeyCode::Play => "Play",
        MediaKeyCode::Pause => "Pause",
        MediaKeyCode::PlayPause => "PlayPause",
        MediaKeyCode::Reverse => "Reverse",
        MediaKeyCode::Stop => "Stop",
        MediaKeyCode::FastForward => "FastForward",
        MediaKeyCode::Rewind => "Rewind",
        MediaKeyCode::TrackNext => "TrackNext",
        MediaKeyCode::TrackPrevious => "TrackPrevious",
        MediaKeyCode::Record => "Record",
        MediaKeyCode::LowerVolume => "LowerVolume",
        MediaKeyCode::RaiseVolume => "RaiseVolume",
        MediaKeyCode::MuteVolume => "MuteVolume",
    }
}

/// The name of a modifier pressed as a key of its own.
pub open spec fn modifier_key_name(key: ModifierKeyCode) -> Seq<char> {
    match key {
        ModifierKeyCode::LeftShift => "LeftShift"@,
        ModifierKeyCode::LeftControl => "LeftControl"@,
        ModifierKeyCode::LeftAlt => "LeftAlt"@,
        ModifierKeyCode::LeftSuper => "LeftSuper"@,
        ModifierKeyCode::LeftHyper => "LeftHyper"@,
        ModifierKeyCode::LeftMeta => "LeftMeta"@,
        ModifierKeyCode::RightShift => "RightShift"@,
        ModifierKeyCode::RightControl => "RightControl"@,
        ModifierKeyCode::RightAlt => "RightAlt"@,
        ModifierKeyCode::RightSuper => "RightSuper"@,
        ModifierKeyCode::RightHyper => "RightHyper"@,
        ModifierKeyCode::RightMeta => "RightMeta"@,
        ModifierKeyCode::IsoLevel3Shift => "IsoLevel3Shift"@,
        ModifierKeyCode::IsoLevel5Shift => "IsoLevel5Shift"@,
    }
}

fn modifier_key_text(key: ModifierKeyCode) -> (s: &'static str)
    ensures
        s@ == modifier_key_name(key),
{
    match key {
        ModifierKeyCode::LeftShift => "LeftShift",
        ModifierKeyCode::LeftControl => "LeftControl",
        ModifierKeyCode::LeftAlt => "LeftAlt",
        ModifierKeyCode::LeftSuper => "LeftSuper",
        ModifierKeyCode::LeftHyper => "LeftHyper",
        ModifierKeyCode::LeftMeta => "LeftMeta",
        ModifierKeyCode::RightShift => "RightShift",
        ModifierKeyCode::RightControl => "RightControl",
        ModifierKeyCode::RightAlt => "RightAlt",
        ModifierKeyCode::RightSuper => "RightSuper",
        ModifierKeyCode::RightHyper => "RightHyper",
        ModifierKeyCode::RightMeta => "RightMeta",
        ModifierKeyCode::IsoLevel3Shift => "IsoLevel3Shift",
        ModifierKeyCode::IsoLevel5Shift => "IsoLevel5Shift",
    }
}

/// The name of a key in shortcut hints.
pub open spec fn key_name(code: KeyCode) -> Seq<char> {
    match code {
        KeyCode::Enter => "Enter"@,
        KeyCode::Esc => "Esc"@,
        KeyCode::Tab => "Tab"@,
        KeyCode::BackTab => "BackTab"@,
        KeyCode::Backspace => "Backspace"@,
        KeyCode::Delete => "Delete"@,
        KeyCode::Insert => "Insert"@,
        KeyCode::Up => "Up"@,
        KeyCode::Down => "Down"@,
        KeyCode::Left => "Left"@,
        KeyCode::Right => "Right"@,
        KeyCode::Home => "Home"@,
        KeyCode::End => "End"@,
        KeyCode::PageUp => "PageUp"@,
        KeyCode::PageDown => "PageDown"@,
        KeyCode::F(n) => "F"@ + text::decimal(n as nat),
        KeyCode::Char(c) => if c == ' ' {
            "Space"@
        } else {
            seq![upper_char(c)]
        },
        KeyCode::Null => "Null"@,
        KeyCode::CapsLock => "CapsLock"@,
        KeyCode::ScrollLock => "ScrollLock"@,
        KeyCode::NumLock => "NumLock"@,
        KeyCode::PrintScreen => "PrintScreen"@,
        KeyCode::Pause => "Pause"@,
        KeyCode::Menu => "Menu"@,
        KeyCode::KeypadBegin => "KeypadBegin"@,
        KeyCode::Media(m) => "Media("@ + media_name(m) + ")"@,
        KeyCode::Modifier(m) => "Modifier("@ + modifier_key_name(m) + ")"@,
    }
}

fn name_of(code: KeyCode) -> (s: String)
    ensures
        s@ == key_name(code),
{
    match code {
        KeyCode::Enter => "Enter".to_owned(),
        KeyCode::Esc => "Esc".to_owned(),
        KeyCode::Tab => "Tab".to_owned(),
        KeyCode::BackTab => "BackTab".to_owned(),
        KeyCode::Backspace => "Backspace".to_owned(),
        KeyCode::Delete => "Delete".to_owned(),
        KeyCode::Insert => "Insert".to_owned(),
        KeyCode::Up => "Up".to_owned(),
        KeyCode::Down => "Down".to_owned(),
        KeyCode::Left => "Left".to_owned(),
        KeyCode::Right => "Right".to_owned(),
        KeyCode::Home => "Home".to_owned(),
        KeyCode::End => "End".to_owned(),
        KeyCode::PageUp => "PageUp".to_owned(),
        KeyCode::PageDown => "PageDown".to_owned(),
        KeyCode::F(n) => {
            let mut s = "F".to_owned();
            text::push_decimal(&mut s, n as u64);
            s
        },
        KeyCode::Char(c) => {
            if c == ' ' {
                "Space".to_owned()
            } else {
                let mut s = String::new();
                s.push(upper(c));
                s
            }
        },
        KeyCode::Null => "Null".to_owned(),
        KeyCode::CapsLock => "CapsLock".to_owned(),
        KeyCode::ScrollLock => "ScrollLock".to_owned(),
        KeyCode::NumLock => "NumLock".to_owned(),
        KeyCode::PrintScreen => "PrintScreen".to_owned(),
        KeyCode::Pause => "Pause".to_owned(),
        KeyCode::Menu => "Menu".to_owned(),
        KeyCode::KeypadBegin => "KeypadBegin".to_owned(),
        KeyCode::Media(m) => {
            let mut s = "Media(".to_owned();
            s.append(media_text(m));
            s.append(")");
            s
        },
        KeyCode::Modifier(m) => {
            let mut s = "Modifier(".to_owned();
            s.append(modifier_key_text(m));
            s.append(")");
            s
        },
    }
}

impl KeyBinding {
    /// The binding as shown to the user: the modifiers, then the key.
    pub open spec fn shown(self) -> Seq<char> {
        let control = if self.modifiers.control { "Ctrl+"@ } else { Seq::empty() };
        let alt = if self.modifiers.alt { "Alt+"@ } else { Seq::empty() };
        let shift = if self.modifiers.shift { "Shift+"@ } else { Seq::empty() };
        control + alt + shift + key_name(self.code)
    }

    /// The binding as shown to the user.
    pub fn to_string(&self) -> (s: String)
        ensures
            s@ == self.shown(),
    {
        let mut s = String::new();
        if self.modifiers.control {
            s.append("Ctrl+");
        }
        if self.modifiers.alt {
            s.append("Alt+");
        }
        if self.modifiers.shift {
            s.append("Shift+");
        }
        s.append(name_of(self.code).as_str());
        assert(s@ =~= self.shown());
        s
    }
}

} // verus!
