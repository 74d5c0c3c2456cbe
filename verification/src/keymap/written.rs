//! Bindings in their written form.
use vstd::prelude::*;

use crate::keymap::binding;
use crate::keymap::binding::{KeyBinding, Modifier};
use crate::keys::{KeyCode, KeyEvent, KeyModifiers};
use crate::text;

verus! {

/// A character that can stand in the name of a key or of a modifier.
pub open spec fn plain(c: char) -> bool {
    !text::is_space(c) && c != '+'
}

/// A word made of such characters.
pub open spec fn is_word(s: Seq<char>) -> bool {
    s.len() > 0 && forall|i: int| 0 <= i < s.len() ==> plain(#[trigger] s[i])
}

/// A key that a binding can be written with.
pub open spec fn writable(code: KeyCode) -> bool {
    match code {
        KeyCode::F(n) => 1 <= n <= 24,
        KeyCode::Char(c) => c == ' ' || plain(c),
        KeyCode::Null
        | KeyCode::CapsLock
        | KeyCode::ScrollLock
        | KeyCode::NumLock
        | KeyCode::PrintScreen
        | KeyCode::Pause
        | KeyCode::Menu
        | KeyCode::KeypadBegin
        | KeyCode::Media(_)
        | KeyCode::Modifier(_) => false,
        _ => true,
    }
}

/// A text consists of these words, with a plus sign between each two.
pub open spec fn consists(s: Seq<char>, words: Seq<Seq<char>>) -> bool {
    &&& s.len() > 0
    &&& forall|i: int| 0 <= i < s.len() ==> !text::is_space(#[trigger] s[i])
    &&& text::split(s, '+') == words
    &&& forall|i: int| 0 <= i < words.len() ==> (#[trigger] words[i]).len() > 0
}

proof fn lemma_split_some(s: Seq<char>, c: char)
    ensures
        text::split(s, c).len() > 0,
    decreases s.len(),
{
    if s.len() > 0 {
        lemma_split_some(s.drop_last(), c);
    }
}

proof fn lemma_split_plain(s: Seq<char>, c: char)
    requires
        forall|i: int| 0 <= i < s.len() ==> s[i] != c,
    ensures
        text::split(s, c) == seq![s],
    decreases s.len(),
{
    if s.len() > 0 {
        lemma_split_plain(s.drop_last(), c);
        assert(s.drop_last().push(s.last()) =~= s);
        assert(text::split(s, c) =~= seq![s]);
    } else {
        assert(s =~= Seq::empty());
    }
}

proof fn lemma_split_joined(a: Seq<char>, b: Seq<char>, c: char)
    ensures
        text::split(a.push(c) + b, c) == text::split(a, c) + text::split(b, c),
    decreases b.len(),
{
    let s = a.push(c) + b;
    if b.len() == 0 {
        assert(s.drop_last() =~= a);
        assert(text::split(s, c) =~= text::split(a, c) + text::split(b, c));
    } else {
        let front = b.drop_last();
        lemma_split_joined(a, front, c);
        lemma_split_some(front, c);
        assert(s.drop_last() =~= a.push(c) + front);
        assert(text::split(s, c) =~= text::split(a, c) + text::split(b, c));
    }
}

/// The parts hold only characters of the text, and not the one between them.
proof fn lemma_split_parts(s: Seq<char>)
    requires
        forall|i: int| 0 <= i < s.len() ==> !text::is_space(#[trigger] s[i]),
    ensures
        forall|k: int, i: int|
            0 <= k < text::split(s, '+').len() && 0 <= i < text::split(s, '+')[k].len() ==> plain(
                #[trigger] text::split(s, '+')[k][i],
            ),
    decreases s.len(),
{
    if s.len() > 0 {
        let front = s.drop_last();
        assert forall|i: int| 0 <= i < front.len() implies !text::is_space(#[trigger] front[i]) by {
            assert(front[i] == s[i]);
        }
        lemma_split_parts(front);
        lemma_split_some(front, '+');
        let rest = text::split(front, '+');
        let parts = text::split(s, '+');
        assert(!text::is_space(s[s.len() - 1]));
        assert forall|k: int, i: int| 0 <= k < parts.len() && 0 <= i < parts[k].len() implies plain(
            #[trigger] parts[k][i],
        ) by {
            if k < rest.len() && i < rest[k].len() {
                assert(plain(rest[k][i]));
            }
        }
    }
}

/// A text without white space is left as it is.
proof fn lemma_trim_nothing(s: Seq<char>)
    requires
        forall|i: int| 0 <= i < s.len() ==> !text::is_space(#[trigger] s[i]),
    ensures
        text::trim(s) == s,
{
    if s.len() > 0 {
        assert(!text::is_space(s[0]));
        assert(!text::is_space(s[s.len() - 1]));
    }
}

proof fn lemma_word_consists(word: Seq<char>)
    requires
        is_word(word),
    ensures
        consists(word, seq![word]),
{
    assert forall|i: int| 0 <= i < word.len() implies word[i] != '+' by {
        assert(plain(word[i]));
    }
    lemma_split_plain(word, '+');
}

proof fn lemma_word_before(word: Seq<char>, rest: Seq<char>, words: Seq<Seq<char>>)
    requires
        is_word(word),
        consists(rest, words),
    ensures
        consists(word.push('+') + rest, seq![word] + words),
{
    let s = word.push('+') + rest;
    lemma_word_consists(word);
    lemma_split_joined(word, rest, '+');
    assert forall|i: int| 0 <= i < s.len() implies !text::is_space(#[trigger] s[i]) by {
        if i < word.len() {
            assert(plain(word[i]));
        } else if i > word.len() {
            assert(!text::is_space(rest[i - word.len() - 1]));
        }
    }
}

/// The fixed names of keys and modifiers, letter by letter.
proof fn lemma_fixed_names()
    ensures
        "enter"@ == seq!['e', 'n', 't', 'e', 'r'],
        "return"@ == seq!['r', 'e', 't', 'u', 'r', 'n'],
        "esc"@ == seq!['e', 's', 'c'],
        "escape"@ == seq!['e', 's', 'c', 'a', 'p', 'e'],
        "tab"@ == seq!['t', 'a', 'b'],
        "backtab"@ == seq!['b', 'a', 'c', 'k', 't', 'a', 'b'],
        "backspace"@ == seq!['b', 'a', 'c', 'k', 's', 'p', 'a', 'c', 'e'],
        "delete"@ == seq!['d', 'e', 'l', 'e', 't', 'e'],
        "del"@ == seq!['d', 'e', 'l'],
        "insert"@ == seq!['i', 'n', 's', 'e', 'r', 't'],
        "ins"@ == seq!['i', 'n', 's'],
        "up"@ == seq!['u', 'p'],
        "down"@ == seq!['d', 'o', 'w', 'n'],
        "left"@ == seq!['l', 'e', 'f', 't'],
        "right"@ == seq!['r', 'i', 'g', 'h', 't'],
        "home"@ == seq!['h', 'o', 'm', 'e'],
        "end"@ == seq!['e', 'n', 'd'],
        "pageup"@ == seq!['p', 'a', 'g', 'e', 'u', 'p'],
        "pgup"@ == seq!['p', 'g', 'u', 'p'],
        "pagedown"@ == seq!['p', 'a', 'g', 'e', 'd', 'o', 'w', 'n'],
        "pgdn"@ == seq!['p', 'g', 'd', 'n'],
        "space"@ == seq!['s', 'p', 'a', 'c', 'e'],
        "ctrl"@ == seq!['c', 't', 'r', 'l'],
        "control"@ == seq!['c', 'o', 'n', 't', 'r', 'o', 'l'],
        "alt"@ == seq!['a', 'l', 't'],
        "shift"@ == seq!['s', 'h', 'i', 'f', 't'],
{
    reveal_strlit("enter");
    reveal_strlit("return");
    reveal_strlit("esc");
    reveal_strlit("escape");
    reveal_strlit("tab");
    reveal_strlit("backtab");
    reveal_strlit("backspace");
    reveal_strlit("delete");
    reveal_strlit("del");
    reveal_strlit("insert");
    reveal_strlit("ins");
    reveal_strlit("up");
    reveal_strlit("down");
    reveal_strlit("left");
    reveal_strlit("right");
    reveal_strlit("home");
    reveal_strlit("end");
    reveal_strlit("pageup");
    reveal_strlit("pgup");
    reveal_strlit("pagedown");
    reveal_strlit("pgdn");
    reveal_strlit("space");
    reveal_strlit("ctrl");
    reveal_strlit("control");
    reveal_strlit("alt");
    reveal_strlit("shift");
}

/// No modifier and no key has a fixed name of one character or one that starts
/// with an F.
proof fn lemma_other_names(name: Seq<char>)
    requires
        name.len() == 1 || name.len() > 1 && name[0] == 'f',
    ensures
        binding::special_key(name) is None,
        name != "ctrl"@,
        name != "control"@,
        name != "alt"@,
        name != "shift"@,
{
    lemma_fixed_names();
}

/// A key is written as a word that names no modifier, and the word names the key.
proof fn lemma_key_name(code: KeyCode)
    requires
        writable(code),
    ensures
        is_word(binding::key_name(code)),
        binding::modifier_named(binding::key_name(code)) is None,
        binding::key_named(binding::key_name(code)) is Ok,
        match code {
            KeyCode::Char(c) => binding::key_named(binding::key_name(code))->Ok_0 == KeyCode::Char(
                binding::upper_char(c),
            ),
            _ => binding::key_named(binding::key_name(code))->Ok_0 == code,
        },
{
    let name = binding::key_name(code);
    lemma_fixed_names();
    assert("return"@[0] == 'r' && "escape"@[0] == 'e' && "delete"@[0] == 'd' && "insert"@[0] == 'i');
    assert("ctrl"@[0] == 'c' && "control"@[0] == 'c' && "alt"@[0] == 'a' && "shift"@[1] == 'h');
    match code {
        KeyCode::Enter => {
            reveal_strlit("Enter");
            assert(text::lower(name) =~= "enter"@);
        },
        KeyCode::Esc => {
            reveal_strlit("Esc");
            assert(text::lower(name) =~= "esc"@);
        },
        KeyCode::Tab => {
            reveal_strlit("Tab");
            assert(text::lower(name) =~= "tab"@);
        },
        KeyCode::BackTab => {
            reveal_strlit("BackTab");
            assert(text::lower(name) =~= "backtab"@);
        },
        KeyCode::Backspace => {
            reveal_strlit("Backspace");
            assert(text::lower(name) =~= "backspace"@);
        },
        KeyCode::Delete => {
            reveal_strlit("Delete");
            assert(text::lower(name) =~= "delete"@);
        },
        KeyCode::Insert => {
            reveal_strlit("Insert");
            assert(text::lower(name) =~= "insert"@);
        },
        KeyCode::Up => {
            reveal_strlit("Up");
            assert(text::lower(name) =~= "up"@);
        },
        KeyCode::Down => {
            reveal_strlit("Down");
            assert(text::lower(name) =~= "down"@);
        },
        KeyCode::Left => {
            reveal_strlit("Left");
            assert(text::lower(name) =~= "left"@);
        },
        KeyCode::Right => {
            reveal_strlit("Right");
            assert(text::lower(name) =~= "right"@);
        },
        KeyCode::Home => {
            reveal_strlit("Home");
            assert(text::lower(name) =~= "home"@);
        },
        KeyCode::End => {
            reveal_strlit("End");
            assert(text::lower(name) =~= "end"@);
        },
        KeyCode::PageUp => {
            reveal_strlit("PageUp");
            assert(text::lower(name) =~= "pageup"@);
        },
        KeyCode::PageDown => {
            reveal_strlit("PageDown");
            assert(text::lower(name) =~= "pagedown"@);
        },
        KeyCode::F(n) => {
            lemma_function_key(n);
        },
        KeyCode::Char(c) => {
            if c == ' ' {
                reveal_strlit("Space");
                assert(text::lower(name) =~= "space"@);
            } else {
                lemma_other_names(text::lower(name));
            }
        },
        _ => {},
    }
}

proof fn lemma_function_key(n: u8)
    requires
        1 <= n <= 24,
    ensures
        ({
            let name = binding::key_name(KeyCode::F(n));
            &&& is_word(name)
            &&& binding::modifier_named(name) is None
            &&& binding::key_named(name) == Ok::<KeyCode, Seq<char>>(KeyCode::F(n))
        }),
{
    let name = binding::key_name(KeyCode::F(n));
    let l = text::lower(name);
    let digits = text::decimal(n as nat);
    reveal_strlit("F");
    reveal_with_fuel(text::decimal, 2);
    reveal_with_fuel(text::digits_value, 3);
    assert(l.skip(1) =~= digits);
    assert(l[0] == 'f');
    lemma_other_names(l);
    if n < 10 {
        assert(digits.drop_last() =~= Seq::empty());
    } else {
        assert(digits.drop_last().drop_last() =~= Seq::empty());
    }
    assert(text::digits_value(digits) == n);
}

/// The name of a modifier as it is written.
pub open spec fn modifier_name(which: Modifier) -> Seq<char> {
    match which {
        Modifier::Control => "Ctrl"@,
        Modifier::Alt => "Alt"@,
        Modifier::Shift => "Shift"@,
    }
}

proof fn lemma_modifier_name(which: Modifier)
    ensures
        is_word(modifier_name(which)),
        binding::modifier_named(modifier_name(which)) == Some(which),
        modifier_name(Modifier::Control).push('+') == "Ctrl+"@,
        modifier_name(Modifier::Alt).push('+') == "Alt+"@,
        modifier_name(Modifier::Shift).push('+') == "Shift+"@,
{
    reveal_strlit("Ctrl");
    reveal_strlit("Alt");
    reveal_strlit("Shift");
    reveal_strlit("ctrl");
    reveal_strlit("control");
    reveal_strlit("alt");
    reveal_strlit("shift");
    reveal_strlit("Ctrl+");
    reveal_strlit("Alt+");
    reveal_strlit("Shift+");
    assert("Ctrl"@.push('+') =~= "Ctrl+"@);
    assert("Alt"@.push('+') =~= "Alt+"@);
    assert("Shift"@.push('+') =~= "Shift+"@);
    assert(text::lower("Ctrl"@) =~= "ctrl"@);
    assert(text::lower("Alt"@) =~= "alt"@);
    assert(text::lower("Shift"@) =~= "shift"@);
}

/// A modifier in front of words that read as a binding.
proof fn lemma_modifier_before(
    which: Modifier,
    rest: Seq<char>,
    words: Seq<Seq<char>>,
    m: KeyModifiers,
)
    requires
        consists(rest, words),
        !binding::holds(m, which),
    ensures
        consists(modifier_name(which).push('+') + rest, seq![modifier_name(which)] + words),
        binding::read_parts(seq![modifier_name(which)] + words, m, None) == binding::read_parts(
            words,
            binding::with_modifier(m, which),
            None,
        ),
{
    lemma_modifier_name(which);
    lemma_word_before(modifier_name(which), rest, words);
    assert((seq![modifier_name(which)] + words).skip(1) =~= words);
}

/// A key alone reads as the binding with the modifiers before it.
proof fn lemma_key_alone(code: KeyCode, m: KeyModifiers)
    requires
        writable(code),
    ensures
        consists(binding::key_name(code), seq![binding::key_name(code)]),
        binding::read_parts(seq![binding::key_name(code)], m, None) matches Ok(b) && b.modifiers == m
            && (match code {
            KeyCode::Char(c) => b.code == KeyCode::Char(binding::upper_char(c)),
            _ => b.code == code,
        }),
{
    let name = binding::key_name(code);
    lemma_key_name(code);
    lemma_word_consists(name);
    assert(seq![name].skip(1) =~= Seq::empty());
    reveal_with_fuel(binding::read_parts, 2);
}

/// What reads as a binding can be written.
proof fn lemma_parts_writable(words: Seq<Seq<char>>, m: KeyModifiers, base: Option<KeyCode>)
    requires
        forall|k: int, i: int|
            0 <= k < words.len() && 0 <= i < words[k].len() ==> plain(#[trigger] words[k][i]),
        base matches Some(code) ==> writable(code),
        !m.other,
        binding::read_parts(words, m, base) is Ok,
    ensures
        writable(binding::read_parts(words, m, base)->Ok_0.code),
        !binding::read_parts(words, m, base)->Ok_0.modifiers.other,
    decreases words.len(),
{
    if words.len() > 0 {
        let rest = words.skip(1);
        assert forall|k: int, i: int| 0 <= k < rest.len() && 0 <= i < rest[k].len() implies plain(
            #[trigger] rest[k][i],
        ) by {
            assert(plain(words[k + 1][i]));
        }
        match binding::modifier_named(words[0]) {
            Some(which) => {
                lemma_parts_writable(rest, binding::with_modifier(m, which), base);
            },
            None => {
                let code = binding::key_named(words[0])->Ok_0;
                if words[0].len() == 1 {
                    assert(plain(words[0][0]));
                }
                lemma_parts_writable(rest, m, Some(code));
            },
        }
    }
}

/// The text of a binding reads back as a binding that the same events trigger.
pub proof fn law_shown_bindings_read_back(source: Seq<char>, event: KeyEvent)
    requires
        binding::parsed(source) is Ok,
    ensures
        binding::parsed(binding::parsed(source)->Ok_0.shown()) matches Ok(b) && b.fires(event)
            == binding::parsed(source)->Ok_0.fires(event),
{
    let b = binding::parsed(source)->Ok_0;
    let m = b.modifiers;
    lemma_split_parts(text::trim(source));
    lemma_parts_writable(text::split(text::trim(source), '+'), KeyModifiers::plain(), None);

    let none = KeyModifiers::plain();
    let with_control = if m.control { binding::with_modifier(none, Modifier::Control) } else { none };
    let with_alt = if m.alt { binding::with_modifier(with_control, Modifier::Alt) } else { with_control };
    let name = binding::key_name(b.code);
    let words = seq![name];
    lemma_key_alone(b.code, m);
    lemma_modifier_name(Modifier::Control);
    let (text_shift, words_shift) = if m.shift {
        ("Shift+"@ + name, seq![modifier_name(Modifier::Shift)] + words)
    } else {
        (name, words)
    };
    if m.shift {
        lemma_modifier_before(Modifier::Shift, name, words, with_alt);
    }
    let (text_alt, words_alt) = if m.alt {
        ("Alt+"@ + text_shift, seq![modifier_name(Modifier::Alt)] + words_shift)
    } else {
        (text_shift, words_shift)
    };
    if m.alt {
        lemma_modifier_before(Modifier::Alt, text_shift, words_shift, with_control);
    }
    let (shown, all) = if m.control {
        ("Ctrl+"@ + text_alt, seq![modifier_name(Modifier::Control)] + words_alt)
    } else {
        (text_alt, words_alt)
    };
    if m.control {
        lemma_modifier_before(Modifier::Control, text_alt, words_alt, none);
    }
    assert(b.shown() =~= shown);
    lemma_trim_nothing(shown);
    assert(binding::parsed(shown) == binding::read_parts(all, none, None));
}

/// The keys and modifiers that have names, under every one of them.
pub proof fn law_keys_by_name()
    ensures
        binding::special_key("enter"@) == Some(KeyCode::Enter),
        binding::special_key("return"@) == Some(KeyCode::Enter),
        binding::special_key("esc"@) == Some(KeyCode::Esc),
        binding::special_key("escape"@) == Some(KeyCode::Esc),
        binding::special_key("tab"@) == Some(KeyCode::Tab),
        binding::special_key("backtab"@) == Some(KeyCode::BackTab),
        binding::special_key("backspace"@) == Some(KeyCode::Backspace),
        binding::special_key("delete"@) == Some(KeyCode::Delete),
        binding::special_key("del"@) == Some(KeyCode::Delete),
        binding::special_key("insert"@) == Some(KeyCode::Insert),
        binding::special_key("ins"@) == Some(KeyCode::Insert),
        binding::special_key("up"@) == Some(KeyCode::Up),
        binding::special_key("down"@) == Some(KeyCode::Down),
        binding::special_key("left"@) == Some(KeyCode::Left),
        binding::special_key("right"@) == Some(KeyCode::Right),
        binding::special_key("home"@) == Some(KeyCode::Home),
        binding::special_key("end"@) == Some(KeyCode::End),
        binding::special_key("pageup"@) == Some(KeyCode::PageUp),
        binding::special_key("pgup"@) == Some(KeyCode::PageUp),
        binding::special_key("pagedown"@) == Some(KeyCode::PageDown),
        binding::special_key("pgdn"@) == Some(KeyCode::PageDown),
        binding::special_key("space"@) == Some(KeyCode::Char(' ')),
        binding::modifier_named("ctrl"@) == Some(Modifier::Control),
        binding::modifier_named("control"@) == Some(Modifier::Control),
        binding::modifier_named("alt"@) == Some(Modifier::Alt),
        binding::modifier_named("shift"@) == Some(Modifier::Shift),
{
    lemma_fixed_names();
    assert("return"@[0] == 'r' && "escape"@[0] == 'e' && "delete"@[0] == 'd' && "insert"@[0] == 'i' && "pageup"@[0]
        == 'p');
    assert("esc"@[1] == 's' && "tab"@[0] == 't' && "del"@[0] == 'd' && "ins"@[0] == 'i' && "end"@[1] == 'n');
    assert("down"@[0] == 'd' && "left"@[0] == 'l' && "home"@[0] == 'h' && "pgup"@[2] == 'u' && "pgdn"@[2] == 'd');
    assert("enter"@[0] == 'e' && "right"@[0] == 'r' && "space"@[0] == 's' && "shift"@[1] == 'h');
    assert("ctrl"@[0] == 'c' && "control"@[0] == 'c' && "alt"@[0] == 'a');
    assert(text::lower("ctrl"@) =~= "ctrl"@);
    assert(text::lower("control"@) =~= "control"@);
    assert(text::lower("alt"@) =~= "alt"@);
    assert(text::lower("shift"@) =~= "shift"@);
}

/// A key is named by a fixed name in any letter case, by an F with a number from one
/// to twenty-four, or by itself; a higher number and any other text are refused.
pub proof fn law_how_keys_are_named(source: Seq<char>, n: u8)
    ensures
        binding::special_key(text::lower(source)) matches Some(code) ==> binding::key_named(source) == Ok::<
            KeyCode,
            Seq<char>,
        >(code),
        1 <= n <= 24 ==> binding::key_named("F"@ + text::decimal(n as nat)) == Ok::<KeyCode, Seq<char>>(KeyCode::F(n)),
        source.len() == 1 ==> binding::key_named(source) == Ok::<KeyCode, Seq<char>>(KeyCode::Char(source[0])),
        source.len() > 1 && binding::special_key(text::lower(source)) is None && text::lower(source)[0] != 'f'
            ==> binding::key_named(source) == Err::<KeyCode, Seq<char>>("unknown key '"@ + source + "'"@),
        source.len() > 1 && binding::special_key(text::lower(source)) is None && text::lower(source)[0] == 'f' && (
        binding::small_number(text::lower(source).skip(1)) matches Some(v) && (v == 0 || v > 24))
            ==> binding::key_named(source) == Err::<KeyCode, Seq<char>>("function keys must be between F1 and F24"@),
        source.len() == 0 ==> binding::key_named(source) is Err,
{
    if 1 <= n <= 24 {
        lemma_function_key(n);
    }
    if source.len() == 1 {
        lemma_other_names(text::lower(source));
    }
    if source.len() == 0 {
        lemma_fixed_names();
    }
}

} // verus!
