//! Custom keybindings (`keys.toml`): key specs such as `ctrl-r` or `F1`,
//! actions such as `scroll-down` or `!git status`, and the binding table.

use vstd::prelude::*;
use crate::input::{has_mod, Command, KeyCode, KeyEvent, MOD_ALT, MOD_CONTROL, MOD_SHIFT};
use crate::text::{
    all_ascii, ascii_lower_char, ascii_upper_char, is_ascii_lower, is_ascii_upper, to_lowercase,
    unicode_lowercase,
    chars_of, decimal_chars, decimal_of, eq_lit, parse_unsigned, parse_usize, push_chars,
    push_str, slice_vec, split_chars, split_on, string_of, string_views, views_of,
};
pub use vstd::hash_map::StringHashMap;

verus! {

// ---------------------------------------------------------------------------
// Letter case.
// ---------------------------------------------------------------------------

fn lower_ascii(c: char) -> (r: char)
    ensures
        r == ascii_lower_char(c),
{
    if 'A' <= c && c <= 'Z' {
        char_from_u32((c as u32) + 32)
    } else {
        c
    }
}

fn upper_ascii(c: char) -> (r: char)
    ensures
        r == ascii_upper_char(c),
{
    if 'a' <= c && c <= 'z' {
        char_from_u32((c as u32) - 32)
    } else {
        c
    }
}

/// The character with an ASCII code point.
fn char_from_u32(u: u32) -> (c: char)
    requires
        u < 128,
    ensures
        c == u as char,
{
    let b = u as u8;
    b as char
}

// ---------------------------------------------------------------------------
// Key specs.
// ---------------------------------------------------------------------------

/// The modifier bits named by the pieces before the key, stopping at the
/// first unknown name. Empty pieces (from `ctrl--`) are skipped.
pub open spec fn modifier_bits(parts: Seq<Seq<char>>) -> Result<u8, Seq<char>>
    decreases parts.len(),
{
    if parts.len() == 0 {
        Ok(0u8)
    } else {
        match modifier_bits(parts.drop_last()) {
            Err(e) => Err(e),
            Ok(b) => {
                let m = parts.last();
                if m.len() == 0 {
                    Ok(b)
                } else if m == "ctrl"@ {
                    Ok(b | MOD_CONTROL)
                } else if m == "alt"@ {
                    Ok(b | MOD_ALT)
                } else if m == "shift"@ {
                    Ok(b | MOD_SHIFT)
                } else {
                    Err("unknown modifier '"@ + m + "'"@)
                }
            },
        }
    }
}

proof fn lemma_modifier_or(b: u8)
    by (bit_vector)
    ensures
        (b | 2u8) & 2u8 != 0,
        ((b | 2u8) & 4u8 != 0) == (b & 4u8 != 0),
        ((b | 2u8) & 1u8 != 0) == (b & 1u8 != 0),
        (b | 2u8) & 0xf8u8 == b & 0xf8u8,
        (b | 4u8) & 4u8 != 0,
        ((b | 4u8) & 2u8 != 0) == (b & 2u8 != 0),
        ((b | 4u8) & 1u8 != 0) == (b & 1u8 != 0),
        (b | 4u8) & 0xf8u8 == b & 0xf8u8,
        (b | 1u8) & 1u8 != 0,
        ((b | 1u8) & 2u8 != 0) == (b & 2u8 != 0),
        ((b | 1u8) & 4u8 != 0) == (b & 4u8 != 0),
        (b | 1u8) & 0xf8u8 == b & 0xf8u8,
        0u8 & 1u8 == 0 && 0u8 & 2u8 == 0 && 0u8 & 4u8 == 0 && 0u8 & 0xf8u8 == 0,
{
}

/// Each modifier word sets its own bit and no other: the modifiers read
/// from the pieces before the key hold Ctrl exactly when a piece is
/// `ctrl`, Alt exactly when one is `alt`, Shift exactly when one is
/// `shift`, and nothing else.
pub proof fn lemma_modifiers_are_those_named(parts: Seq<Seq<char>>)
    ensures
        modifier_bits(parts) matches Ok(b) ==> {
            &&& (has_mod(b, MOD_CONTROL) <==> parts.contains("ctrl"@))
            &&& (has_mod(b, MOD_ALT) <==> parts.contains("alt"@))
            &&& (has_mod(b, MOD_SHIFT) <==> parts.contains("shift"@))
            &&& b & 0xf8u8 == 0
        },
    decreases parts.len(),
{
    lemma_modifier_or(0u8);
    if parts.len() > 0 {
        let front = parts.drop_last();
        let m = parts.last();
        lemma_modifiers_are_those_named(front);
        if let Ok(b) = modifier_bits(front) {
            lemma_modifier_or(b);
            assert forall|x: Seq<char>| parts.contains(x) <==> (front.contains(x) || x == m) by {
                if parts.contains(x) {
                    let i = choose|i: int| 0 <= i < parts.len() && parts[i] == x;
                    if i < front.len() {
                        assert(front[i] == x);
                    }
                }
                if front.contains(x) {
                    let i = choose|i: int| 0 <= i < front.len() && front[i] == x;
                    assert(parts[i] == x);
                }
                if x == m {
                    assert(parts[parts.len() - 1] == x);
                }
            }
            reveal_strlit("ctrl");
            reveal_strlit("alt");
            reveal_strlit("shift");
            assert("ctrl"@.len() == 4 && "alt"@.len() == 3 && "shift"@.len() == 5);
            assert(m.len() == 0 ==> (m != "ctrl"@ && m != "alt"@ && m != "shift"@));
        }
    }
}

proof fn lemma_single_char_not_named(k: Seq<char>)
    requires
        k.len() == 1,
    ensures
        named_key(k) is None,
{
    reveal_strlit("esc");
    assert(k != "esc"@) by { assert("esc"@.len() != 1); }
    reveal_strlit("enter");
    assert(k != "enter"@) by { assert("enter"@.len() != 1); }
    reveal_strlit("tab");
    assert(k != "tab"@) by { assert("tab"@.len() != 1); }
    reveal_strlit("backspace");
    assert(k != "backspace"@) by { assert("backspace"@.len() != 1); }
    reveal_strlit("space");
    assert(k != "space"@) by { assert("space"@.len() != 1); }
    reveal_strlit("up");
    assert(k != "up"@) by { assert("up"@.len() != 1); }
    reveal_strlit("down");
    assert(k != "down"@) by { assert("down"@.len() != 1); }
    reveal_strlit("left");
    assert(k != "left"@) by { assert("left"@.len() != 1); }
    reveal_strlit("right");
    assert(k != "right"@) by { assert("right"@.len() != 1); }
    reveal_strlit("pgup");
    assert(k != "pgup"@) by { assert("pgup"@.len() != 1); }
    reveal_strlit("pgdn");
    assert(k != "pgdn"@) by { assert("pgdn"@.len() != 1); }
    reveal_strlit("home");
    assert(k != "home"@) by { assert("home"@.len() != 1); }
    reveal_strlit("end");
    assert(k != "end"@) by { assert("end"@.len() != 1); }
}

/// A key spec's modifiers come from its modifier words: the key read has
/// Ctrl exactly when a piece before the key is `ctrl`, Alt exactly when
/// one is `alt` (so `alt-j` is Alt+J, never Ctrl+J), and Shift exactly
/// when one is `shift` or the spec is a bare uppercase letter; a one-
/// character key is that character in lower case.
pub proof fn lemma_key_spec_modifiers(spec: Seq<char>)
    ensures
        key_spec_meaning(spec) matches Ok(e) ==> ({
            let parts = split_on(unicode_lowercase(spec), '-');
            let named = parts.drop_last();
            &&& (has_mod(e.modifiers, MOD_CONTROL) <==> named.contains("ctrl"@))
            &&& (has_mod(e.modifiers, MOD_ALT) <==> named.contains("alt"@))
            &&& (has_mod(e.modifiers, MOD_SHIFT) <==> (named.contains("shift"@)
                || (parts.last().len() == 1 && is_ascii_upper(spec.last()) && modifier_bits(named) == Ok::<u8, Seq<char>>(0u8))))
            &&& (parts.last().len() == 1 ==> e.code == KeyCode::Char(ascii_lower_char(spec.last())))
        }),
{
    let parts = split_on(unicode_lowercase(spec), '-');
    crate::text::lemma_split_on_nonempty(unicode_lowercase(spec), '-');
    lemma_modifiers_are_those_named(parts.drop_last());
    lemma_modifier_or(0u8);
    if parts.last().len() == 1 {
        lemma_single_char_not_named(parts.last());
    }
    assert(1u8 & 2u8 == 0 && 1u8 & 4u8 == 0 && 1u8 & 1u8 != 0) by (bit_vector);
}

/// How a key with Ctrl or Alt reads back: with Ctrl it starts `Ctrl-`, and
/// with Alt but not Ctrl it starts `Alt-`.
pub proof fn lemma_key_text_names_modifiers(ke: KeyEvent)
    ensures
        has_mod(ke.modifiers, MOD_CONTROL) ==> key_event_text(ke).take(5) == "Ctrl-"@,
        has_mod(ke.modifiers, MOD_ALT) && !has_mod(ke.modifiers, MOD_CONTROL) ==> key_event_text(ke).take(4) == "Alt-"@,
{
    reveal_strlit("Ctrl-");
    reveal_strlit("Alt-");
    let t = key_event_text(ke);
    let ctrl = has_mod(ke.modifiers, MOD_CONTROL);
    let alt = has_mod(ke.modifiers, MOD_ALT);
    let shift = has_mod(ke.modifiers, MOD_SHIFT);
    let rest1 = (if shift { "Shift-"@ } else { Seq::<char>::empty() }) + key_name(ke.code);
    if ctrl {
        let rest = (if alt { "Alt-"@ } else { Seq::<char>::empty() }) + rest1;
        assert(t =~= "Ctrl-"@ + rest);
        assert(t.take(5) =~= "Ctrl-"@);
    } else if alt {
        assert(t =~= "Alt-"@ + rest1);
        assert(t.take(4) =~= "Alt-"@);
    }
}

/// Keys written by name; an empty key means the key was `-` itself.
pub open spec fn named_key(k: Seq<char>) -> Option<KeyCode> {
    if k == "esc"@ {
        Some(KeyCode::Esc)
    } else if k == "enter"@ {
        Some(KeyCode::Enter)
    } else if k == "tab"@ {
        Some(KeyCode::Tab)
    } else if k == "backspace"@ {
        Some(KeyCode::Backspace)
    } else if k == "space"@ {
        Some(KeyCode::Char(' '))
    } else if k == "up"@ {
        Some(KeyCode::Up)
    } else if k == "down"@ {
        Some(KeyCode::Down)
    } else if k == "left"@ {
        Some(KeyCode::Left)
    } else if k == "right"@ {
        Some(KeyCode::Right)
    } else if k == "pgup"@ {
        Some(KeyCode::PageUp)
    } else if k == "pgdn"@ {
        Some(KeyCode::PageDown)
    } else if k == "home"@ {
        Some(KeyCode::Home)
    } else if k == "end"@ {
        Some(KeyCode::End)
    } else if k.len() == 0 {
        Some(KeyCode::Char('-'))
    } else {
        None
    }
}

/// The text in ASCII lower case.
pub open spec fn lower_text(s: Seq<char>) -> Seq<char> {
    Seq::new(s.len(), |i: int| ascii_lower_char(s[i]))
}

proof fn lemma_named_key_esc()
    ensures
        named_key("esc"@) == Some(KeyCode::Esc),
        lower_text(key_name(KeyCode::Esc)) == "esc"@,
{
    reveal_strlit("esc");
    reveal_strlit("Esc");
    assert(lower_text("Esc"@) =~= "esc"@);
}

proof fn lemma_named_key_enter()
    ensures
        named_key("enter"@) == Some(KeyCode::Enter),
        lower_text(key_name(KeyCode::Enter)) == "enter"@,
{
    reveal_strlit("esc");
    reveal_strlit("enter");
    assert("enter"@.len() != "esc"@.len());
    reveal_strlit("Enter");
    assert(lower_text("Enter"@) =~= "enter"@);
}

proof fn lemma_named_key_tab()
    ensures
        named_key("tab"@) == Some(KeyCode::Tab),
        lower_text(key_name(KeyCode::Tab)) == "tab"@,
{
    reveal_strlit("esc");
    reveal_strlit("enter");
    reveal_strlit("tab");
    assert("tab"@[0] != "esc"@[0]);
    assert("tab"@.len() != "enter"@.len());
    reveal_strlit("Tab");
    assert(lower_text("Tab"@) =~= "tab"@);
}

proof fn lemma_named_key_backspace()
    ensures
        named_key("backspace"@) == Some(KeyCode::Backspace),
        lower_text(key_name(KeyCode::Backspace)) == "backspace"@,
{
    reveal_strlit("esc");
    reveal_strlit("enter");
    reveal_strlit("tab");
    reveal_strlit("backspace");
    assert("backspace"@.len() != "esc"@.len());
    assert("backspace"@.len() != "enter"@.len());
    assert("backspace"@.len() != "tab"@.len());
    reveal_strlit("Backspace");
    assert(lower_text("Backspace"@) =~= "backspace"@);
}

proof fn lemma_named_key_space()
    ensures
        named_key("space"@) == Some(KeyCode::Char(' ')),
        lower_text(key_name(KeyCode::Char(' '))) == "space"@,
{
    reveal_strlit("esc");
    reveal_strlit("enter");
    reveal_strlit("tab");
    reveal_strlit("backspace");
    reveal_strlit("space");
    assert("space"@.len() != "esc"@.len());
    assert("space"@[0] != "enter"@[0]);
    assert("space"@.len() != "tab"@.len());
    assert("space"@.len() != "backspace"@.len());
    reveal_strlit("Space");
    assert(lower_text("Space"@) =~= "space"@);
}

proof fn lemma_named_key_up()
    ensures
        named_key("up"@) == Some(KeyCode::Up),
{
    reveal_strlit("esc");
    reveal_strlit("enter");
    reveal_strlit("tab");
    reveal_strlit("backspace");
    reveal_strlit("space");
    reveal_strlit("up");
    assert("up"@.len() != "esc"@.len());
    assert("up"@.len() != "enter"@.len());
    assert("up"@.len() != "tab"@.len());
    assert("up"@.len() != "backspace"@.len());
    assert("up"@.len() != "space"@.len());
}

proof fn lemma_named_key_down()
    ensures
        named_key("down"@) == Some(KeyCode::Down),
{
    reveal_strlit("esc");
    reveal_strlit("enter");
    reveal_strlit("tab");
    reveal_strlit("backspace");
    reveal_strlit("space");
    reveal_strlit("up");
    reveal_strlit("down");
    assert("down"@.len() != "esc"@.len());
    assert("down"@.len() != "enter"@.len());
    assert("down"@.len() != "tab"@.len());
    assert("down"@.len() != "backspace"@.len());
    assert("down"@.len() != "space"@.len());
    assert("down"@.len() != "up"@.len());
}

proof fn lemma_named_key_left()
    ensures
        named_key("left"@) == Some(KeyCode::Left),
{
    reveal_strlit("esc");
    reveal_strlit("enter");
    reveal_strlit("tab");
    reveal_strlit("backspace");
    reveal_strlit("space");
    reveal_strlit("up");
    reveal_strlit("down");
    reveal_strlit("left");
    assert("left"@.len() != "esc"@.len());
    assert("left"@.len() != "enter"@.len());
    assert("left"@.len() != "tab"@.len());
    assert("left"@.len() != "backspace"@.len());
    assert("left"@.len() != "space"@.len());
    assert("left"@.len() != "up"@.len());
    assert("left"@[0] != "down"@[0]);
}

proof fn lemma_named_key_right()
    ensures
        named_key("right"@) == Some(KeyCode::Right),
{
    reveal_strlit("esc");
    reveal_strlit("enter");
    reveal_strlit("tab");
    reveal_strlit("backspace");
    reveal_strlit("space");
    reveal_strlit("up");
    reveal_strlit("down");
    reveal_strlit("left");
    reveal_strlit("right");
    assert("right"@.len() != "esc"@.len());
    assert("right"@[0] != "enter"@[0]);
    assert("right"@.len() != "tab"@.len());
    assert("right"@.len() != "backspace"@.len());
    assert("right"@[0] != "space"@[0]);
    assert("right"@.len() != "up"@.len());
    assert("right"@.len() != "down"@.len());
    assert("right"@.len() != "left"@.len());
}

proof fn lemma_named_key_pgup()
    ensures
        named_key("pgup"@) == Some(KeyCode::PageUp),
        lower_text(key_name(KeyCode::PageUp)) == "pgup"@,
{
    reveal_strlit("esc");
    reveal_strlit("enter");
    reveal_strlit("tab");
    reveal_strlit("backspace");
    reveal_strlit("space");
    reveal_strlit("up");
    reveal_strlit("down");
    reveal_strlit("left");
    reveal_strlit("right");
    reveal_strlit("pgup");
    assert("pgup"@.len() != "esc"@.len());
    assert("pgup"@.len() != "enter"@.len());
    assert("pgup"@.len() != "tab"@.len());
    assert("pgup"@.len() != "backspace"@.len());
    assert("pgup"@.len() != "space"@.len());
    assert("pgup"@.len() != "up"@.len());
    assert("pgup"@[0] != "down"@[0]);
    assert("pgup"@[0] != "left"@[0]);
    assert("pgup"@.len() != "right"@.len());
    reveal_strlit("PgUp");
    assert(lower_text("PgUp"@) =~= "pgup"@);
}

proof fn lemma_named_key_pgdn()
    ensures
        named_key("pgdn"@) == Some(KeyCode::PageDown),
        lower_text(key_name(KeyCode::PageDown)) == "pgdn"@,
{
    reveal_strlit("esc");
    reveal_strlit("enter");
    reveal_strlit("tab");
    reveal_strlit("backspace");
    reveal_strlit("space");
    reveal_strlit("up");
    reveal_strlit("down");
    reveal_strlit("left");
    reveal_strlit("right");
    reveal_strlit("pgup");
    reveal_strlit("pgdn");
    assert("pgdn"@.len() != "esc"@.len());
    assert("pgdn"@.len() != "enter"@.len());
    assert("pgdn"@.len() != "tab"@.len());
    assert("pgdn"@.len() != "backspace"@.len());
    assert("pgdn"@.len() != "space"@.len());
    assert("pgdn"@.len() != "up"@.len());
    assert("pgdn"@[0] != "down"@[0]);
    assert("pgdn"@[0] != "left"@[0]);
    assert("pgdn"@.len() != "right"@.len());
    assert("pgdn"@[2] != "pgup"@[2]);
    reveal_strlit("PgDn");
    assert(lower_text("PgDn"@) =~= "pgdn"@);
}

proof fn lemma_named_key_home()
    ensures
        named_key("home"@) == Some(KeyCode::Home),
        lower_text(key_name(KeyCode::Home)) == "home"@,
{
    reveal_strlit("esc");
    reveal_strlit("enter");
    reveal_strlit("tab");
    reveal_strlit("backspace");
    reveal_strlit("space");
    reveal_strlit("up");
    reveal_strlit("down");
    reveal_strlit("left");
    reveal_strlit("right");
    reveal_strlit("pgup");
    reveal_strlit("pgdn");
    reveal_strlit("home");
    assert("home"@.len() != "esc"@.len());
    assert("home"@.len() != "enter"@.len());
    assert("home"@.len() != "tab"@.len());
    assert("home"@.len() != "backspace"@.len());
    assert("home"@.len() != "space"@.len());
    assert("home"@.len() != "up"@.len());
    assert("home"@[0] != "down"@[0]);
    assert("home"@[0] != "left"@[0]);
    assert("home"@.len() != "right"@.len());
    assert("home"@[0] != "pgup"@[0]);
    assert("home"@[0] != "pgdn"@[0]);
    reveal_strlit("Home");
    assert(lower_text("Home"@) =~= "home"@);
}

proof fn lemma_named_key_end()
    ensures
        named_key("end"@) == Some(KeyCode::End),
        lower_text(key_name(KeyCode::End)) == "end"@,
{
    reveal_strlit("esc");
    reveal_strlit("enter");
    reveal_strlit("tab");
    reveal_strlit("backspace");
    reveal_strlit("space");
    reveal_strlit("up");
    reveal_strlit("down");
    reveal_strlit("left");
    reveal_strlit("right");
    reveal_strlit("pgup");
    reveal_strlit("pgdn");
    reveal_strlit("home");
    reveal_strlit("end");
    assert("end"@[1] != "esc"@[1]);
    assert("end"@.len() != "enter"@.len());
    assert("end"@[0] != "tab"@[0]);
    assert("end"@.len() != "backspace"@.len());
    assert("end"@.len() != "space"@.len());
    assert("end"@.len() != "up"@.len());
    assert("end"@.len() != "down"@.len());
    assert("end"@.len() != "left"@.len());
    assert("end"@.len() != "right"@.len());
    assert("end"@.len() != "pgup"@.len());
    assert("end"@.len() != "pgdn"@.len());
    assert("end"@.len() != "home"@.len());
    reveal_strlit("End");
    assert(lower_text("End"@) =~= "end"@);
}

proof fn lemma_named_key_empty()
    ensures
        named_key(seq![]) == Some(KeyCode::Char('-')),
{
    reveal_strlit("esc");
    assert(Seq::<char>::empty() != "esc"@) by { assert("esc"@.len() > 0); }
    reveal_strlit("enter");
    assert(Seq::<char>::empty() != "enter"@) by { assert("enter"@.len() > 0); }
    reveal_strlit("tab");
    assert(Seq::<char>::empty() != "tab"@) by { assert("tab"@.len() > 0); }
    reveal_strlit("backspace");
    assert(Seq::<char>::empty() != "backspace"@) by { assert("backspace"@.len() > 0); }
    reveal_strlit("space");
    assert(Seq::<char>::empty() != "space"@) by { assert("space"@.len() > 0); }
    reveal_strlit("up");
    assert(Seq::<char>::empty() != "up"@) by { assert("up"@.len() > 0); }
    reveal_strlit("down");
    assert(Seq::<char>::empty() != "down"@) by { assert("down"@.len() > 0); }
    reveal_strlit("left");
    assert(Seq::<char>::empty() != "left"@) by { assert("left"@.len() > 0); }
    reveal_strlit("right");
    assert(Seq::<char>::empty() != "right"@) by { assert("right"@.len() > 0); }
    reveal_strlit("pgup");
    assert(Seq::<char>::empty() != "pgup"@) by { assert("pgup"@.len() > 0); }
    reveal_strlit("pgdn");
    assert(Seq::<char>::empty() != "pgdn"@) by { assert("pgdn"@.len() > 0); }
    reveal_strlit("home");
    assert(Seq::<char>::empty() != "home"@) by { assert("home"@.len() > 0); }
    reveal_strlit("end");
    assert(Seq::<char>::empty() != "end"@) by { assert("end"@.len() > 0); }
}

/// The key names a key spec accepts name those keys, and each such key
/// reads back, in lower case, as the name it was written with (`pgup` is
/// Page Up and shows as `PgUp`; `space` is the space bar); the arrows are
/// `up`, `down`, `left`, `right`, and an empty key is `-` itself.
pub proof fn lemma_named_keys_read_back()
    ensures
        named_key("esc"@) == Some(KeyCode::Esc) && lower_text(key_name(KeyCode::Esc)) == "esc"@,
        named_key("enter"@) == Some(KeyCode::Enter) && lower_text(key_name(KeyCode::Enter)) == "enter"@,
        named_key("tab"@) == Some(KeyCode::Tab) && lower_text(key_name(KeyCode::Tab)) == "tab"@,
        named_key("backspace"@) == Some(KeyCode::Backspace) && lower_text(key_name(KeyCode::Backspace)) == "backspace"@,
        named_key("space"@) == Some(KeyCode::Char(' ')) && lower_text(key_name(KeyCode::Char(' '))) == "space"@,
        named_key("pgup"@) == Some(KeyCode::PageUp) && lower_text(key_name(KeyCode::PageUp)) == "pgup"@,
        named_key("pgdn"@) == Some(KeyCode::PageDown) && lower_text(key_name(KeyCode::PageDown)) == "pgdn"@,
        named_key("home"@) == Some(KeyCode::Home) && lower_text(key_name(KeyCode::Home)) == "home"@,
        named_key("end"@) == Some(KeyCode::End) && lower_text(key_name(KeyCode::End)) == "end"@,
        named_key("up"@) == Some(KeyCode::Up),
        named_key("down"@) == Some(KeyCode::Down),
        named_key("left"@) == Some(KeyCode::Left),
        named_key("right"@) == Some(KeyCode::Right),
        named_key(seq![]) == Some(KeyCode::Char('-')),
{
    lemma_named_key_esc();
    lemma_named_key_enter();
    lemma_named_key_tab();
    lemma_named_key_backspace();
    lemma_named_key_space();
    lemma_named_key_up();
    lemma_named_key_down();
    lemma_named_key_left();
    lemma_named_key_right();
    lemma_named_key_pgup();
    lemma_named_key_pgdn();
    lemma_named_key_home();
    lemma_named_key_end();
    lemma_named_key_empty();
}

/// std's `u8` parse.
pub open spec fn parse_u8_spec(s: Seq<char>) -> Option<u8> {
    match parse_unsigned(s) {
        Some(n) => if n <= 255 { Some(n as u8) } else { None },
        None => None,
    }
}

/// What a key spec means. It is read in lower case and split at `-`: the
/// last piece is the key, the others modifiers. A single letter is taken
/// from the spec as written: a bare uppercase letter means Shift and the
/// letter.
pub open spec fn key_spec_meaning(spec: Seq<char>) -> Result<KeyEvent, Seq<char>> {
    let parts = split_on(unicode_lowercase(spec), '-');
    let key = parts.last();
    match modifier_bits(parts.drop_last()) {
        Err(e) => Err(e),
        Ok(mods) => match named_key(key) {
            Some(code) => Ok(KeyEvent { code, modifiers: mods }),
            None => if key.len() > 1 && key[0] == 'f' {
                match parse_u8_spec(key.skip(1)) {
                    Some(n) => Ok(KeyEvent { code: KeyCode::F(n), modifiers: mods }),
                    None => Err("unknown key '"@ + key + "'"@),
                }
            } else if key.len() == 1 {
                let c = spec.last();
                if is_ascii_upper(c) && mods == 0 {
                    Ok(KeyEvent { code: KeyCode::Char(ascii_lower_char(c)), modifiers: MOD_SHIFT })
                } else {
                    Ok(KeyEvent { code: KeyCode::Char(ascii_lower_char(c)), modifiers: mods })
                }
            } else {
                Err("unknown key '"@ + key + "'"@)
            },
        },
    }
}

fn quoted_error(lead: &str, v: &[char], tail: &str) -> (s: String)
    ensures
        s@ == lead@ + v@ + tail@,
{
    let mut out: Vec<char> = Vec::new();
    push_str(&mut out, lead);
    push_chars(&mut out, v);
    push_str(&mut out, tail);
    string_of(out.as_slice())
}

fn modifier_bits_of(parts: &Vec<Vec<char>>, n: usize) -> (r: Result<u8, String>)
    requires
        n <= parts@.len(),
    ensures
        match modifier_bits(views_of(parts@).take(n as int)) {
            Ok(b) => r == Ok::<u8, String>(b),
            Err(e) => (r matches Err(m) && m@ == e),
        },
{
    let ghost v = views_of(parts@);
    let mut bits: u8 = 0;
    let mut i: usize = 0;
    assert(v.take(0) =~= seq![]);
    while i < n
        invariant
            i <= n <= parts@.len(),
            v == views_of(parts@),
            modifier_bits(v.take(i as int)) == Ok::<u8, Seq<char>>(bits),
        decreases n - i,
    {
        let m = parts[i].as_slice();
        assert(v.take(i + 1).drop_last() =~= v.take(i as int));
        assert(v.take(i + 1).last() == m@);
        if m.len() == 0 {
        } else if eq_lit(m, "ctrl") {
            bits = bits | MOD_CONTROL;
        } else if eq_lit(m, "alt") {
            bits = bits | MOD_ALT;
        } else if eq_lit(m, "shift") {
            bits = bits | MOD_SHIFT;
        } else {
            let e = quoted_error("unknown modifier '", m, "'");
            proof {
                lemma_modifier_error_persists(v, (i + 1) as int, n as int);
            }
            return Err(e);
        }
        i = i + 1;
    }
    Ok(bits)
}

/// Once a prefix of the modifier pieces is in error, longer ones report
/// the same error.
proof fn lemma_modifier_error_persists(v: Seq<Seq<char>>, i: int, n: int)
    requires
        0 <= i <= n <= v.len(),
        modifier_bits(v.take(i)) is Err,
    ensures
        modifier_bits(v.take(n)) == modifier_bits(v.take(i)),
    decreases n - i,
{
    if i < n {
        assert(v.take(i + 1).drop_last() =~= v.take(i));
        lemma_modifier_error_persists(v, i + 1, n);
    }
}

fn named_key_of(k: &[char]) -> (r: Option<KeyCode>)
    ensures
        r == named_key(k@),
{
    if eq_lit(k, "esc") {
        Some(KeyCode::Esc)
    } else if eq_lit(k, "enter") {
        Some(KeyCode::Enter)
    } else if eq_lit(k, "tab") {
        Some(KeyCode::Tab)
    } else if eq_lit(k, "backspace") {
        Some(KeyCode::Backspace)
    } else if eq_lit(k, "space") {
        Some(KeyCode::Char(' '))
    } else if eq_lit(k, "up") {
        Some(KeyCode::Up)
    } else if eq_lit(k, "down") {
        Some(KeyCode::Down)
    } else if eq_lit(k, "left") {
        Some(KeyCode::Left)
    } else if eq_lit(k, "right") {
        Some(KeyCode::Right)
    } else if eq_lit(k, "pgup") {
        Some(KeyCode::PageUp)
    } else if eq_lit(k, "pgdn") {
        Some(KeyCode::PageDown)
    } else if eq_lit(k, "home") {
        Some(KeyCode::Home)
    } else if eq_lit(k, "end") {
        Some(KeyCode::End)
    } else if k.len() == 0 {
        Some(KeyCode::Char('-'))
    } else {
        None
    }
}

fn parse_u8(s: &[char]) -> (r: Option<u8>)
    ensures
        r == parse_u8_spec(s@),
{
    match parse_usize(s) {
        Some(n) => if n <= 255 { Some(n as u8) } else { None },
        None => None,
    }
}

/// Parse a key spec (`j`, `J`, `ctrl-r`, `shift-tab`, `f1`, `ctrl--`).
pub fn parse_key_spec(spec: &str) -> (r: Result<KeyEvent, String>)
    ensures
        match key_spec_meaning(spec@) {
            Ok(k) => r == Ok::<KeyEvent, String>(k),
            Err(e) => (r matches Err(m) && m@ == e),
        },
{
    let lower = to_lowercase(spec);
    let lc = chars_of(lower.as_str());
    let parts = split_chars(lc.as_slice(), '-');
    proof {
        crate::text::lemma_split_on_nonempty(lc@, '-');
    }
    let ghost v = views_of(parts@);
    let n = parts.len();
    assert(v.len() > 0);
    let mods = match modifier_bits_of(&parts, n - 1) {
        Ok(b) => b,
        Err(e) => {
            assert(v.take(n - 1) =~= v.drop_last());
            return Err(e);
        },
    };
    assert(v.take(n - 1) =~= v.drop_last());
    let key = parts[n - 1].as_slice();
    assert(key@ == v.last());
    match named_key_of(key) {
        Some(code) => Ok(KeyEvent { code, modifiers: mods }),
        None => {
            if key.len() > 1 && key[0] == 'f' {
                let digits = slice_vec(key, 1, key.len());
                assert(digits@ =~= key@.skip(1));
                match parse_u8(digits.as_slice()) {
                    Some(n) => Ok(KeyEvent { code: KeyCode::F(n), modifiers: mods }),
                    None => Err(quoted_error("unknown key '", key, "'")),
                }
            } else if key.len() == 1 {
                let sc = chars_of(spec);
                assert(sc@.len() > 0);
                let c = sc[sc.len() - 1];
                if 'A' <= c && c <= 'Z' && mods == 0 {
                    Ok(KeyEvent { code: KeyCode::Char(lower_ascii(c)), modifiers: MOD_SHIFT })
                } else {
                    Ok(KeyEvent { code: KeyCode::Char(lower_ascii(c)), modifiers: mods })
                }
            } else {
                Err(quoted_error("unknown key '", key, "'"))
            }
        },
    }
}

/// Keys that start a multi-key sequence and so cannot be rebound: `m`,
/// `'`, `-`, a digit (all without modifiers) and Ctrl-X.
pub open spec fn forbidden_key(k: KeyEvent) -> bool {
    match k.code {
        KeyCode::Char(c) => (k.modifiers == 0 && (c == 'm' || c == '\'' || c == '-' || ('0' <= c && c <= '9')))
            || (c == 'x' && k.modifiers == MOD_CONTROL),
        _ => false,
    }
}

/// Refuse a key that starts a multi-key sequence.
pub fn reject_forbidden_key(key: &KeyEvent, original_spec: &str) -> (r: Result<(), String>)
    ensures
        forbidden_key(*key) ==> (r matches Err(m)
            && m@ == "'"@ + original_spec@ + "' is part of a multi-key sequence and cannot be rebound"@),
        !forbidden_key(*key) ==> r is Ok,
{
    let forbidden = match key.code {
        KeyCode::Char(c) => (key.modifiers == 0 && (c == 'm' || c == '\'' || c == '-' || ('0' <= c && c <= '9')))
            || (c == 'x' && key.modifiers == MOD_CONTROL),
        _ => false,
    };
    if forbidden {
        let sc = chars_of(original_spec);
        return Err(quoted_error("'", sc.as_slice(), "' is part of a multi-key sequence and cannot be rebound"));
    }
    Ok(())
}

// ---------------------------------------------------------------------------
// Actions.
// ---------------------------------------------------------------------------

/// What a key is bound to: a pager command or a shell command line. `S`
/// is the text type.
#[derive(Debug, Clone)]
pub enum BindingTargetOf<S> {
    Command(Command),
    Shell(S),
}

pub type BindingTarget = BindingTargetOf<String>;

pub type TargetView = BindingTargetOf<Seq<char>>;

impl View for BindingTargetOf<String> {
    type V = TargetView;

    open spec fn view(&self) -> TargetView {
        match self {
            BindingTargetOf::Command(c) => BindingTargetOf::Command(*c),
            BindingTargetOf::Shell(s) => BindingTargetOf::Shell(s@),
        }
    }
}

/// The binding an action string describes: `!cmd` runs a shell command,
/// anything else names a command.
pub open spec fn action_target(action: Seq<char>) -> Result<TargetView, Seq<char>> {
    if action.len() > 0 && action[0] == '!' {
        if action.len() == 1 {
            Err("shell binding requires a command after '!'"@)
        } else {
            Ok(BindingTargetOf::Shell(action.skip(1)))
        }
    } else {
        match kebab_command(action) {
            Some(c) => Ok(BindingTargetOf::Command(c)),
            None => Err("unknown command '"@ + action + "'"@),
        }
    }
}

pub open spec fn target_result_view(r: Result<BindingTarget, String>) -> Result<TargetView, Seq<char>> {
    match r {
        Ok(t) => Ok(t@),
        Err(e) => Err(e@),
    }
}

/// The command a kebab-case name stands for.
pub open spec fn kebab_command(name: Seq<char>) -> Option<Command> {
    if name == "scroll-down"@ { Some(Command::ScrollLines(1i64)) }
    else if name == "scroll-up"@ { Some(Command::ScrollLines(-1i64)) }
    else if name == "scroll-logical-down"@ { Some(Command::ScrollLogicalLines(1i64)) }
    else if name == "scroll-logical-up"@ { Some(Command::ScrollLogicalLines(-1i64)) }
    else if name == "page-down"@ { Some(Command::PageDown) }
    else if name == "page-up"@ { Some(Command::PageUp) }
    else if name == "half-page-down"@ { Some(Command::HalfPageDown) }
    else if name == "half-page-up"@ { Some(Command::HalfPageUp) }
    else if name == "quit"@ { Some(Command::Quit) }
    else if name == "refresh"@ { Some(Command::Refresh) }
    else if name == "reload"@ { Some(Command::Reload) }
    else if name == "toggle-line-numbers"@ { Some(Command::ToggleLineNumbers) }
    else if name == "toggle-chop"@ { Some(Command::ToggleChop) }
    else if name == "toggle-follow"@ { Some(Command::ToggleFollow) }
    else if name == "toggle-prettify"@ { Some(Command::TogglePrettify) }
    else if name == "search-forward"@ { Some(Command::SearchForward) }
    else if name == "search-backward"@ { Some(Command::SearchBackward) }
    else if name == "next-match"@ { Some(Command::NextMatch) }
    else if name == "previous-match"@ { Some(Command::PreviousMatch) }
    else if name == "option-prefix"@ { Some(Command::OptionPrefix) }
    else if name == "goto-line"@ { Some(Command::GotoLine) }
    else if name == "goto-record"@ { Some(Command::GotoRecord) }
    else if name == "goto-percent"@ { Some(Command::GotoPercent) }
    else if name == "mark-set"@ { Some(Command::MarkSet) }
    else if name == "mark-jump"@ { Some(Command::MarkJump) }
    else if name == "ctrl-x-prefix"@ { Some(Command::CtrlXPrefix) }
    else if name == "jump-previous"@ { Some(Command::JumpPrevious) }
    else if name == "shell-escape"@ { Some(Command::ShellEscape) }
    else if name == "cancel"@ { Some(Command::Cancel) }
    else if name == "hscroll-left"@ { Some(Command::HScrollLeft) }
    else if name == "hscroll-right"@ { Some(Command::HScrollRight) }
    else if name == "hscroll-left-step"@ { Some(Command::HScrollLeftStep) }
    else if name == "hscroll-right-step"@ { Some(Command::HScrollRightStep) }
    else if name == "clipboard-yank-line"@ { Some(Command::YankLine) }
    else if name == "anim-pause"@ { Some(Command::AnimPause) }
    else if name == "anim-step-forward"@ { Some(Command::AnimStepForward) }
    else if name == "anim-step-back"@ { Some(Command::AnimStepBack) }
    else if name == "anim-restart"@ { Some(Command::AnimRestart) }
    else if name == "focus-other-pane"@ { Some(Command::FocusOtherPane) }
    else if name == "focus-prev-pane"@ { Some(Command::FocusPrevPane) }
    else if name == "scroll-lock-toggle"@ { Some(Command::ToggleScrollLock) }
    else if name == "zoom-pane"@ { Some(Command::ZoomPane) }
    else if name == "mouse-toggle"@ { Some(Command::ToggleMouse) }
    else if name == "diff-next-change"@ { Some(Command::DiffNextChange) }
    else if name == "diff-prev-change"@ { Some(Command::DiffPrevChange) }
    else { None }
}

/// The kebab-case name of a command, for those that have one.
pub open spec fn command_kebab(cmd: Command) -> Option<Seq<char>> {
    match cmd {
        Command::ScrollLines(1i64) => Some("scroll-down"@),
        Command::ScrollLines(-1i64) => Some("scroll-up"@),
        Command::ScrollLogicalLines(1i64) => Some("scroll-logical-down"@),
        Command::ScrollLogicalLines(-1i64) => Some("scroll-logical-up"@),
        Command::PageDown => Some("page-down"@),
        Command::PageUp => Some("page-up"@),
        Command::HalfPageDown => Some("half-page-down"@),
        Command::HalfPageUp => Some("half-page-up"@),
        Command::Quit => Some("quit"@),
        Command::Refresh => Some("refresh"@),
        Command::Reload => Some("reload"@),
        Command::ToggleLineNumbers => Some("toggle-line-numbers"@),
        Command::ToggleChop => Some("toggle-chop"@),
        Command::ToggleFollow => Some("toggle-follow"@),
        Command::TogglePrettify => Some("toggle-prettify"@),
        Command::SearchForward => Some("search-forward"@),
        Command::SearchBackward => Some("search-backward"@),
        Command::NextMatch => Some("next-match"@),
        Command::PreviousMatch => Some("previous-match"@),
        Command::OptionPrefix => Some("option-prefix"@),
        Command::GotoLine => Some("goto-line"@),
        Command::GotoRecord => Some("goto-record"@),
        Command::GotoPercent => Some("goto-percent"@),
        Command::MarkSet => Some("mark-set"@),
        Command::MarkJump => Some("mark-jump"@),
        Command::CtrlXPrefix => Some("ctrl-x-prefix"@),
        Command::JumpPrevious => Some("jump-previous"@),
        Command::ShellEscape => Some("shell-escape"@),
        Command::Cancel => Some("cancel"@),
        Command::HScrollLeft => Some("hscroll-left"@),
        Command::HScrollRight => Some("hscroll-right"@),
        Command::HScrollLeftStep => Some("hscroll-left-step"@),
        Command::HScrollRightStep => Some("hscroll-right-step"@),
        Command::YankLine => Some("clipboard-yank-line"@),
        Command::AnimPause => Some("anim-pause"@),
        Command::AnimStepForward => Some("anim-step-forward"@),
        Command::AnimStepBack => Some("anim-step-back"@),
        Command::AnimRestart => Some("anim-restart"@),
        Command::FocusOtherPane => Some("focus-other-pane"@),
        Command::FocusPrevPane => Some("focus-prev-pane"@),
        Command::ToggleScrollLock => Some("scroll-lock-toggle"@),
        Command::ZoomPane => Some("zoom-pane"@),
        Command::ToggleMouse => Some("mouse-toggle"@),
        Command::DiffNextChange => Some("diff-next-change"@),
        Command::DiffPrevChange => Some("diff-prev-change"@),
        _ => None,
    }
}

/// Map a kebab-case command name to its command.
pub fn command_from_kebab(name: &str) -> (r: Option<Command>)
    ensures
        r == kebab_command(name@),
{
    let c = chars_of(name);
    let n = c.as_slice();
    if eq_lit(n, "scroll-down") { Some(Command::ScrollLines(1)) }
    else if eq_lit(n, "scroll-up") { Some(Command::ScrollLines(-1)) }
    else if eq_lit(n, "scroll-logical-down") { Some(Command::ScrollLogicalLines(1)) }
    else if eq_lit(n, "scroll-logical-up") { Some(Command::ScrollLogicalLines(-1)) }
    else if eq_lit(n, "page-down") { Some(Command::PageDown) }
    else if eq_lit(n, "page-up") { Some(Command::PageUp) }
    else if eq_lit(n, "half-page-down") { Some(Command::HalfPageDown) }
    else if eq_lit(n, "half-page-up") { Some(Command::HalfPageUp) }
    else if eq_lit(n, "quit") { Some(Command::Quit) }
    else if eq_lit(n, "refresh") { Some(Command::Refresh) }
    else if eq_lit(n, "reload") { Some(Command::Reload) }
    else if eq_lit(n, "toggle-line-numbers") { Some(Command::ToggleLineNumbers) }
    else if eq_lit(n, "toggle-chop") { Some(Command::ToggleChop) }
    else if eq_lit(n, "toggle-follow") { Some(Command::ToggleFollow) }
    else if eq_lit(n, "toggle-prettify") { Some(Command::TogglePrettify) }
    else if eq_lit(n, "search-forward") { Some(Command::SearchForward) }
    else if eq_lit(n, "search-backward") { Some(Command::SearchBackward) }
    else if eq_lit(n, "next-match") { Some(Command::NextMatch) }
    else if eq_lit(n, "previous-match") { Some(Command::PreviousMatch) }
    else if eq_lit(n, "option-prefix") { Some(Command::OptionPrefix) }
    else if eq_lit(n, "goto-line") { Some(Command::GotoLine) }
    else if eq_lit(n, "goto-record") { Some(Command::GotoRecord) }
    else if eq_lit(n, "goto-percent") { Some(Command::GotoPercent) }
    else if eq_lit(n, "mark-set") { Some(Command::MarkSet) }
    else if eq_lit(n, "mark-jump") { Some(Command::MarkJump) }
    else if eq_lit(n, "ctrl-x-prefix") { Some(Command::CtrlXPrefix) }
    else if eq_lit(n, "jump-previous") { Some(Command::JumpPrevious) }
    else if eq_lit(n, "shell-escape") { Some(Command::ShellEscape) }
    else if eq_lit(n, "cancel") { Some(Command::Cancel) }
    else if eq_lit(n, "hscroll-left") { Some(Command::HScrollLeft) }
    else if eq_lit(n, "hscroll-right") { Some(Command::HScrollRight) }
    else if eq_lit(n, "hscroll-left-step") { Some(Command::HScrollLeftStep) }
    else if eq_lit(n, "hscroll-right-step") { Some(Command::HScrollRightStep) }
    else if eq_lit(n, "clipboard-yank-line") { Some(Command::YankLine) }
    else if eq_lit(n, "anim-pause") { Some(Command::AnimPause) }
    else if eq_lit(n, "anim-step-forward") { Some(Command::AnimStepForward) }
    else if eq_lit(n, "anim-step-back") { Some(Command::AnimStepBack) }
    else if eq_lit(n, "anim-restart") { Some(Command::AnimRestart) }
    else if eq_lit(n, "focus-other-pane") { Some(Command::FocusOtherPane) }
    else if eq_lit(n, "focus-prev-pane") { Some(Command::FocusPrevPane) }
    else if eq_lit(n, "scroll-lock-toggle") { Some(Command::ToggleScrollLock) }
    else if eq_lit(n, "zoom-pane") { Some(Command::ZoomPane) }
    else if eq_lit(n, "mouse-toggle") { Some(Command::ToggleMouse) }
    else if eq_lit(n, "diff-next-change") { Some(Command::DiffNextChange) }
    else if eq_lit(n, "diff-prev-change") { Some(Command::DiffPrevChange) }
    else { None }
}

/// The kebab-case name of a command, for the commands that have one.
pub fn command_to_kebab(cmd: &Command) -> (r: Option<&'static str>)
    ensures
        match command_kebab(*cmd) {
            Some(n) => (r matches Some(s) && s@ == n),
            None => r is None,
        },
{
    match cmd {
        Command::ScrollLines(1) => Some("scroll-down"),
        Command::ScrollLines(-1) => Some("scroll-up"),
        Command::ScrollLogicalLines(1) => Some("scroll-logical-down"),
        Command::ScrollLogicalLines(-1) => Some("scroll-logical-up"),
        Command::PageDown => Some("page-down"),
        Command::PageUp => Some("page-up"),
        Command::HalfPageDown => Some("half-page-down"),
        Command::HalfPageUp => Some("half-page-up"),
        Command::Quit => Some("quit"),
        Command::Refresh => Some("refresh"),
        Command::Reload => Some("reload"),
        Command::ToggleLineNumbers => Some("toggle-line-numbers"),
        Command::ToggleChop => Some("toggle-chop"),
        Command::ToggleFollow => Some("toggle-follow"),
        Command::TogglePrettify => Some("toggle-prettify"),
        Command::SearchForward => Some("search-forward"),
        Command::SearchBackward => Some("search-backward"),
        Command::NextMatch => Some("next-match"),
        Command::PreviousMatch => Some("previous-match"),
        Command::OptionPrefix => Some("option-prefix"),
        Command::GotoLine => Some("goto-line"),
        Command::GotoRecord => Some("goto-record"),
        Command::GotoPercent => Some("goto-percent"),
        Command::MarkSet => Some("mark-set"),
        Command::MarkJump => Some("mark-jump"),
        Command::CtrlXPrefix => Some("ctrl-x-prefix"),
        Command::JumpPrevious => Some("jump-previous"),
        Command::ShellEscape => Some("shell-escape"),
        Command::Cancel => Some("cancel"),
        Command::HScrollLeft => Some("hscroll-left"),
        Command::HScrollRight => Some("hscroll-right"),
        Command::HScrollLeftStep => Some("hscroll-left-step"),
        Command::HScrollRightStep => Some("hscroll-right-step"),
        Command::YankLine => Some("clipboard-yank-line"),
        Command::AnimPause => Some("anim-pause"),
        Command::AnimStepForward => Some("anim-step-forward"),
        Command::AnimStepBack => Some("anim-step-back"),
        Command::AnimRestart => Some("anim-restart"),
        Command::FocusOtherPane => Some("focus-other-pane"),
        Command::FocusPrevPane => Some("focus-prev-pane"),
        Command::ToggleScrollLock => Some("scroll-lock-toggle"),
        Command::ZoomPane => Some("zoom-pane"),
        Command::ToggleMouse => Some("mouse-toggle"),
        Command::DiffNextChange => Some("diff-next-change"),
        Command::DiffPrevChange => Some("diff-prev-change"),
        _ => None,
    }
}

/// Every name that maps to a command maps back to itself: the two tables
/// cover the same command set.
pub proof fn lemma_kebab_round_trip(name: Seq<char>)
    requires
        kebab_command(name) is Some,
    ensures
        command_kebab(kebab_command(name).unwrap()) == Some(name),
{
}

/// Parse the action side of a binding.
pub fn parse_action(action: &str) -> (r: Result<BindingTarget, String>)
    ensures
        target_result_view(r) == action_target(action@),
{
    let c = chars_of(action);
    if c.len() > 0 && c[0] == '!' {
        if c.len() == 1 {
            return Err(String::from_str("shell binding requires a command after '!'"));
        }
        let rest = slice_vec(c.as_slice(), 1, c.len());
        assert(rest@ =~= action@.skip(1));
        return Ok(BindingTargetOf::Shell(string_of(rest.as_slice())));
    }
    match command_from_kebab(action) {
        Some(cmd) => Ok(BindingTargetOf::Command(cmd)),
        None => Err(quoted_error("unknown command '", c.as_slice(), "'")),
    }
}

// ---------------------------------------------------------------------------
// Showing keys.
// ---------------------------------------------------------------------------

/// How a key is shown in help.
pub open spec fn key_name(code: KeyCode) -> Seq<char> {
    match code {
        KeyCode::Char(' ') => "Space"@,
        KeyCode::Char(c) => seq![c],
        KeyCode::F(n) => "F"@ + decimal_of(n as nat),
        KeyCode::Esc => "Esc"@,
        KeyCode::Enter => "Enter"@,
        KeyCode::Tab => "Tab"@,
        KeyCode::Backspace => "Backspace"@,
        KeyCode::Up => "\u{2191}"@,
        KeyCode::Down => "\u{2193}"@,
        KeyCode::Left => "\u{2190}"@,
        KeyCode::Right => "\u{2192}"@,
        KeyCode::Home => "Home"@,
        KeyCode::End => "End"@,
        KeyCode::PageUp => "PgUp"@,
        KeyCode::PageDown => "PgDn"@,
        KeyCode::BackTab => "BackTab"@,
        KeyCode::Delete => "Delete"@,
        KeyCode::Insert => "Insert"@,
        KeyCode::Null => "Null"@,
        KeyCode::CapsLock => "CapsLock"@,
        KeyCode::ScrollLock => "ScrollLock"@,
        KeyCode::NumLock => "NumLock"@,
        KeyCode::PrintScreen => "PrintScreen"@,
        KeyCode::Pause => "Pause"@,
        KeyCode::Menu => "Menu"@,
        KeyCode::KeypadBegin => "KeypadBegin"@,
    }
}

pub open spec fn is_ascii_alpha(c: char) -> bool {
    is_ascii_upper(c) || is_ascii_lower(c)
}

/// How a key press is shown in help: Shift alone on a letter shows as the
/// uppercase letter; otherwise `Ctrl-`, `Alt-`, `Shift-` lead the key name.
pub open spec fn key_event_text(ke: KeyEvent) -> Seq<char> {
    let ctrl = has_mod(ke.modifiers, MOD_CONTROL);
    let alt = has_mod(ke.modifiers, MOD_ALT);
    let shift = has_mod(ke.modifiers, MOD_SHIFT);
    if shift && !ctrl && !alt && (ke.code matches KeyCode::Char(c) && is_ascii_alpha(c)) {
        seq![ascii_upper_char(ke.code->Char_0)]
    } else {
        (if ctrl { "Ctrl-"@ } else { seq![] }) + (if alt { "Alt-"@ } else { seq![] })
            + (if shift { "Shift-"@ } else { seq![] }) + key_name(ke.code)
    }
}

fn key_name_of(code: KeyCode) -> (s: Vec<char>)
    ensures
        s@ == key_name(code),
{
    let mut out: Vec<char> = Vec::new();
    match code {
        KeyCode::Char(' ') => push_str(&mut out, "Space"),
        KeyCode::Char(c) => {
            out.push(c);
            assert(out@ =~= seq![c]);
        },
        KeyCode::F(n) => {
            push_str(&mut out, "F");
            let d = decimal_chars(n as u64);
            push_chars(&mut out, d.as_slice());
        },
        KeyCode::Esc => push_str(&mut out, "Esc"),
        KeyCode::Enter => push_str(&mut out, "Enter"),
        KeyCode::Tab => push_str(&mut out, "Tab"),
        KeyCode::Backspace => push_str(&mut out, "Backspace"),
        KeyCode::Up => push_str(&mut out, "\u{2191}"),
        KeyCode::Down => push_str(&mut out, "\u{2193}"),
        KeyCode::Left => push_str(&mut out, "\u{2190}"),
        KeyCode::Right => push_str(&mut out, "\u{2192}"),
        KeyCode::Home => push_str(&mut out, "Home"),
        KeyCode::End => push_str(&mut out, "End"),
        KeyCode::PageUp => push_str(&mut out, "PgUp"),
        KeyCode::PageDown => push_str(&mut out, "PgDn"),
        KeyCode::BackTab => push_str(&mut out, "BackTab"),
        KeyCode::Delete => push_str(&mut out, "Delete"),
        KeyCode::Insert => push_str(&mut out, "Insert"),
        KeyCode::Null => push_str(&mut out, "Null"),
        KeyCode::CapsLock => push_str(&mut out, "CapsLock"),
        KeyCode::ScrollLock => push_str(&mut out, "ScrollLock"),
        KeyCode::NumLock => push_str(&mut out, "NumLock"),
        KeyCode::PrintScreen => push_str(&mut out, "PrintScreen"),
        KeyCode::Pause => push_str(&mut out, "Pause"),
        KeyCode::Menu => push_str(&mut out, "Menu"),
        KeyCode::KeypadBegin => push_str(&mut out, "KeypadBegin"),
    }
    out
}

/// Show a key press the way the help overlay lists keys.
pub fn format_key_event(ke: KeyEvent) -> (s: String)
    ensures
        s@ == key_event_text(ke),
{
    let ctrl = ke.modifiers & MOD_CONTROL != 0;
    let alt = ke.modifiers & MOD_ALT != 0;
    let shift = ke.modifiers & MOD_SHIFT != 0;
    if shift && !ctrl && !alt {
        if let KeyCode::Char(c) = ke.code {
            if ('A' <= c && c <= 'Z') || ('a' <= c && c <= 'z') {
                let u = upper_ascii(c);
                let v = vec![u];
                assert(v@ =~= seq![u]);
                return string_of(v.as_slice());
            }
        }
    }
    let mut out: Vec<char> = Vec::new();
    if ctrl {
        push_str(&mut out, "Ctrl-");
    }
    let ghost a = out@;
    if alt {
        push_str(&mut out, "Alt-");
    }
    let ghost b = out@;
    if shift {
        push_str(&mut out, "Shift-");
    }
    let ghost c = out@;
    let k = key_name_of(ke.code);
    push_chars(&mut out, k.as_slice());
    assert(a =~= (if ctrl { "Ctrl-"@ } else { seq![] }));
    assert(b =~= a + (if alt { "Alt-"@ } else { seq![] }));
    assert(c =~= b + (if shift { "Shift-"@ } else { seq![] }));
    string_of(out.as_slice())
}

// ---------------------------------------------------------------------------
// The binding table.
// ---------------------------------------------------------------------------

/// A key event as terminal key equality sees it: an uppercase letter
/// implies Shift, and Shift on a lowercase letter shows as uppercase.
pub open spec fn normalize_key(k: KeyEvent) -> KeyEvent {
    match k.code {
        KeyCode::Char(c) => if is_ascii_upper(c) {
            KeyEvent { code: k.code, modifiers: k.modifiers | MOD_SHIFT }
        } else if has_mod(k.modifiers, MOD_SHIFT) {
            KeyEvent { code: KeyCode::Char(ascii_upper_char(c)), modifiers: k.modifiers }
        } else {
            k
        },
        _ => k,
    }
}

/// Two key presses are the same key (the terminal library's key equality).
pub open spec fn keys_equal(a: KeyEvent, b: KeyEvent) -> bool {
    normalize_key(a) == normalize_key(b)
}

fn normalized(k: KeyEvent) -> (r: KeyEvent)
    ensures
        r == normalize_key(k),
{
    match k.code {
        KeyCode::Char(c) => if 'A' <= c && c <= 'Z' {
            KeyEvent { code: k.code, modifiers: k.modifiers | MOD_SHIFT }
        } else if k.modifiers & MOD_SHIFT != 0 {
            KeyEvent { code: KeyCode::Char(upper_ascii(c)), modifiers: k.modifiers }
        } else {
            k
        },
        _ => k,
    }
}

/// Whether two key presses are the same key.
pub fn key_eq(a: &KeyEvent, b: &KeyEvent) -> (r: bool)
    ensures
        r == keys_equal(*a, *b),
{
    let x = normalized(*a);
    let y = normalized(*b);
    x == y
}

/// The first entry, from `i` on, whose key is the same key as `k`.
pub open spec fn find_key(t: Seq<(KeyEvent, TargetView)>, k: KeyEvent, i: int) -> Option<int>
    decreases t.len() - i,
{
    if i < 0 || i >= t.len() {
        None
    } else if keys_equal(t[i].0, k) {
        Some(i)
    } else {
        find_key(t, k, i + 1)
    }
}

/// The table after binding `k` to `v`: an entry for the same key keeps its
/// key and takes the new target; otherwise the binding is appended.
pub open spec fn table_insert(t: Seq<(KeyEvent, TargetView)>, k: KeyEvent, v: TargetView) -> Seq<(KeyEvent, TargetView)> {
    match find_key(t, k, 0) {
        Some(i) => t.update(i, (t[i].0, v)),
        None => t.push((k, v)),
    }
}

/// The error a binding gives, if any; `prefix` leads every message.
pub open spec fn binding_error(ks: Seq<char>, action: Seq<char>, prefix: Seq<char>) -> Option<Seq<char>> {
    match key_spec_meaning(ks) {
        Err(e) => Some(prefix + "'"@ + ks + "': "@ + e),
        Ok(k) => if forbidden_key(k) {
            Some(prefix + "'"@ + ks + "' is part of a multi-key sequence and cannot be rebound"@)
        } else {
            match action_target(action) {
                Err(e) => Some(prefix + "'"@ + ks + "': "@ + e),
                Ok(_) => None,
            }
        },
    }
}

/// The table that a list of (key spec, action) bindings builds, in order,
/// or the error of the first bad binding.
pub open spec fn build_table(bs: Seq<(Seq<char>, Seq<char>)>, prefix: Seq<char>) -> Result<Seq<(KeyEvent, TargetView)>, Seq<char>>
    decreases bs.len(),
{
    if bs.len() == 0 {
        Ok(seq![])
    } else {
        match build_table(bs.drop_last(), prefix) {
            Err(e) => Err(e),
            Ok(t) => {
                let (ks, a) = bs.last();
                match binding_error(ks, a, prefix) {
                    Some(e) => Err(e),
                    None => Ok(table_insert(
                        t,
                        key_spec_meaning(ks)->Ok_0,
                        action_target(a)->Ok_0,
                    )),
                }
            },
        }
    }
}

pub open spec fn pairs_view(bs: Seq<(String, String)>) -> Seq<(Seq<char>, Seq<char>)> {
    Seq::new(bs.len(), |i: int| (bs[i].0@, bs[i].1@))
}

pub open spec fn entries_view(t: Seq<(KeyEvent, BindingTarget)>) -> Seq<(KeyEvent, TargetView)> {
    Seq::new(t.len(), |i: int| (t[i].0, t[i].1@))
}

/// No key is bound twice.
pub open spec fn distinct_keys(t: Seq<(KeyEvent, TargetView)>) -> bool {
    forall|i: int, j: int| 0 <= i < j < t.len() ==> !keys_equal(#[trigger] t[i].0, #[trigger] t[j].0)
}

/// Custom key bindings.
#[derive(Debug)]
pub struct KeyMap {
    entries: Vec<(KeyEvent, BindingTarget)>,
}

impl KeyMap {
    /// The bindings, in the order they were made.
    pub closed spec fn table(&self) -> Seq<(KeyEvent, TargetView)> {
        entries_view(self.entries@)
    }

    #[verifier::type_invariant]
    closed spec fn wf(&self) -> bool {
        distinct_keys(entries_view(self.entries@))
    }

    /// No bindings.
    pub fn empty() -> (m: Self)
        ensures
            m.table().len() == 0,
    {
        let entries: Vec<(KeyEvent, BindingTarget)> = Vec::new();
        assert(entries_view(entries@) =~= seq![]);
        KeyMap { entries }
    }

    /// Bind `key` to `target`, replacing the target of the same key.
    pub fn insert(&mut self, key: KeyEvent, target: BindingTarget)
        ensures
            final(self).table() == table_insert(old(self).table(), key, target@),
    {
        proof {
            use_type_invariant(&*self);
        }
        let ghost t = self.table();
        let mut entries: Vec<(KeyEvent, BindingTarget)> = Vec::new();
        std::mem::swap(&mut entries, &mut self.entries);
        let mut i: usize = 0;
        while i < entries.len()
            invariant
                i <= entries@.len(),
                t == entries_view(entries@),
                t == old(self).table(),
                distinct_keys(t),
                find_key(t, key, 0) == find_key(t, key, i as int),
            decreases entries@.len() - i,
        {
            if key_eq(&entries[i].0, &key) {
                assert(find_key(t, key, i as int) == Some(i as int));
                let k = entries[i].0;
                let ghost before = entries@;
                entries.set(i, (k, target));
                assert(entries_view(entries@) =~= t.update(i as int, (t[i as int].0, target@)));
                proof {
                    assert forall|a: int, b: int| 0 <= a < b < entries@.len() implies
                        !keys_equal(#[trigger] entries_view(entries@)[a].0, #[trigger] entries_view(entries@)[b].0) by {
                        assert(entries_view(entries@)[a].0 == t[a].0);
                        assert(entries_view(entries@)[b].0 == t[b].0);
                    }
                }
                assert(entries_view(entries@) == table_insert(t, key, target@));
                self.entries = entries;
                assert(self.table() == table_insert(t, key, target@));
                return;
            }
            i = i + 1;
        }
        assert(find_key(t, key, 0) is None);
        entries.push((key, target));
        assert(entries_view(entries@) =~= t.push((key, target@)));
        proof {
            let nt = entries_view(entries@);
            assert forall|a: int, b: int| 0 <= a < b < nt.len() implies
                !keys_equal(#[trigger] nt[a].0, #[trigger] nt[b].0) by {
                if b == nt.len() - 1 {
                    lemma_find_key_none(t, key, 0, a);
                    assert(!keys_equal(t[a].0, key));
                } else {
                    assert(nt[a] == t[a] && nt[b] == t[b]);
                }
            }
        }
        self.entries = entries;
    }

    /// The target bound to `key`, if any.
    pub fn lookup(&self, key: &KeyEvent) -> (r: Option<&BindingTarget>)
        ensures
            match find_key(self.table(), *key, 0) {
                Some(i) => (r matches Some(t) && t@ == self.table()[i].1),
                None => r is None,
            },
    {
        let ghost t = self.table();
        let mut i: usize = 0;
        while i < self.entries.len()
            invariant
                i <= self.entries@.len(),
                t == self.table(),
                t == entries_view(self.entries@),
                find_key(t, *key, 0) == find_key(t, *key, i as int),
            decreases self.entries@.len() - i,
        {
            if key_eq(&self.entries[i].0, key) {
                return Some(&self.entries[i].1);
            }
            i = i + 1;
        }
        None
    }

    /// Whether nothing is bound.
    pub fn is_empty(&self) -> (r: bool)
        ensures
            r == (self.table().len() == 0),
    {
        self.entries.len() == 0
    }

    /// Build the table from (key spec, action) bindings, in order. Every
    /// error message starts with `prefix`.
    pub fn from_bindings(bindings: &[(String, String)], prefix: &str) -> (r: Result<Self, String>)
        ensures
            match build_table(pairs_view(bindings@), prefix@) {
                Ok(t) => (r matches Ok(m) && m.table() == t),
                Err(e) => (r matches Err(m) && m@ == e),
            },
    {
        let ghost bv = pairs_view(bindings@);
        let mut map = KeyMap::empty();
        let mut i: usize = 0;
        assert(bv.take(0) =~= seq![]);
        assert(map.table() =~= seq![]);
        while i < bindings.len()
            invariant
                i <= bindings@.len(),
                bv == pairs_view(bindings@),
                build_table(bv.take(i as int), prefix@) == Ok::<Seq<(KeyEvent, TargetView)>, Seq<char>>(map.table()),
            decreases bindings@.len() - i,
        {
            let ks = &bindings[i].0;
            let action = &bindings[i].1;
            let ghost t = bv.take(i + 1);
            assert(t.drop_last() =~= bv.take(i as int));
            assert(t.last() == (ks@, action@));
            let key = match parse_key_spec(ks.as_str()) {
                Ok(k) => k,
                Err(e) => {
                    let msg = prefixed_binding_error(prefix, ks, &e);
                    proof { lemma_build_error_persists(bv, prefix@, (i + 1) as int, bv.len() as int); }
                    assert(bv.take(bv.len() as int) =~= bv);
                    return Err(msg);
                },
            };
            match reject_forbidden_key(&key, ks.as_str()) {
                Ok(()) => {},
                Err(e) => {
                    let mut out: Vec<char> = Vec::new();
                    push_str(&mut out, prefix);
                    push_str(&mut out, e.as_str());
                    let msg = string_of(out.as_slice());
                    assert(msg@ =~= prefix@ + ("'"@ + ks@ + "' is part of a multi-key sequence and cannot be rebound"@));
                    proof { lemma_build_error_persists(bv, prefix@, (i + 1) as int, bv.len() as int); }
                    assert(bv.take(bv.len() as int) =~= bv);
                    return Err(msg);
                },
            }
            let target = match parse_action(action.as_str()) {
                Ok(t) => t,
                Err(e) => {
                    let msg = prefixed_binding_error(prefix, ks, &e);
                    proof { lemma_build_error_persists(bv, prefix@, (i + 1) as int, bv.len() as int); }
                    assert(bv.take(bv.len() as int) =~= bv);
                    return Err(msg);
                },
            };
            map.insert(key, target);
            i = i + 1;
        }
        assert(bv.take(bv.len() as int) =~= bv);
        Ok(map)
    }

    /// Keys bound to each named command, shown as the help overlay lists
    /// them, in binding order. Shell bindings are left out.
    pub fn user_keys_by_command_name(&self) -> (r: StringHashMap<Vec<String>>)
        ensures
            forall|n: Seq<char>| #[trigger] r@.contains_key(n) <==> keys_for(self.table(), n).len() > 0,
            forall|n: Seq<char>| #[trigger] r@.contains_key(n) ==> string_views(r@[n]@) == keys_for(self.table(), n),
    {
        let ghost t = self.table();
        let mut out: StringHashMap<Vec<String>> = StringHashMap::new();
        let mut i: usize = 0;
        while i < self.entries.len()
            invariant
                i <= self.entries@.len(),
                t == self.table(),
                t == entries_view(self.entries@),
                forall|n: Seq<char>| #[trigger] out@.contains_key(n) <==> keys_for(t.take(i as int), n).len() > 0,
                forall|n: Seq<char>| #[trigger] out@.contains_key(n) ==> string_views(out@[n]@) == keys_for(t.take(i as int), n),
            decreases self.entries@.len() - i,
        {
            let ghost ti = t.take(i + 1);
            assert(ti.drop_last() =~= t.take(i as int));
            assert(ti.last() == t[i as int]);
            let (key, target) = &self.entries[i];
            let mut named: Option<&'static str> = None;
            if let BindingTargetOf::Command(cmd) = target {
                named = command_to_kebab(cmd);
            }
            match named {
                Some(name) => {
                    let shown = format_key_event(*key);
                    let mut list: Vec<String> = match out.get(name) {
                        Some(v) => v.clone(),
                        None => Vec::new(),
                    };
                    proof {
                        if out@.contains_key(name@) {
                            assert(string_views(list@) =~= string_views(out@[name@]@)) by {
                                assert forall|k: int| 0 <= k < list@.len() implies list@[k] == out@[name@]@[k] by {
                                    assert(cloned::<String>(out@[name@]@[k], list@[k]));
                                }
                            }
                        } else {
                            assert(string_views(list@) =~= seq![]);
                        }
                    }
                    let ghost before = list@;
                    list.push(shown);
                    proof {
                        lemma_views_push(before, shown);
                    }
                    out.insert(String::from_str(name), list);
                    proof {
                        assert forall|n: Seq<char>| #[trigger] out@.contains_key(n) <==> keys_for(ti, n).len() > 0 by {
                            if n != name@ {
                                assert(keys_for(ti, n) == keys_for(t.take(i as int), n));
                            }
                        }
                        assert forall|n: Seq<char>| #[trigger] out@.contains_key(n) implies string_views(out@[n]@) == keys_for(ti, n) by {
                            if n != name@ {
                                assert(keys_for(ti, n) == keys_for(t.take(i as int), n));
                            }
                        }
                    }
                },
                None => {
                    proof {
                        assert forall|n: Seq<char>| keys_for(ti, n) == keys_for(t.take(i as int), n) by {}
                    }
                },
            }
            i = i + 1;
        }
        assert(t.take(t.len() as int) =~= t);
        out
    }
}

impl Clone for KeyMap {
    /// A copy with the same keys, in the same order.
    fn clone(&self) -> (c: Self)
        ensures
            c.table().len() == self.table().len(),
            forall|i: int| 0 <= i < c.table().len() ==> #[trigger] c.table()[i].0 == self.table()[i].0,
    {
        proof {
            use_type_invariant(self);
        }
        let ghost t = self.table();
        let mut entries: Vec<(KeyEvent, BindingTarget)> = Vec::new();
        let mut i: usize = 0;
        while i < self.entries.len()
            invariant
                i <= self.entries@.len(),
                t == entries_view(self.entries@),
                distinct_keys(t),
                entries@.len() == i,
                forall|j: int| 0 <= j < i ==> #[trigger] entries@[j].0 == t[j].0,
            decreases self.entries@.len() - i,
        {
            let k = self.entries[i].0;
            let v = self.entries[i].1.clone();
            entries.push((k, v));
            i = i + 1;
        }
        proof {
            let nt = entries_view(entries@);
            assert forall|a: int, b: int| 0 <= a < b < nt.len() implies
                !keys_equal(#[trigger] nt[a].0, #[trigger] nt[b].0) by {
                assert(nt[a].0 == t[a].0 && nt[b].0 == t[b].0);
            }
        }
        KeyMap { entries }
    }
}

/// The command name a binding targets, if it targets a named command.
pub open spec fn target_name(v: TargetView) -> Option<Seq<char>> {
    match v {
        BindingTargetOf::Command(c) => command_kebab(c),
        BindingTargetOf::Shell(_) => None,
    }
}

/// The keys, in binding order and as shown in help, bound to the command
/// named `n`.
pub open spec fn keys_for(t: Seq<(KeyEvent, TargetView)>, n: Seq<char>) -> Seq<Seq<char>>
    decreases t.len(),
{
    if t.len() == 0 {
        seq![]
    } else {
        keys_for(t.drop_last(), n) + (if target_name(t.last().1) == Some(n) {
            seq![key_event_text(t.last().0)]
        } else {
            seq![]
        })
    }
}

proof fn lemma_views_push(v: Seq<String>, x: String)
    ensures
        string_views(v.push(x)) == string_views(v).push(x@),
{
    assert(string_views(v.push(x)) =~= string_views(v).push(x@));
}

fn prefixed_binding_error(prefix: &str, ks: &String, e: &String) -> (s: String)
    ensures
        s@ == prefix@ + "'"@ + ks@ + "': "@ + e@,
{
    let mut out: Vec<char> = Vec::new();
    push_str(&mut out, prefix);
    push_str(&mut out, "'");
    push_str(&mut out, ks.as_str());
    push_str(&mut out, "': ");
    push_str(&mut out, e.as_str());
    string_of(out.as_slice())
}

/// Once a prefix of the bindings fails, longer prefixes fail the same way.
proof fn lemma_build_error_persists(bv: Seq<(Seq<char>, Seq<char>)>, prefix: Seq<char>, i: int, n: int)
    requires
        0 <= i <= n <= bv.len(),
        build_table(bv.take(i), prefix) is Err,
    ensures
        build_table(bv.take(n), prefix) == build_table(bv.take(i), prefix),
    decreases n - i,
{
    if i < n {
        assert(bv.take(i + 1).drop_last() =~= bv.take(i));
        lemma_build_error_persists(bv, prefix, i + 1, n);
    }
}

/// When no entry from `i` on is the same key, none at any later index is.
proof fn lemma_find_key_none(t: Seq<(KeyEvent, TargetView)>, k: KeyEvent, i: int, a: int)
    requires
        0 <= i <= a < t.len(),
        find_key(t, k, i) is None,
    ensures
        !keys_equal(t[a].0, k),
    decreases a - i,
{
    if i < a {
        lemma_find_key_none(t, k, i + 1, a);
    }
}

/// Set `k` to `v` in a table of bindings: replace the value of an equal
/// key spec where there is one, else append.
pub open spec fn binding_insert(t: Seq<(Seq<char>, Seq<char>)>, k: Seq<char>, v: Seq<char>) -> Seq<(Seq<char>, Seq<char>)> {
    if exists|i: int| 0 <= i < t.len() && (#[trigger] t[i]).0 == k {
        let i = choose|i: int| 0 <= i < t.len() && (#[trigger] t[i]).0 == k;
        t.update(i, (k, v))
    } else {
        t.push((k, v))
    }
}

/// Merge layers of bindings in order: each key spec once, the last value
/// given for it winning.
pub open spec fn merge_bindings(t: Seq<(Seq<char>, Seq<char>)>, bs: Seq<(Seq<char>, Seq<char>)>) -> Seq<(Seq<char>, Seq<char>)>
    decreases bs.len(),
{
    if bs.len() == 0 {
        t
    } else {
        let m = merge_bindings(t, bs.drop_last());
        binding_insert(m, bs.last().0, bs.last().1)
    }
}

/// Key specs occur at most once.
pub open spec fn specs_distinct(t: Seq<(Seq<char>, Seq<char>)>) -> bool {
    forall|i: int, j: int| 0 <= i < j < t.len() ==> (#[trigger] t[i]).0 != (#[trigger] t[j]).0
}

impl KeyMap {
    /// Build the table from two layers of `keys.toml` bindings: merged per
    /// key spec with the local layer winning, then parsed as
    /// `from_bindings` does.
    pub fn from_layers(global: &[(String, String)], local: &[(String, String)], prefix: &str) -> (r: Result<Self, String>)
        requires
            global@.len() + local@.len() <= usize::MAX,
        ensures
            match build_table(merge_bindings(seq![], pairs_view(global@) + pairs_view(local@)), prefix@) {
                Ok(t) => (r matches Ok(m) && m.table() == t),
                Err(e) => (r matches Err(m) && m@ == e),
            },
    {
        let ghost all = pairs_view(global@) + pairs_view(local@);
        let mut merged: Vec<(String, String)> = Vec::new();
        let total = global.len() + local.len();
        let mut i: usize = 0;
        proof {
            assert(all.take(0) =~= Seq::<(Seq<char>, Seq<char>)>::empty());
            assert(pairs_view(merged@) =~= Seq::<(Seq<char>, Seq<char>)>::empty());
        }
        while i < total
            invariant
                i <= total,
                total == global@.len() + local@.len(),
                all == pairs_view(global@) + pairs_view(local@),
                pairs_view(merged@) == merge_bindings(seq![], all.take(i as int)),
                specs_distinct(pairs_view(merged@)),
            decreases total - i,
        {
            let (k, v) = if i < global.len() {
                (&global[i].0, &global[i].1)
            } else {
                (&local[i - global.len()].0, &local[i - global.len()].1)
            };
            assert((k@, v@) == all[i as int]);
            assert(all.take(i + 1).drop_last() =~= all.take(i as int));
            let ghost before = pairs_view(merged@);
            let kc = chars_of(k.as_str());
            let mut j: usize = 0;
            let mut found = false;
            while j < merged.len() && !found
                invariant
                    j <= merged@.len(),
                    before == pairs_view(merged@),
                    kc@ == k@,
                    forall|x: int| 0 <= x < j ==> #[trigger] before[x].0 != k@,
                    found ==> j < merged@.len() && before[j as int].0 == k@,
                decreases merged@.len() - j + (if found { 0int } else { 1int }),
            {
                if eq_lit(kc.as_slice(), merged[j].0.as_str()) {
                    found = true;
                } else {
                    j = j + 1;
                }
            }
            if found {
                merged.set(j, (k.clone(), v.clone()));
                proof {
                    let w = choose|x: int| 0 <= x < before.len() && (#[trigger] before[x]).0 == k@;
                    assert(w == j) by {
                        if w != j {
                            assert(before[w].0 == before[j as int].0);
                        }
                    }
                    assert(pairs_view(merged@) =~= before.update(j as int, (k@, v@)));
                }
            } else {
                merged.push((k.clone(), v.clone()));
                proof {
                    assert(pairs_view(merged@) =~= before.push((k@, v@)));
                }
            }
            i = i + 1;
        }
        assert(all.take(total as int) =~= all);
        Self::from_bindings(merged.as_slice(), prefix)
    }
}

} // verus!
