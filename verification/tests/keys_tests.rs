use tess::input::{translate, translate_key, Command, InputEvent, KeyCode, KeyEvent, MOD_ALT, MOD_CONTROL, MOD_NONE, MOD_SHIFT};
use tess::keymap::{key_registry, Category};
use tess::keys::{
    command_from_kebab, command_to_kebab, format_key_event, parse_action, parse_key_spec,
    reject_forbidden_key, BindingTarget, KeyMap,
};

#[test]
fn command_kebab_round_trip() {
    let names = [
        "scroll-down", "scroll-up", "scroll-logical-down", "scroll-logical-up",
        "page-down", "page-up", "half-page-down", "half-page-up",
        "quit", "refresh", "reload",
        "toggle-line-numbers", "toggle-chop", "toggle-follow", "toggle-prettify",
        "search-forward", "search-backward", "next-match", "previous-match",
        "option-prefix", "goto-line", "goto-record", "goto-percent",
        "mark-set", "mark-jump", "ctrl-x-prefix", "jump-previous",
        "shell-escape", "cancel",
        "hscroll-left", "hscroll-right", "hscroll-left-step", "hscroll-right-step",
        "clipboard-yank-line",
        "anim-pause", "anim-step-forward", "anim-step-back", "anim-restart",
        "focus-other-pane", "focus-prev-pane", "scroll-lock-toggle", "zoom-pane", "mouse-toggle",
        "diff-next-change", "diff-prev-change",
    ];
    for name in &names {
        let cmd = command_from_kebab(name).expect(&format!("from_kebab failed for {name}"));
        let back = command_to_kebab(&cmd).expect(&format!("to_kebab failed for {name}"));
        assert_eq!(back, *name, "round-trip mismatch for {name}");
    }
}

#[test]
fn command_names_are_unique() {
    let mut seen = std::collections::HashSet::new();
    for entry in key_registry() {
        assert!(seen.insert(entry.command_name), "duplicate command_name in KEY_REGISTRY: {}", entry.command_name);
    }
}

#[test]
fn every_category_has_at_least_one_entry() {
    let reg = key_registry();
    for cat in Category::order() {
        assert!(reg.iter().any(|e| e.category == cat), "no entries in category {:?}", cat);
    }
}

#[test]
fn category_labels() {
    assert_eq!(Category::Movement.label(), "Movement");
    assert_eq!(Category::Misc.label(), "Misc");
}

fn bindings(pairs: &[(&str, &str)]) -> Vec<(String, String)> {
    pairs.iter().map(|(k, v)| (k.to_string(), v.to_string())).collect()
}

#[test]
fn parse_single_binding() {
    let m = KeyMap::from_bindings(&bindings(&[("j", "scroll-down")]), "").unwrap();
    let key = KeyEvent::new(KeyCode::Char('j'), MOD_NONE);
    assert!(matches!(m.lookup(&key), Some(BindingTarget::Command(Command::ScrollLines(1)))));
}

#[test]
fn parse_named_special_key() {
    let m = KeyMap::from_bindings(&bindings(&[("f1", "toggle-line-numbers"), ("esc", "cancel")]), "").unwrap();
    assert!(matches!(m.lookup(&KeyEvent::new(KeyCode::F(1), MOD_NONE)), Some(BindingTarget::Command(Command::ToggleLineNumbers))));
    assert!(matches!(m.lookup(&KeyEvent::new(KeyCode::Esc, MOD_NONE)), Some(BindingTarget::Command(Command::Cancel))));
}

#[test]
fn parse_modifier_combinations() {
    let m = KeyMap::from_bindings(&bindings(&[("ctrl-r", "reload"), ("shift-tab", "scroll-logical-up")]), "").unwrap();
    assert!(matches!(m.lookup(&KeyEvent::new(KeyCode::Char('r'), MOD_CONTROL)), Some(BindingTarget::Command(Command::Reload))));
    assert!(matches!(m.lookup(&KeyEvent::new(KeyCode::Tab, MOD_SHIFT)), Some(BindingTarget::Command(Command::ScrollLogicalLines(-1)))));
}

#[test]
fn case_letter_resolves_to_shift_prefix() {
    let m = KeyMap::from_bindings(&bindings(&[("J", "scroll-logical-down")]), "").unwrap();
    let shift_j = KeyEvent::new(KeyCode::Char('j'), MOD_SHIFT);
    assert!(matches!(m.lookup(&shift_j), Some(BindingTarget::Command(Command::ScrollLogicalLines(1)))));
    // The terminal reports Shift-J as an uppercase letter; it is the same key.
    let reported = KeyEvent::new(KeyCode::Char('J'), MOD_SHIFT);
    assert!(m.lookup(&reported).is_some());
}

#[test]
fn forbidden_keys_error_at_parse() {
    for key in &["m", "'", "-", "ctrl-x", "0", "5", "9"] {
        let err = KeyMap::from_bindings(&bindings(&[(key, "quit")]), "").unwrap_err();
        assert!(err.contains("multi-key sequence"), "key '{key}' should be forbidden: {err}");
    }
}

#[test]
fn unknown_command_name_errors() {
    let err = KeyMap::from_bindings(&bindings(&[("j", "definitely-not-a-real-command")]), "").unwrap_err();
    assert!(err.contains("unknown command"));
}

#[test]
fn empty_shell_binding_errors() {
    let err = KeyMap::from_bindings(&bindings(&[("f1", "!")]), "").unwrap_err();
    assert!(err.contains("requires a command"));
}

#[test]
fn parse_inline_shell_binding() {
    let m = KeyMap::from_bindings(&bindings(&[("f2", "!git status")]), "").unwrap();
    match m.lookup(&KeyEvent::new(KeyCode::F(2), MOD_NONE)) {
        Some(BindingTarget::Shell(cmd)) => assert_eq!(cmd, "git status"),
        other => panic!("expected Shell, got {:?}", other),
    }
}

#[test]
fn lookup_returns_none_for_unbound_key() {
    let m = KeyMap::from_bindings(&bindings(&[("j", "scroll-down")]), "").unwrap();
    assert!(m.lookup(&KeyEvent::new(KeyCode::Char('k'), MOD_NONE)).is_none());
}

#[test]
fn ctrl_uppercase_letter_does_not_add_shift() {
    let m = KeyMap::from_bindings(&bindings(&[("ctrl-J", "reload")]), "").unwrap();
    let ctrl_j = KeyEvent::new(KeyCode::Char('j'), MOD_CONTROL);
    assert!(matches!(m.lookup(&ctrl_j), Some(BindingTarget::Command(Command::Reload))));
    let ctrl_shift_j = KeyEvent::new(KeyCode::Char('j'), MOD_CONTROL | MOD_SHIFT);
    assert!(m.lookup(&ctrl_shift_j).is_none());
}

#[test]
fn user_remaps_by_command_name_groups_keys() {
    let m = KeyMap::from_bindings(&bindings(&[("f3", "scroll-down"), ("f4", "scroll-down"), ("f5", "quit")]), "").unwrap();
    let groups = m.user_keys_by_command_name();
    let mut down = groups.get("scroll-down").cloned().unwrap_or_default();
    down.sort();
    assert_eq!(down, vec!["F3".to_string(), "F4".to_string()]);
    assert_eq!(groups.get("quit").cloned().unwrap_or_default(), vec!["F5".to_string()]);
}

#[test]
fn dash_with_modifier_is_a_real_key() {
    let m = KeyMap::from_bindings(&bindings(&[("ctrl--", "refresh")]), "").unwrap();
    assert!(matches!(m.lookup(&KeyEvent::new(KeyCode::Char('-'), MOD_CONTROL)), Some(BindingTarget::Command(Command::Refresh))));
}

#[test]
fn format_key_event_renders_modifier_combos() {
    assert_eq!(format_key_event(KeyEvent::new(KeyCode::Char('r'), MOD_CONTROL)), "Ctrl-r");
    assert_eq!(format_key_event(KeyEvent::new(KeyCode::Char('j'), MOD_SHIFT)), "J");
    assert_eq!(format_key_event(KeyEvent::new(KeyCode::Tab, MOD_SHIFT)), "Shift-Tab");
    assert_eq!(format_key_event(KeyEvent::new(KeyCode::Char('j'), MOD_NONE)), "j");
    assert_eq!(format_key_event(KeyEvent::new(KeyCode::F(3), MOD_NONE)), "F3");
    assert_eq!(format_key_event(KeyEvent::new(KeyCode::Char('x'), MOD_CONTROL | MOD_SHIFT)), "Ctrl-Shift-x");
    assert_eq!(format_key_event(KeyEvent::new(KeyCode::Up, MOD_NONE)), "\u{2191}");
    assert_eq!(format_key_event(KeyEvent::new(KeyCode::Char(' '), MOD_NONE)), "Space");
}

#[test]
fn hscroll_names_resolve_to_commands() {
    let m = KeyMap::from_bindings(&bindings(&[("f6", "hscroll-right")]), "").unwrap();
    assert!(matches!(m.lookup(&KeyEvent::new(KeyCode::F(6), MOD_NONE)), Some(BindingTarget::Command(Command::HScrollRight))));
    assert!(matches!(command_from_kebab("hscroll-left"), Some(Command::HScrollLeft)));
    assert!(matches!(command_from_kebab("hscroll-left-step"), Some(Command::HScrollLeftStep)));
    assert!(matches!(command_from_kebab("hscroll-right-step"), Some(Command::HScrollRightStep)));
}

#[test]
fn binds_scroll_lock_toggle_from_config() {
    let m = KeyMap::from_bindings(&bindings(&[("=", "scroll-lock-toggle")]), "").unwrap();
    assert!(matches!(m.lookup(&KeyEvent::new(KeyCode::Char('='), MOD_NONE)), Some(BindingTarget::Command(Command::ToggleScrollLock))));
}

#[test]
fn shell_bindings_are_excluded_from_user_keys() {
    let m = KeyMap::from_bindings(&bindings(&[("f2", "!git status"), ("f3", "scroll-down")]), "").unwrap();
    let groups = m.user_keys_by_command_name();
    assert!(groups.get("shell-escape").is_none());
    assert_eq!(groups.get("scroll-down").cloned().unwrap_or_default(), vec!["F3".to_string()]);
}

#[test]
fn parse_empty_file_returns_empty_map() {
    let m = KeyMap::from_bindings(&[], "").unwrap();
    assert!(m.is_empty());
}

#[test]
fn later_binding_of_same_key_wins() {
    let m = KeyMap::from_bindings(&bindings(&[("j", "scroll-down"), ("j", "page-down")]), "").unwrap();
    assert!(matches!(m.lookup(&KeyEvent::new(KeyCode::Char('j'), MOD_NONE)), Some(BindingTarget::Command(Command::PageDown))));
}

#[test]
fn error_prefix_leads_messages() {
    let err = KeyMap::from_bindings(&bindings(&[("hyper-j", "quit")]), "keys.toml: ").unwrap_err();
    assert_eq!(err, "keys.toml: 'hyper-j': unknown modifier 'hyper'");
    let err = KeyMap::from_bindings(&bindings(&[("m", "quit")]), "keys.toml: ").unwrap_err();
    assert_eq!(err, "keys.toml: 'm' is part of a multi-key sequence and cannot be rebound");
}

#[test]
fn key_spec_parsing_edge_cases() {
    assert_eq!(parse_key_spec("f12").unwrap(), KeyEvent::new(KeyCode::F(12), MOD_NONE));
    assert_eq!(parse_key_spec("f999").unwrap_err(), "unknown key 'f999'");
    assert_eq!(parse_key_spec("space").unwrap(), KeyEvent::new(KeyCode::Char(' '), MOD_NONE));
    assert_eq!(parse_key_spec("").unwrap(), KeyEvent::new(KeyCode::Char('-'), MOD_NONE));
    assert!(reject_forbidden_key(&KeyEvent::new(KeyCode::Char('x'), MOD_CONTROL), "ctrl-x").is_err());
    assert!(reject_forbidden_key(&KeyEvent::new(KeyCode::Char('x'), MOD_NONE), "x").is_ok());
    assert!(matches!(parse_action("!ls"), Ok(BindingTarget::Shell(s)) if s == "ls"));
}

#[test]
fn default_translation() {
    assert_eq!(translate_key(KeyCode::Down, MOD_NONE), Command::ScrollLines(1));
    assert_eq!(translate_key(KeyCode::Char('c'), MOD_CONTROL), Command::Quit);
    assert_eq!(translate_key(KeyCode::Char('G'), MOD_SHIFT), Command::GotoRecord);
    assert_eq!(translate_key(KeyCode::Char('p'), MOD_NONE), Command::Noop);
    assert_eq!(translate(InputEvent::Resize(80, 24)), Command::Resize(80, 24));
    for d in 0u8..=9 {
        let ch = char::from_digit(d as u32, 10).unwrap();
        assert_eq!(translate_key(KeyCode::Char(ch), MOD_NONE), Command::Digit(d));
    }
}

/// The key event that a registry key spec names, when it names a single
/// keystroke (not a colon command or a key sequence).
fn parse_canonical_key(spec: &str) -> Option<KeyEvent> {
    if spec.starts_with(':') || spec.contains(' ') || spec.contains('<') {
        return None;
    }
    let lower = spec.to_lowercase();
    let mut parts: Vec<&str> = lower.split('-').collect();
    let key_part = parts.pop()?;
    let mut modifiers = MOD_NONE;
    for m in &parts {
        match *m {
            "ctrl" => modifiers |= MOD_CONTROL,
            "alt" => modifiers |= MOD_ALT,
            "shift" => modifiers |= MOD_SHIFT,
            _ => return None,
        }
    }
    let code = match key_part {
        "esc" => KeyCode::Esc,
        "enter" => KeyCode::Enter,
        "tab" => KeyCode::Tab,
        "backspace" => KeyCode::Backspace,
        "space" => KeyCode::Char(' '),
        "\u{2191}" | "up" => KeyCode::Up,
        "\u{2193}" | "down" => KeyCode::Down,
        "\u{2190}" | "left" => KeyCode::Left,
        "\u{2192}" | "right" => KeyCode::Right,
        "pgup" => KeyCode::PageUp,
        "pgdn" => KeyCode::PageDown,
        "home" => KeyCode::Home,
        "end" => KeyCode::End,
        s if s.starts_with('f') && s.len() > 1 => {
            let n: u8 = s[1..].parse().ok()?;
            KeyCode::F(n)
        }
        s if s.chars().count() == 1 => {
            let ch = spec.chars().last()?;
            if ch.is_ascii_uppercase() && modifiers == MOD_NONE {
                modifiers |= MOD_SHIFT;
                KeyCode::Char(ch)
            } else {
                KeyCode::Char(ch.to_ascii_lowercase())
            }
        }
        _ => return None,
    };
    Some(KeyEvent::new(code, modifiers))
}

#[test]
fn registry_matches_translate_for_single_key_entries() {
    for entry in key_registry() {
        for &key in &entry.keys {
            let Some(ke) = parse_canonical_key(key) else { continue };
            let cmd = translate(InputEvent::Key(ke));
            if key.starts_with(':') {
                continue;
            }
            assert_eq!(
                cmd, entry.command,
                "registry/translate drift: key={:?} entry={:?} translate returned {:?} but registry says {:?}",
                key, entry.command_name, cmd, entry.command,
            );
        }
    }
}
