use tess::input::{translate, Command, InputEvent, KeyCode, KeyEvent, MOD_CONTROL, MOD_NONE, MOD_SHIFT};

fn key(code: KeyCode, mods: u8) -> InputEvent {
    InputEvent::Key(KeyEvent::new(code, mods))
}

#[test]
fn arrow_down_scrolls_one() {
    assert_eq!(translate(key(KeyCode::Down, MOD_NONE)), Command::ScrollLines(1));
}

#[test]
fn j_scrolls_one() {
    assert_eq!(translate(key(KeyCode::Char('j'), MOD_NONE)), Command::ScrollLines(1));
}

#[test]
fn space_pages_down() {
    assert_eq!(translate(key(KeyCode::Char(' '), MOD_NONE)), Command::PageDown);
}

#[test]
fn ctrl_c_quits() {
    assert_eq!(translate(key(KeyCode::Char('c'), MOD_CONTROL)), Command::Quit);
}

#[test]
fn capital_g_goes_to_record() {
    assert_eq!(translate(key(KeyCode::Char('G'), MOD_SHIFT)), Command::GotoRecord);
}

#[test]
fn lowercase_g_goes_to_line() {
    assert_eq!(translate(key(KeyCode::Char('g'), MOD_NONE)), Command::GotoLine);
}

#[test]
fn percent_goes_to_percent() {
    assert_eq!(translate(key(KeyCode::Char('%'), MOD_NONE)), Command::GotoPercent);
}

#[test]
fn digit_keys_produce_digit_commands() {
    for d in 0u8..=9 {
        let ch = char::from_digit(d as u32, 10).unwrap();
        assert_eq!(
            translate(key(KeyCode::Char(ch), MOD_NONE)),
            Command::Digit(d),
        );
    }
}

#[test]
fn esc_produces_cancel() {
    assert_eq!(translate(key(KeyCode::Esc, MOD_NONE)), Command::Cancel);
}

#[test]
fn capital_j_jumps_one_logical_line_forward() {
    assert_eq!(translate(key(KeyCode::Char('J'), MOD_SHIFT)), Command::ScrollLogicalLines(1));
}

#[test]
fn capital_k_jumps_one_logical_line_backward() {
    assert_eq!(translate(key(KeyCode::Char('K'), MOD_SHIFT)), Command::ScrollLogicalLines(-1));
}

#[test]
fn capital_f_toggles_follow() {
    assert_eq!(translate(key(KeyCode::Char('F'), MOD_SHIFT)), Command::ToggleFollow);
}

#[test]
fn lowercase_f_still_pages_down() {
    assert_eq!(translate(key(KeyCode::Char('f'), MOD_NONE)), Command::PageDown);
}

#[test]
fn slash_opens_forward_search() {
    assert_eq!(translate(key(KeyCode::Char('/'), MOD_NONE)), Command::SearchForward);
}

#[test]
fn question_mark_opens_backward_search() {
    // `?` arrives as Char('?') with SHIFT on most layouts.
    assert_eq!(translate(key(KeyCode::Char('?'), MOD_SHIFT)), Command::SearchBackward);
}

#[test]
fn n_repeats_match_forward() {
    assert_eq!(translate(key(KeyCode::Char('n'), MOD_NONE)), Command::NextMatch);
}

#[test]
fn capital_n_repeats_match_backward() {
    assert_eq!(translate(key(KeyCode::Char('N'), MOD_SHIFT)), Command::PreviousMatch);
}

#[test]
fn capital_r_triggers_reload() {
    assert_eq!(translate(key(KeyCode::Char('R'), MOD_SHIFT)), Command::Reload);
}

#[test]
fn lowercase_r_still_refreshes() {
    assert_eq!(translate(key(KeyCode::Char('r'), MOD_NONE)), Command::Refresh);
}

#[test]
fn capital_p_toggles_prettify() {
    assert_eq!(translate(key(KeyCode::Char('P'), MOD_SHIFT)), Command::TogglePrettify);
}

#[test]
fn lowercase_p_remains_unbound() {
    assert_eq!(translate(key(KeyCode::Char('p'), MOD_NONE)), Command::Noop);
}

#[test]
fn dash_is_option_prefix() {
    assert_eq!(translate(key(KeyCode::Char('-'), MOD_NONE)), Command::OptionPrefix);
}

#[test]
fn resize_event() {
    assert_eq!(translate(InputEvent::Resize(80, 24)), Command::Resize(80, 24));
}

#[test]
fn m_key_produces_mark_set_command() {
    let evt = key(KeyCode::Char('m'), MOD_NONE);
    assert_eq!(translate(evt), Command::MarkSet);
}

#[test]
fn single_quote_key_produces_mark_jump_command() {
    let evt = key(KeyCode::Char('\''), MOD_NONE);
    assert_eq!(translate(evt), Command::MarkJump);
}

#[test]
fn ctrl_x_produces_ctrl_x_prefix_command() {
    let evt = key(KeyCode::Char('x'), MOD_CONTROL);
    assert_eq!(translate(evt), Command::CtrlXPrefix);
}

#[test]
fn bang_produces_shell_escape_command() {
    let evt = key(KeyCode::Char('!'), MOD_NONE);
    assert_eq!(translate(evt), Command::ShellEscape);
}

#[test]
fn colon_produces_colon_prompt_command() {
    let evt = InputEvent::Key(KeyEvent::new(KeyCode::Char(':'), MOD_NONE));
    assert_eq!(translate(evt), Command::ColonPrompt);
}
