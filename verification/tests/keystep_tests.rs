use tess::input::{Command, KeyCode, KeyEvent, MOD_CONTROL, MOD_NONE};
use tess::keystep::{goto_target, key_step, GotoTarget, KeyAction, KeyState, PendingMode, PrettifyChoice, MAX_PREFIX};

fn normal(prefix: Option<usize>) -> KeyState {
    KeyState { mode: PendingMode::Normal, prefix }
}

fn key(c: char) -> Option<KeyEvent> {
    Some(KeyEvent { code: KeyCode::Char(c), modifiers: MOD_NONE })
}

fn ctrl(c: char) -> Option<KeyEvent> {
    Some(KeyEvent { code: KeyCode::Char(c), modifiers: MOD_CONTROL })
}

#[test]
fn digits_build_a_decimal_prefix() {
    let (s, a) = key_step(normal(None), key('4'), Command::Digit(4));
    assert_eq!(a, KeyAction::Nothing);
    assert_eq!(s, normal(Some(4)));
    let (s, a) = key_step(s, key('2'), Command::Digit(2));
    assert_eq!(a, KeyAction::Nothing);
    assert_eq!(s, normal(Some(42)));
}

#[test]
fn prefix_is_handed_to_the_command_and_cleared() {
    let (s, a) = key_step(normal(Some(42)), key('j'), Command::ScrollLines(1));
    assert_eq!(a, KeyAction::Run(Command::ScrollLines(1), Some(42)));
    assert_eq!(s, normal(None));
}

#[test]
fn digit_past_the_limit_is_ignored() {
    let (s, a) = key_step(normal(Some(MAX_PREFIX)), key('7'), Command::Digit(7));
    assert_eq!(a, KeyAction::Nothing);
    assert_eq!(s, normal(Some(MAX_PREFIX)));
    let (s, _) = key_step(normal(Some(9_999_999)), key('9'), Command::Digit(9));
    assert_eq!(s, normal(Some(99_999_999)));
}

#[test]
fn escape_drops_the_prefix() {
    let (s, a) = key_step(normal(Some(12)), None, Command::Cancel);
    assert_eq!(a, KeyAction::Nothing);
    assert_eq!(s, normal(None));
}

#[test]
fn option_prefix_then_n_toggles_line_numbers() {
    let (s, a) = key_step(normal(Some(3)), key('-'), Command::OptionPrefix);
    assert_eq!(a, KeyAction::Nothing);
    assert_eq!(s, KeyState { mode: PendingMode::OptionPrefix, prefix: None });
    let (s, a) = key_step(s, key('n'), Command::Noop);
    assert_eq!(a, KeyAction::ToggleLineNumbers);
    assert_eq!(s, normal(None));
    let (_, a) = key_step(KeyState { mode: PendingMode::OptionPrefix, prefix: None }, key('S'), Command::Noop);
    assert_eq!(a, KeyAction::ToggleChop);
    let (_, a) = key_step(KeyState { mode: PendingMode::OptionPrefix, prefix: None }, key('f'), Command::Noop);
    assert_eq!(a, KeyAction::ToggleFollow);
    let (s, a) = key_step(KeyState { mode: PendingMode::OptionPrefix, prefix: None }, key('q'), Command::Quit);
    assert_eq!(a, KeyAction::Redraw);
    assert_eq!(s, normal(None));
}

#[test]
fn option_p_then_j_prettifies_as_json() {
    let (s, a) = key_step(KeyState { mode: PendingMode::OptionPrefix, prefix: None }, key('P'), Command::Noop);
    assert_eq!(a, KeyAction::Redraw);
    assert_eq!(s.mode, PendingMode::PrettifyPrefix);
    let (s, a) = key_step(s, key('j'), Command::Noop);
    assert_eq!(a, KeyAction::Prettify(PrettifyChoice::Json));
    assert_eq!(s, normal(None));
    let pp = KeyState { mode: PendingMode::PrettifyPrefix, prefix: None };
    assert_eq!(key_step(pp, key('r'), Command::Noop).1, KeyAction::Prettify(PrettifyChoice::Off));
    assert_eq!(key_step(pp, key('A'), Command::Noop).1, KeyAction::Prettify(PrettifyChoice::Auto));
    assert_eq!(key_step(pp, key('z'), Command::Noop).1, KeyAction::Redraw);
}

#[test]
fn marks_take_the_next_character() {
    let (s, _) = key_step(normal(None), key('m'), Command::MarkSet);
    assert_eq!(s.mode, PendingMode::MarkSet);
    let (s, a) = key_step(s, key('a'), Command::Noop);
    assert_eq!(a, KeyAction::SetMark('a'));
    assert_eq!(s, normal(None));
    let (s, _) = key_step(s, key('\''), Command::MarkJump);
    assert_eq!(s.mode, PendingMode::MarkJump);
    let (_, a) = key_step(s, key('a'), Command::Noop);
    assert_eq!(a, KeyAction::JumpToMark('a'));
    let (s, a) = key_step(KeyState { mode: PendingMode::MarkSet, prefix: None }, None, Command::Noop);
    assert_eq!(a, KeyAction::Nothing);
    assert_eq!(s, normal(None));
}

#[test]
fn ctrl_x_chord() {
    let (s, _) = key_step(normal(None), ctrl('x'), Command::CtrlXPrefix);
    assert_eq!(s.mode, PendingMode::CtrlX);
    let (s2, a) = key_step(s, ctrl('x'), Command::CtrlXPrefix);
    assert_eq!(a, KeyAction::JumpPrevious);
    assert_eq!(s2, normal(None));
    let (_, a) = key_step(s, key('z'), Command::Noop);
    assert_eq!(a, KeyAction::ToggleZoom);
    let (s3, a) = key_step(s, key('j'), Command::ScrollLines(1));
    assert_eq!(a, KeyAction::Run(Command::ScrollLines(1), None));
    assert_eq!(s3, normal(None));
}

#[test]
fn goto_targets_follow_the_prefix() {
    assert_eq!(goto_target(Command::GotoLine, Some(42)), Some(GotoTarget::Line(41)));
    assert_eq!(goto_target(Command::GotoLine, None), Some(GotoTarget::Top));
    assert_eq!(goto_target(Command::GotoLine, Some(0)), Some(GotoTarget::Top));
    assert_eq!(goto_target(Command::GotoRecord, Some(3)), Some(GotoTarget::Record(2)));
    assert_eq!(goto_target(Command::GotoRecord, None), Some(GotoTarget::Bottom));
    assert_eq!(goto_target(Command::GotoPercent, Some(50)), Some(GotoTarget::Percent(50)));
    assert_eq!(goto_target(Command::GotoPercent, Some(101)), Some(GotoTarget::Top));
    assert_eq!(goto_target(Command::Quit, Some(5)), None);
}
