use tess::app::{ColonCommand, Orientation, ZoomAction};
use tess::input::{Command, KeyCode};
use tess::pager::{
    mouse_route, wheel_action, wheel_lines, MouseContext, MouseKind, MouseRoute, WheelAction,
    open_prompt, prompt_key, prompt_status, split_step, LinePrompt, PromptAction, PromptKind, SearchDirection, SplitActionOf,
    SplitState,
};

fn prompt(kind: PromptKind, text: &str) -> LinePrompt {
    LinePrompt { kind, buffer: text.chars().collect(), error: None }
}

#[test]
fn prompt_typing_and_status() {
    let mut p = prompt(PromptKind::Search(SearchDirection::Forward), "");
    assert_eq!(prompt_key(&mut p, KeyCode::Char('a'), false, None), PromptAction::Redraw);
    assert_eq!(prompt_key(&mut p, KeyCode::Char('b'), true, None), PromptAction::Preview);
    assert_eq!(prompt_status(&p), "/ab");
    p.error = Some("bad".to_string());
    assert_eq!(prompt_status(&p), "/ab  [error: bad]");
    assert_eq!(prompt_key(&mut p, KeyCode::Backspace, false, None), PromptAction::Redraw);
    assert!(p.error.is_none());
    assert_eq!(prompt_status(&p), "/a");
    assert_eq!(prompt_key(&mut p, KeyCode::Left, false, None), PromptAction::Nothing);
    let mut c = prompt(PromptKind::Colon, "n");
    c.error = Some("x".to_string());
    assert_eq!(prompt_status(&c), ":n  [error: x]");
    assert_eq!(prompt_status(&prompt(PromptKind::Shell, "ls")), "!ls");
    assert_eq!(prompt_status(&prompt(PromptKind::Search(SearchDirection::Backward), "q")), "?q");
}

#[test]
fn prompt_enter_and_escape() {
    let mut p = prompt(PromptKind::Search(SearchDirection::Backward), "");
    assert_eq!(
        prompt_key(&mut p, KeyCode::Enter, true, Some(SearchDirection::Forward)),
        PromptAction::RepeatSearch { restore: true, reverse: true }
    );
    assert_eq!(
        prompt_key(&mut p, KeyCode::Enter, false, Some(SearchDirection::Backward)),
        PromptAction::RepeatSearch { restore: false, reverse: false }
    );
    assert_eq!(prompt_key(&mut p, KeyCode::Enter, true, None), PromptAction::Close { restore: true });
    let mut q = prompt(PromptKind::Search(SearchDirection::Forward), "err");
    assert_eq!(prompt_key(&mut q, KeyCode::Enter, true, None), PromptAction::Submit { restore: true });
    assert_eq!(prompt_key(&mut q, KeyCode::Esc, true, None), PromptAction::Close { restore: true });
    let mut s = prompt(PromptKind::Shell, "");
    assert_eq!(prompt_key(&mut s, KeyCode::Enter, true, Some(SearchDirection::Forward)), PromptAction::Close { restore: false });
    let mut c = prompt(PromptKind::Colon, "q");
    assert_eq!(prompt_key(&mut c, KeyCode::Enter, true, None), PromptAction::Submit { restore: false });
}

fn single() -> SplitState {
    SplitState { others: 0, orientation: Orientation::Vertical, scroll_lock: false, diff: None, mouse: true, zoomed: false }
}

type Act = SplitActionOf<String, String>;

fn flash(s: &str) -> Act {
    SplitActionOf::Flash(s.to_string())
}

/// The action with the encoding given by its name, so actions compare.
fn norm(a: SplitActionOf<String, tess::charset::TextEncoding>) -> Act {
    match a {
        SplitActionOf::Nothing => SplitActionOf::Nothing,
        SplitActionOf::Flash(s) => SplitActionOf::Flash(s),
        SplitActionOf::OpenPane { vertical, path } => SplitActionOf::OpenPane { vertical, path },
        SplitActionOf::Relayout => SplitActionOf::Relayout,
        SplitActionOf::CloseOthers => SplitActionOf::CloseOthers,
        SplitActionOf::LoadLayout(s) => SplitActionOf::LoadLayout(s),
        SplitActionOf::CaptureLockOffsets => SplitActionOf::CaptureLockOffsets,
        SplitActionOf::ClearLockOffsets => SplitActionOf::ClearLockOffsets,
        SplitActionOf::SetMouse(on) => SplitActionOf::SetMouse(on),
        SplitActionOf::BuildDiff { ignore_ws, force } => SplitActionOf::BuildDiff { ignore_ws, force },
        SplitActionOf::SetEncoding(e) => SplitActionOf::SetEncoding(e.label().to_string()),
        SplitActionOf::Zoom(z) => SplitActionOf::Zoom(z),
    }
}

fn step(s: SplitState, cmd: ColonCommand, fits: bool, ws: bool, enc: &str) -> (SplitState, ZoomAction, Act) {
    let (s, z, a) = split_step(s, &cmd, fits, fits, ws, enc).unwrap();
    (s, z, norm(a))
}

#[test]
fn split_commands_check_the_layout() {
    let (_, _, a) = step(single(), ColonCommand::VSplit(None), false, false, "UTF-8");
    assert_eq!(a, flash("terminal too narrow to split"));
    let (_, _, a) = step(single(), ColonCommand::HSplit(Some("b".to_string())), true, false, "UTF-8");
    assert_eq!(a, SplitActionOf::OpenPane { vertical: false, path: Some("b".to_string()) });
    let two = SplitState { others: 1, zoomed: true, ..single() };
    let (s, z, a) = step(two, ColonCommand::VSplit(None), true, false, "UTF-8");
    assert_eq!(a, flash("already split (`:only` first)"));
    assert_eq!(z, ZoomAction::RestoreSplit);
    assert!(!s.zoomed);
    let (s, _, a) = step(two, ColonCommand::Rotate, true, false, "UTF-8");
    assert_eq!(a, SplitActionOf::Relayout);
    assert_eq!(s.orientation, Orientation::Horizontal);
    assert_eq!(step(single(), ColonCommand::Rotate, true, false, "").2, flash("no split to rotate"));
    let in_diff = SplitState { diff: Some(false), ..two };
    assert_eq!(step(in_diff, ColonCommand::Rotate, true, false, "").2, flash("can't rotate in diff mode"));
    let (s, _, a) = step(in_diff, ColonCommand::Only, true, false, "");
    assert_eq!(a, SplitActionOf::CloseOthers);
    assert_eq!((s.others, s.diff), (0, None));
}

#[test]
fn scroll_lock_mouse_diff_and_encoding() {
    let two = SplitState { others: 1, ..single() };
    let (s, _, a) = step(two, ColonCommand::ScrollLock, true, false, "");
    assert_eq!(a, SplitActionOf::CaptureLockOffsets);
    assert!(s.scroll_lock);
    assert_eq!(step(s, ColonCommand::ScrollLock, true, false, "").2, SplitActionOf::ClearLockOffsets);
    assert_eq!(step(single(), ColonCommand::ScrollLock, true, false, "").2, flash("scroll-lock needs a split"));
    let (s, _, a) = step(single(), ColonCommand::Mouse(None), true, false, "");
    assert_eq!(a, SplitActionOf::SetMouse(false));
    assert!(!s.mouse);
    assert_eq!(
        step(two, ColonCommand::Diff { force: false }, true, true, "").2,
        SplitActionOf::BuildDiff { ignore_ws: true, force: false }
    );
    let in_diff = SplitState { diff: Some(true), ..two };
    assert_eq!(
        step(in_diff, ColonCommand::DiffToggleWs, true, false, "").2,
        SplitActionOf::BuildDiff { ignore_ws: false, force: true }
    );
    assert_eq!(step(single(), ColonCommand::DiffToggleWs, true, false, "").2, flash("diff: not in diff mode"));
    assert_eq!(step(single(), ColonCommand::Diff { force: true }, true, false, "").2, flash("diff needs a split of two files"));
    assert_eq!(step(single(), ColonCommand::SetEncoding(None), true, false, "UTF-8").2, flash("encoding: UTF-8"));
    assert_eq!(
        step(single(), ColonCommand::SetEncoding(Some("bogus".to_string())), true, false, "").2,
        flash("unknown encoding: bogus")
    );
    assert_eq!(
        step(single(), ColonCommand::SetEncoding(Some("latin1".to_string())), true, false, "").2,
        SplitActionOf::SetEncoding("windows-1252".to_string())
    );
    assert_eq!(step(two, ColonCommand::Zoom, true, false, "").2, SplitActionOf::Zoom(ZoomAction::Maximize));
    assert!(split_step(single(), &ColonCommand::Next, true, true, false, "").is_none());
}

fn ctx(others: usize) -> MouseContext {
    MouseContext { mouse_enabled: true, others, diff_active: false, scroll_lock: false, focused_pos: 0 }
}

#[test]
fn mouse_routes_clicks_and_wheel() {
    assert_eq!(mouse_route(MouseContext { mouse_enabled: false, ..ctx(1) }, MouseKind::ScrollDown, 1), MouseRoute::Ignore);
    assert_eq!(mouse_route(ctx(1), MouseKind::LeftDown, 1), MouseRoute::Focus(1));
    assert_eq!(mouse_route(ctx(1), MouseKind::LeftDown, 0), MouseRoute::Consume);
    assert_eq!(mouse_route(ctx(0), MouseKind::LeftDown, 0), MouseRoute::Consume);
    assert_eq!(mouse_route(MouseContext { diff_active: true, ..ctx(1) }, MouseKind::LeftDown, 1), MouseRoute::Consume);
    assert_eq!(mouse_route(ctx(1), MouseKind::ScrollDown, 1), MouseRoute::Wheel(1));
    assert_eq!(mouse_route(MouseContext { scroll_lock: true, ..ctx(1) }, MouseKind::ScrollDown, 1), MouseRoute::Wheel(0));
}

#[test]
fn wheel_actions() {
    assert_eq!(wheel_lines(None), 1);
    assert_eq!(wheel_lines(Some(0)), 1);
    assert_eq!(wheel_lines(Some(5)), 5);
    assert_eq!(wheel_action(MouseKind::ScrollDown, false, true, 3), WheelAction::ScrollLines(3));
    assert_eq!(wheel_action(MouseKind::ScrollUp, false, false, 3), WheelAction::ScrollLines(-3));
    assert_eq!(wheel_action(MouseKind::ScrollDown, true, true, 3), WheelAction::HScrollRight);
    assert_eq!(wheel_action(MouseKind::ScrollUp, true, true, 3), WheelAction::HScrollLeft);
    assert_eq!(wheel_action(MouseKind::ScrollUp, true, false, 3), WheelAction::ScrollLines(-3));
    assert_eq!(wheel_action(MouseKind::ScrollLeft, false, false, 3), WheelAction::HScrollLeft);
    assert_eq!(wheel_action(MouseKind::Other, false, false, 3), WheelAction::Nothing);
}

#[test]
fn commands_open_their_prompts() {
    let p = open_prompt(Command::SearchBackward).unwrap();
    assert_eq!(p.kind, PromptKind::Search(SearchDirection::Backward));
    assert!(p.buffer.is_empty() && p.error.is_none());
    assert_eq!(open_prompt(Command::ColonPrompt).unwrap().kind, PromptKind::Colon);
    assert_eq!(open_prompt(Command::ShellEscape).unwrap().kind, PromptKind::Shell);
    assert!(open_prompt(Command::Quit).is_none());
}

#[test]
fn backspace_undoes_a_typed_character() {
    let mut p = prompt(PromptKind::Colon, "ab");
    p.error = Some("bad".to_string());
    prompt_key(&mut p, KeyCode::Char('c'), false, None);
    prompt_key(&mut p, KeyCode::Backspace, false, None);
    assert_eq!(p.buffer, vec!['a', 'b']);
    assert!(p.error.is_none());
}
