//! Keyboard input: key events as plain values, the pager's commands, and
//! the default key-to-command translation.

use vstd::prelude::*;

verus! {

/// A key on the keyboard.
#[derive(Debug, Clone, Copy, PartialEq, Eq, Hash, Structural)]
pub enum KeyCode {
    Backspace,
    Enter,
    Left,
    Right,
    Up,
    Down,
    Home,
    End,
    PageUp,
    PageDown,
    Tab,
    BackTab,
    Delete,
    Insert,
    /// A function key, `F(1)` for F1.
    F(u8),
    Char(char),
    Null,
    Esc,
    CapsLock,
    ScrollLock,
    NumLock,
    PrintScreen,
    Pause,
    Menu,
    KeypadBegin,
}

/// Modifier bits of a key event.
pub const MOD_NONE: u8 = 0;
pub const MOD_SHIFT: u8 = 1;
pub const MOD_CONTROL: u8 = 2;
pub const MOD_ALT: u8 = 4;
pub const MOD_SUPER: u8 = 8;
pub const MOD_HYPER: u8 = 16;
pub const MOD_META: u8 = 32;

/// A key press: the key and the modifier bits held with it.
#[derive(Debug, Clone, Copy, PartialEq, Eq, Hash, Structural)]
pub struct KeyEvent {
    pub code: KeyCode,
    pub modifiers: u8,
}

impl KeyEvent {
    pub fn new(code: KeyCode, modifiers: u8) -> (e: KeyEvent)
        ensures
            e == (KeyEvent { code, modifiers }),
    {
        KeyEvent { code, modifiers }
    }
}

/// Whether the modifier bits include `flag`.
pub open spec fn has_mod(mods: u8, flag: u8) -> bool {
    mods & flag != 0
}

/// An action of the pager.
#[derive(Debug, Clone, Copy, PartialEq, Eq, Structural)]
pub enum Command {
    ScrollLines(i64),
    /// Jump by whole logical lines, skipping wrap rows.
    ScrollLogicalLines(i64),
    PageDown,
    PageUp,
    HalfPageDown,
    HalfPageUp,
    Quit,
    Resize(u16, u16),
    Refresh,
    ToggleLineNumbers,
    ToggleChop,
    ToggleFollow,
    SearchForward,
    SearchBackward,
    NextMatch,
    PreviousMatch,
    /// The next key chooses an option to flip.
    OptionPrefix,
    /// Reload the source from disk now.
    Reload,
    TogglePrettify,
    /// Re-run content detection and apply the result.
    RedetectPrettify,
    /// A digit of a numeric prefix.
    Digit(u8),
    GotoLine,
    GotoRecord,
    GotoPercent,
    /// Cancel any pending numeric prefix.
    Cancel,
    MarkSet,
    MarkJump,
    /// First half of the `Ctrl-X Ctrl-X` chord.
    CtrlXPrefix,
    /// Jump to the previous position.
    JumpPrevious,
    ShellEscape,
    ColonPrompt,
    HScrollLeft,
    HScrollRight,
    HScrollLeftStep,
    HScrollRightStep,
    YankLine,
    AnimPause,
    AnimStepForward,
    AnimStepBack,
    AnimRestart,
    FocusOtherPane,
    FocusPrevPane,
    ToggleScrollLock,
    ZoomPane,
    ToggleMouse,
    DiffNextChange,
    DiffPrevChange,
    OpenPicker,
    OpenHelp,
    TagPrompt,
    TagPop,
    Noop,
}

/// The default binding of a key, with Ctrl held or not.
pub open spec fn translate_spec(code: KeyCode, ctrl: bool) -> Command {
    match (code, ctrl) {
        (KeyCode::Char('q'), false) | (KeyCode::Char('Q'), false) => Command::Quit,
        (KeyCode::Char('c'), true) => Command::Quit,
        (KeyCode::Down, _) | (KeyCode::Char('j'), false) | (KeyCode::Char('e'), false)
        | (KeyCode::Char('e'), true) | (KeyCode::Enter, _) => Command::ScrollLines(1i64),
        (KeyCode::Char('y'), false) | (KeyCode::Char('y'), true) | (KeyCode::Up, _)
        | (KeyCode::Char('k'), false) => Command::ScrollLines(-1i64),
        (KeyCode::Char('J'), false) => Command::ScrollLogicalLines(1i64),
        (KeyCode::Char('K'), false) => Command::ScrollLogicalLines(-1i64),
        (KeyCode::Char(' '), false) | (KeyCode::Char('f'), false) | (KeyCode::Char('f'), true)
        | (KeyCode::PageDown, _) => Command::PageDown,
        (KeyCode::Char('b'), false) | (KeyCode::Char('b'), true) | (KeyCode::PageUp, _) => Command::PageUp,
        (KeyCode::Char('d'), false) | (KeyCode::Char('d'), true) => Command::HalfPageDown,
        (KeyCode::Char('u'), false) | (KeyCode::Char('u'), true) => Command::HalfPageUp,
        (KeyCode::Char('0'), false) => Command::Digit(0u8),
        (KeyCode::Char('1'), false) => Command::Digit(1u8),
        (KeyCode::Char('2'), false) => Command::Digit(2u8),
        (KeyCode::Char('3'), false) => Command::Digit(3u8),
        (KeyCode::Char('4'), false) => Command::Digit(4u8),
        (KeyCode::Char('5'), false) => Command::Digit(5u8),
        (KeyCode::Char('6'), false) => Command::Digit(6u8),
        (KeyCode::Char('7'), false) => Command::Digit(7u8),
        (KeyCode::Char('8'), false) => Command::Digit(8u8),
        (KeyCode::Char('9'), false) => Command::Digit(9u8),
        (KeyCode::Char('g'), false) | (KeyCode::Char('<'), false) | (KeyCode::Home, _) => Command::GotoLine,
        (KeyCode::Char('G'), false) | (KeyCode::Char('>'), false) | (KeyCode::End, _) => Command::GotoRecord,
        (KeyCode::Char('%'), false) => Command::GotoPercent,
        (KeyCode::Esc, _) => Command::Cancel,
        (KeyCode::Char('r'), false) | (KeyCode::Char('l'), true) => Command::Refresh,
        (KeyCode::Char('R'), false) => Command::Reload,
        (KeyCode::Char('P'), false) => Command::TogglePrettify,
        (KeyCode::Char('-'), false) => Command::OptionPrefix,
        (KeyCode::Char('F'), false) => Command::ToggleFollow,
        (KeyCode::Char('/'), false) => Command::SearchForward,
        (KeyCode::Char('?'), false) => Command::SearchBackward,
        (KeyCode::Char('n'), false) => Command::NextMatch,
        (KeyCode::Char('N'), false) => Command::PreviousMatch,
        (KeyCode::Char('m'), false) => Command::MarkSet,
        (KeyCode::Char('\''), false) => Command::MarkJump,
        (KeyCode::Char('!'), false) => Command::ShellEscape,
        (KeyCode::Char('x'), true) => Command::CtrlXPrefix,
        (KeyCode::Char(':'), false) => Command::ColonPrompt,
        (KeyCode::Char(']'), true) => Command::TagPrompt,
        (KeyCode::Char('t'), true) => Command::TagPop,
        (KeyCode::F(1u8), _) => Command::OpenHelp,
        _ => Command::Noop,
    }
}

/// The default command for a key press; only Ctrl among the modifiers
/// matters.
pub fn translate_key(code: KeyCode, mods: u8) -> (c: Command)
    ensures
        c == translate_spec(code, has_mod(mods, MOD_CONTROL)),
{
    let ctrl = mods & MOD_CONTROL != 0;
    match (code, ctrl) {
        (KeyCode::Char('q'), false) | (KeyCode::Char('Q'), false) => Command::Quit,
        (KeyCode::Char('c'), true) => Command::Quit,
        (KeyCode::Down, _) | (KeyCode::Char('j'), false) | (KeyCode::Char('e'), false)
        | (KeyCode::Char('e'), true) | (KeyCode::Enter, _) => Command::ScrollLines(1),
        (KeyCode::Char('y'), false) | (KeyCode::Char('y'), true) | (KeyCode::Up, _)
        | (KeyCode::Char('k'), false) => Command::ScrollLines(-1),
        (KeyCode::Char('J'), false) => Command::ScrollLogicalLines(1),
        (KeyCode::Char('K'), false) => Command::ScrollLogicalLines(-1),
        (KeyCode::Char(' '), false) | (KeyCode::Char('f'), false) | (KeyCode::Char('f'), true)
        | (KeyCode::PageDown, _) => Command::PageDown,
        (KeyCode::Char('b'), false) | (KeyCode::Char('b'), true) | (KeyCode::PageUp, _) => Command::PageUp,
        (KeyCode::Char('d'), false) | (KeyCode::Char('d'), true) => Command::HalfPageDown,
        (KeyCode::Char('u'), false) | (KeyCode::Char('u'), true) => Command::HalfPageUp,
        (KeyCode::Char('0'), false) => Command::Digit(0),
        (KeyCode::Char('1'), false) => Command::Digit(1),
        (KeyCode::Char('2'), false) => Command::Digit(2),
        (KeyCode::Char('3'), false) => Command::Digit(3),
        (KeyCode::Char('4'), false) => Command::Digit(4),
        (KeyCode::Char('5'), false) => Command::Digit(5),
        (KeyCode::Char('6'), false) => Command::Digit(6),
        (KeyCode::Char('7'), false) => Command::Digit(7),
        (KeyCode::Char('8'), false) => Command::Digit(8),
        (KeyCode::Char('9'), false) => Command::Digit(9),
        (KeyCode::Char('g'), false) | (KeyCode::Char('<'), false) | (KeyCode::Home, _) => Command::GotoLine,
        (KeyCode::Char('G'), false) | (KeyCode::Char('>'), false) | (KeyCode::End, _) => Command::GotoRecord,
        (KeyCode::Char('%'), false) => Command::GotoPercent,
        (KeyCode::Esc, _) => Command::Cancel,
        (KeyCode::Char('r'), false) | (KeyCode::Char('l'), true) => Command::Refresh,
        (KeyCode::Char('R'), false) => Command::Reload,
        (KeyCode::Char('P'), false) => Command::TogglePrettify,
        (KeyCode::Char('-'), false) => Command::OptionPrefix,
        (KeyCode::Char('F'), false) => Command::ToggleFollow,
        (KeyCode::Char('/'), false) => Command::SearchForward,
        (KeyCode::Char('?'), false) => Command::SearchBackward,
        (KeyCode::Char('n'), false) => Command::NextMatch,
        (KeyCode::Char('N'), false) => Command::PreviousMatch,
        (KeyCode::Char('m'), false) => Command::MarkSet,
        (KeyCode::Char('\''), false) => Command::MarkJump,
        (KeyCode::Char('!'), false) => Command::ShellEscape,
        (KeyCode::Char('x'), true) => Command::CtrlXPrefix,
        (KeyCode::Char(':'), false) => Command::ColonPrompt,
        (KeyCode::Char(']'), true) => Command::TagPrompt,
        (KeyCode::Char('t'), true) => Command::TagPop,
        (KeyCode::F(1), _) => Command::OpenHelp,
        _ => Command::Noop,
    }
}

/// An input event reduced to what the pager reads.
#[derive(Debug, Clone, Copy, PartialEq, Eq, Structural)]
pub enum InputEvent {
    Key(KeyEvent),
    Resize(u16, u16),
    Other,
}

/// The command an input event asks for.
pub fn translate(event: InputEvent) -> (c: Command)
    ensures
        c == match event {
            InputEvent::Resize(w, h) => Command::Resize(w, h),
            InputEvent::Key(k) => translate_spec(k.code, has_mod(k.modifiers, MOD_CONTROL)),
            InputEvent::Other => Command::Noop,
        },
{
    match event {
        InputEvent::Resize(c, r) => Command::Resize(c, r),
        InputEvent::Key(k) => translate_key(k.code, k.modifiers),
        InputEvent::Other => Command::Noop,
    }
}

} // verus!
