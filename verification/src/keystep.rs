//! What a key press does while the pager waits for a key: the pending
//! prefix modes (`-` options, `-P` prettify, `m` / `'` marks, the `Ctrl-X`
//! chord) and the numeric prefix typed before a command. Carrying out the
//! resulting action is the event loop's part.

use vstd::prelude::*;
use crate::input::{Command, KeyCode, KeyEvent, MOD_CONTROL};

verus! {

/// Which key the pager is waiting for.
#[derive(Debug, Clone, Copy, PartialEq, Eq, Structural)]
pub enum PendingMode {
    Normal,
    /// After `-`: the key chooses an option to flip.
    OptionPrefix,
    /// After `-P`: the key chooses a prettify mode.
    PrettifyPrefix,
    /// After `m`: the key names the mark to set.
    MarkSet,
    /// After `'`: the key names the mark to jump to.
    MarkJump,
    /// After `Ctrl-X`: `Ctrl-X` jumps back, `z` zooms.
    CtrlX,
}

/// The key-level state: the pending mode and the numeric prefix.
#[derive(Debug, Clone, Copy, PartialEq, Eq, Structural)]
pub struct KeyState {
    pub mode: PendingMode,
    pub prefix: Option<usize>,
}

/// A prettify choice after `-P`.
#[derive(Debug, Clone, Copy, PartialEq, Eq, Structural)]
pub enum PrettifyChoice {
    Json,
    Yaml,
    Toml,
    Xml,
    Html,
    Csv,
    Off,
    Auto,
}

/// What the event loop does after a key.
#[derive(Debug, Clone, Copy, PartialEq, Eq, Structural)]
pub enum KeyAction {
    Nothing,
    /// Repaint; the key only closed a prefix.
    Redraw,
    ToggleLineNumbers,
    ToggleChop,
    ToggleFollow,
    Prettify(PrettifyChoice),
    SetMark(char),
    JumpToMark(char),
    JumpPrevious,
    ToggleZoom,
    /// Run the command with the numeric prefix typed before it.
    Run(Command, Option<usize>),
}

/// The largest numeric prefix kept.
pub const MAX_PREFIX: usize = 99_999_999;

/// The prettify choice of a key after `-P`, if any.
pub open spec fn prettify_choice(c: char) -> Option<PrettifyChoice> {
    if c == 'j' || c == 'J' { Some(PrettifyChoice::Json) }
    else if c == 'y' || c == 'Y' { Some(PrettifyChoice::Yaml) }
    else if c == 't' || c == 'T' { Some(PrettifyChoice::Toml) }
    else if c == 'x' || c == 'X' { Some(PrettifyChoice::Xml) }
    else if c == 'h' || c == 'H' { Some(PrettifyChoice::Html) }
    else if c == 'c' || c == 'C' { Some(PrettifyChoice::Csv) }
    else if c == 'r' || c == 'R' { Some(PrettifyChoice::Off) }
    else if c == 'a' || c == 'A' { Some(PrettifyChoice::Auto) }
    else { None }
}

/// The character of a key event, if it is a character key.
pub open spec fn key_char(key: Option<KeyEvent>) -> Option<char> {
    match key {
        Some(k) => match k.code {
            KeyCode::Char(c) => Some(c),
            _ => None,
        },
        None => None,
    }
}

/// A command in normal mode: digits build the numeric prefix (a digit
/// that would take it past `MAX_PREFIX` is ignored), `Esc` drops it, the
/// prefix keys open their mode, and anything else runs with the prefix,
/// which every command consumes.
pub open spec fn normal_step(prefix: Option<usize>, cmd: Command) -> (KeyState, KeyAction) {
    match cmd {
        Command::Digit(d) => {
            let cur: int = match prefix { Some(p) => p as int, None => 0 };
            let next = cur * 10 + d;
            if next <= MAX_PREFIX {
                (KeyState { mode: PendingMode::Normal, prefix: Some(next as usize) }, KeyAction::Nothing)
            } else {
                (KeyState { mode: PendingMode::Normal, prefix: prefix }, KeyAction::Nothing)
            }
        },
        Command::Cancel => (KeyState { mode: PendingMode::Normal, prefix: None }, KeyAction::Nothing),
        Command::OptionPrefix => (KeyState { mode: PendingMode::OptionPrefix, prefix: None }, KeyAction::Nothing),
        Command::MarkSet => (KeyState { mode: PendingMode::MarkSet, prefix: None }, KeyAction::Nothing),
        Command::MarkJump => (KeyState { mode: PendingMode::MarkJump, prefix: None }, KeyAction::Nothing),
        Command::CtrlXPrefix => (KeyState { mode: PendingMode::CtrlX, prefix: None }, KeyAction::Nothing),
        _ => (KeyState { mode: PendingMode::Normal, prefix: None }, KeyAction::Run(cmd, prefix)),
    }
}

/// What a key does: `key` is the key pressed (`None` for another event)
/// and `cmd` the command it translates to.
pub open spec fn key_transition(s: KeyState, key: Option<KeyEvent>, cmd: Command) -> (KeyState, KeyAction) {
    let normal = KeyState { mode: PendingMode::Normal, prefix: s.prefix };
    match s.mode {
        PendingMode::Normal => normal_step(s.prefix, cmd),
        PendingMode::OptionPrefix => match key_char(key) {
            Some(c) => if c == 'N' || c == 'n' {
                (normal, KeyAction::ToggleLineNumbers)
            } else if c == 'S' || c == 's' {
                (normal, KeyAction::ToggleChop)
            } else if c == 'F' || c == 'f' {
                (normal, KeyAction::ToggleFollow)
            } else if c == 'P' || c == 'p' {
                (KeyState { mode: PendingMode::PrettifyPrefix, prefix: s.prefix }, KeyAction::Redraw)
            } else {
                (normal, KeyAction::Redraw)
            },
            None => (normal, KeyAction::Redraw),
        },
        PendingMode::PrettifyPrefix => match key_char(key) {
            Some(c) => match prettify_choice(c) {
                Some(p) => (normal, KeyAction::Prettify(p)),
                None => (normal, KeyAction::Redraw),
            },
            None => (normal, KeyAction::Redraw),
        },
        PendingMode::MarkSet => match key_char(key) {
            Some(c) => (normal, KeyAction::SetMark(c)),
            None => (normal, KeyAction::Nothing),
        },
        PendingMode::MarkJump => match key_char(key) {
            Some(c) => (normal, KeyAction::JumpToMark(c)),
            None => (normal, KeyAction::Nothing),
        },
        PendingMode::CtrlX => match key {
            Some(k) => if k.code == KeyCode::Char('x') && k.modifiers == MOD_CONTROL {
                (normal, KeyAction::JumpPrevious)
            } else if k.code == KeyCode::Char('z') {
                (normal, KeyAction::ToggleZoom)
            } else {
                normal_step(s.prefix, cmd)
            },
            None => normal_step(s.prefix, cmd),
        },
    }
}

fn prettify_of(c: char) -> (r: Option<PrettifyChoice>)
    ensures
        r == prettify_choice(c),
{
    if c == 'j' || c == 'J' { Some(PrettifyChoice::Json) }
    else if c == 'y' || c == 'Y' { Some(PrettifyChoice::Yaml) }
    else if c == 't' || c == 'T' { Some(PrettifyChoice::Toml) }
    else if c == 'x' || c == 'X' { Some(PrettifyChoice::Xml) }
    else if c == 'h' || c == 'H' { Some(PrettifyChoice::Html) }
    else if c == 'c' || c == 'C' { Some(PrettifyChoice::Csv) }
    else if c == 'r' || c == 'R' { Some(PrettifyChoice::Off) }
    else if c == 'a' || c == 'A' { Some(PrettifyChoice::Auto) }
    else { None }
}

fn normal_key(prefix: Option<usize>, cmd: Command) -> (r: (KeyState, KeyAction))
    ensures
        r == normal_step(prefix, cmd),
{
    match cmd {
        Command::Digit(d) => {
            let cur: usize = match prefix { Some(p) => p, None => 0 };
            if cur <= (MAX_PREFIX - d as usize) / 10 {
                let next = cur * 10 + d as usize;
                (KeyState { mode: PendingMode::Normal, prefix: Some(next) }, KeyAction::Nothing)
            } else {
                (KeyState { mode: PendingMode::Normal, prefix: prefix }, KeyAction::Nothing)
            }
        },
        Command::Cancel => (KeyState { mode: PendingMode::Normal, prefix: None }, KeyAction::Nothing),
        Command::OptionPrefix => (KeyState { mode: PendingMode::OptionPrefix, prefix: None }, KeyAction::Nothing),
        Command::MarkSet => (KeyState { mode: PendingMode::MarkSet, prefix: None }, KeyAction::Nothing),
        Command::MarkJump => (KeyState { mode: PendingMode::MarkJump, prefix: None }, KeyAction::Nothing),
        Command::CtrlXPrefix => (KeyState { mode: PendingMode::CtrlX, prefix: None }, KeyAction::Nothing),
        _ => (KeyState { mode: PendingMode::Normal, prefix: None }, KeyAction::Run(cmd, prefix)),
    }
}

/// The next key-level state and the action for one key.
pub fn key_step(state: KeyState, key: Option<KeyEvent>, cmd: Command) -> (r: (KeyState, KeyAction))
    ensures
        r == key_transition(state, key, cmd),
{
    let normal = KeyState { mode: PendingMode::Normal, prefix: state.prefix };
    let ch: Option<char> = match key {
        Some(k) => match k.code {
            KeyCode::Char(c) => Some(c),
            _ => None,
        },
        None => None,
    };
    match state.mode {
        PendingMode::Normal => normal_key(state.prefix, cmd),
        PendingMode::OptionPrefix => match ch {
            Some(c) => if c == 'N' || c == 'n' {
                (normal, KeyAction::ToggleLineNumbers)
            } else if c == 'S' || c == 's' {
                (normal, KeyAction::ToggleChop)
            } else if c == 'F' || c == 'f' {
                (normal, KeyAction::ToggleFollow)
            } else if c == 'P' || c == 'p' {
                (KeyState { mode: PendingMode::PrettifyPrefix, prefix: state.prefix }, KeyAction::Redraw)
            } else {
                (normal, KeyAction::Redraw)
            },
            None => (normal, KeyAction::Redraw),
        },
        PendingMode::PrettifyPrefix => match ch {
            Some(c) => match prettify_of(c) {
                Some(p) => (normal, KeyAction::Prettify(p)),
                None => (normal, KeyAction::Redraw),
            },
            None => (normal, KeyAction::Redraw),
        },
        PendingMode::MarkSet => match ch {
            Some(c) => (normal, KeyAction::SetMark(c)),
            None => (normal, KeyAction::Nothing),
        },
        PendingMode::MarkJump => match ch {
            Some(c) => (normal, KeyAction::JumpToMark(c)),
            None => (normal, KeyAction::Nothing),
        },
        PendingMode::CtrlX => match key {
            Some(k) => if k.code == KeyCode::Char('x') && k.modifiers == MOD_CONTROL {
                (normal, KeyAction::JumpPrevious)
            } else if k.code == KeyCode::Char('z') {
                (normal, KeyAction::ToggleZoom)
            } else {
                normal_key(state.prefix, cmd)
            },
            None => normal_key(state.prefix, cmd),
        },
    }
}

/// Typing digits builds the prefix in decimal: after digit `d` a prefix
/// `p` becomes `10 p + d` while that stays within `MAX_PREFIX`, and any
/// other command then runs with it and clears it.
pub proof fn lemma_prefix_accumulates(p: Option<usize>, d: u8, cmd: Command)
    requires
        d <= 9,
        !(cmd is Digit || cmd is Cancel || cmd is OptionPrefix || cmd is MarkSet || cmd is MarkJump || cmd is CtrlXPrefix),
    ensures
        ({
            let cur: int = match p { Some(x) => x as int, None => 0 };
            let after = normal_step(p, Command::Digit(d)).0;
            &&& cur * 10 + d <= MAX_PREFIX ==> after.prefix == Some((cur * 10 + d) as usize)
            &&& cur * 10 + d > MAX_PREFIX ==> after.prefix == p
            &&& normal_step(after.prefix, cmd) == (KeyState { mode: PendingMode::Normal, prefix: None }, KeyAction::Run(cmd, after.prefix))
        }),
{
}


/// Where a go-to command moves the view, given the numeric prefix.
#[derive(Debug, Clone, Copy, PartialEq, Eq, Structural)]
pub enum GotoTarget {
    Top,
    Bottom,
    /// A line, counted from 0.
    Line(usize),
    /// A record, counted from 0.
    Record(usize),
    /// A percentage of the way through the source.
    Percent(u8),
}

/// The target of `g` (a line, the top without one), `G` (a record, the
/// bottom without one) and `%` (a percentage up to 100, the top otherwise).
/// Prefixes count from 1; a zero prefix is no prefix. `None` for other
/// commands.
pub open spec fn goto_target_spec(cmd: Command, prefix: Option<usize>) -> Option<GotoTarget> {
    match cmd {
        Command::GotoLine => Some(match prefix {
            Some(n) => if n > 0 { GotoTarget::Line((n - 1) as usize) } else { GotoTarget::Top },
            None => GotoTarget::Top,
        }),
        Command::GotoRecord => Some(match prefix {
            Some(n) => if n > 0 { GotoTarget::Record((n - 1) as usize) } else { GotoTarget::Bottom },
            None => GotoTarget::Bottom,
        }),
        Command::GotoPercent => Some(match prefix {
            Some(p) => if p <= 100 { GotoTarget::Percent(p as u8) } else { GotoTarget::Top },
            None => GotoTarget::Top,
        }),
        _ => None,
    }
}

/// Where a go-to command with its numeric prefix moves the view.
pub fn goto_target(cmd: Command, prefix: Option<usize>) -> (r: Option<GotoTarget>)
    ensures
        r == goto_target_spec(cmd, prefix),
{
    match cmd {
        Command::GotoLine => Some(match prefix {
            Some(n) => if n > 0 { GotoTarget::Line(n - 1) } else { GotoTarget::Top },
            None => GotoTarget::Top,
        }),
        Command::GotoRecord => Some(match prefix {
            Some(n) => if n > 0 { GotoTarget::Record(n - 1) } else { GotoTarget::Bottom },
            None => GotoTarget::Bottom,
        }),
        Command::GotoPercent => Some(match prefix {
            Some(p) => if p <= 100 { GotoTarget::Percent(p as u8) } else { GotoTarget::Top },
            None => GotoTarget::Top,
        }),
        _ => None,
    }
}

} // verus!
