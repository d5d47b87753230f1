//! The pager's remaining decisions, each a step from state and input to the
//! next state and an action for the event loop: editing the line prompts
//! (search, shell command, colon command) key by key, and the colon
//! commands that change the split layout, the diff mode, the mouse and the
//! encoding, and what a mouse press or wheel notch does.

use vstd::prelude::*;
use crate::app::{zoom_cleared, zoom_toggled, ColonCommand, ColonCommandOf, Orientation, ZoomAction};
use crate::charset::{label_encoding, parse_label, TextEncoding};
use crate::input::{Command, KeyCode};
use crate::text::{chars_of, push_chars, push_str, string_of};

verus! {

/// Which way a search runs.
#[derive(Debug, Clone, Copy, PartialEq, Eq, Structural)]
pub enum SearchDirection {
    Forward,
    Backward,
}

/// What a line prompt reads.
#[derive(Debug, Clone, Copy, PartialEq, Eq, Structural)]
pub enum PromptKind {
    /// `/` or `?`: a search pattern.
    Search(SearchDirection),
    /// `!`: a shell command.
    Shell,
    /// `:`: a colon command.
    Colon,
}

/// A line prompt: what it reads, the text typed so far, and the error of
/// the last attempt to carry it out, shown until the next key.
pub struct LinePrompt {
    pub kind: PromptKind,
    pub buffer: Vec<char>,
    pub error: Option<String>,
}

/// What the event loop does after a key in a line prompt.
#[derive(Debug, Clone, Copy, PartialEq, Eq, Structural)]
pub enum PromptAction {
    /// The key does nothing.
    Nothing,
    /// Repaint the prompt.
    Redraw,
    /// Repaint, and preview the search typed so far from where the prompt
    /// opened (incremental search).
    Preview,
    /// Close the prompt; `restore` puts the view back where it was when the
    /// prompt opened.
    Close { restore: bool },
    /// Close the prompt and repeat the last search, reversed when it ran the
    /// other way.
    RepeatSearch { restore: bool, reverse: bool },
    /// Carry out the text typed; on success close the prompt, on failure
    /// keep it open with the error.
    Submit { restore: bool },
}

pub open spec fn opt_string_view(o: Option<String>) -> Option<Seq<char>> {
    match o { Some(e) => Some(e@), None => None }
}

/// Whether a search prompt previews and restores the view.
pub open spec fn incremental(kind: PromptKind, incsearch: bool) -> bool {
    kind is Search && incsearch
}

/// What a key does to a line prompt, as the new text, the new error and
/// the action. `incsearch` is the view's incremental-search setting and
/// `last_search` the direction of the active search, if any.
pub open spec fn prompt_transition(
    kind: PromptKind,
    buffer: Seq<char>,
    error: Option<Seq<char>>,
    key: KeyCode,
    incsearch: bool,
    last_search: Option<SearchDirection>,
) -> (Seq<char>, Option<Seq<char>>, PromptAction) {
    let inc = incremental(kind, incsearch);
    let edited = if inc { PromptAction::Preview } else { PromptAction::Redraw };
    match key {
        KeyCode::Esc => (buffer, error, PromptAction::Close { restore: inc }),
        KeyCode::Enter => if buffer.len() == 0 {
            match (kind, last_search) {
                (PromptKind::Search(typed), Some(last)) =>
                    (buffer, error, PromptAction::RepeatSearch { restore: inc, reverse: typed != last }),
                _ => (buffer, error, PromptAction::Close { restore: inc }),
            }
        } else {
            (buffer, error, PromptAction::Submit { restore: inc })
        },
        KeyCode::Backspace => (if buffer.len() == 0 { buffer } else { buffer.drop_last() }, None, edited),
        KeyCode::Char(c) => (buffer.push(c), None, edited),
        _ => (buffer, error, PromptAction::Nothing),
    }
}

/// Carry out one key in a line prompt: edit the text, or say how to close
/// or carry out the prompt.
pub fn prompt_key(prompt: &mut LinePrompt, key: KeyCode, incsearch: bool, last_search: Option<SearchDirection>) -> (a: PromptAction)
    ensures
        final(prompt).kind == old(prompt).kind,
        (final(prompt).buffer@, opt_string_view(final(prompt).error), a) == prompt_transition(
            old(prompt).kind, old(prompt).buffer@, opt_string_view(old(prompt).error), key, incsearch, last_search,
        ),
{
    let inc = match prompt.kind { PromptKind::Search(_) => incsearch, _ => false };
    let edited = if inc { PromptAction::Preview } else { PromptAction::Redraw };
    match key {
        KeyCode::Esc => PromptAction::Close { restore: inc },
        KeyCode::Enter => {
            if prompt.buffer.len() == 0 {
                match (prompt.kind, last_search) {
                    (PromptKind::Search(typed), Some(last)) =>
                        PromptAction::RepeatSearch { restore: inc, reverse: typed != last },
                    _ => PromptAction::Close { restore: inc },
                }
            } else {
                PromptAction::Submit { restore: inc }
            }
        },
        KeyCode::Backspace => {
            if prompt.buffer.len() > 0 {
                prompt.buffer.pop();
            }
            prompt.error = None;
            edited
        },
        KeyCode::Char(c) => {
            prompt.buffer.push(c);
            prompt.error = None;
            edited
        },
        _ => PromptAction::Nothing,
    }
}

/// The prompt a command opens: `/` and `?` a search prompt, `!` a shell
/// prompt, `:` a colon prompt.
pub open spec fn prompt_kind_for(cmd: Command) -> Option<PromptKind> {
    match cmd {
        Command::SearchForward => Some(PromptKind::Search(SearchDirection::Forward)),
        Command::SearchBackward => Some(PromptKind::Search(SearchDirection::Backward)),
        Command::ShellEscape => Some(PromptKind::Shell),
        Command::ColonPrompt => Some(PromptKind::Colon),
        _ => None,
    }
}

/// Open the prompt a command asks for, empty and without an error.
pub fn open_prompt(cmd: Command) -> (r: Option<LinePrompt>)
    ensures
        match prompt_kind_for(cmd) {
            None => r is None,
            Some(k) => r matches Some(p) && p.kind == k && p.buffer@.len() == 0 && p.error is None,
        },
{
    let kind = match cmd {
        Command::SearchForward => PromptKind::Search(SearchDirection::Forward),
        Command::SearchBackward => PromptKind::Search(SearchDirection::Backward),
        Command::ShellEscape => PromptKind::Shell,
        Command::ColonPrompt => PromptKind::Colon,
        _ => { return None; },
    };
    Some(LinePrompt { kind, buffer: Vec::new(), error: None })
}

/// Backspace undoes a typed character: typing `c` and then erasing it
/// leaves the text as it was, with no error shown.
pub proof fn lemma_type_then_erase(kind: PromptKind, buffer: Seq<char>, error: Option<Seq<char>>, c: char, incsearch: bool, last: Option<SearchDirection>)
    ensures
        ({
            let (b1, e1, _) = prompt_transition(kind, buffer, error, KeyCode::Char(c), incsearch, last);
            let (b2, e2, _) = prompt_transition(kind, b1, e1, KeyCode::Backspace, incsearch, last);
            b2 == buffer && e2 is None
        }),
{
    assert(buffer.push(c).drop_last() =~= buffer);
}

/// The character that opens a prompt of this kind.
pub open spec fn prompt_lead(kind: PromptKind) -> Seq<char> {
    match kind {
        PromptKind::Search(SearchDirection::Forward) => "/"@,
        PromptKind::Search(SearchDirection::Backward) => "?"@,
        PromptKind::Shell => "!"@,
        PromptKind::Colon => ":"@,
    }
}

/// The status line while a prompt is open: its lead, the text typed, and
/// the error, if any, in brackets after two spaces.
pub open spec fn prompt_status_text(kind: PromptKind, buffer: Seq<char>, error: Option<Seq<char>>) -> Seq<char> {
    match error {
        Some(e) => prompt_lead(kind) + buffer + "  [error: "@ + e + "]"@,
        None => prompt_lead(kind) + buffer,
    }
}

/// The status line of an open prompt.
pub fn prompt_status(prompt: &LinePrompt) -> (s: String)
    ensures
        s@ == prompt_status_text(prompt.kind, prompt.buffer@, opt_string_view(prompt.error)),
{
    let mut out: Vec<char> = Vec::new();
    let lead = match prompt.kind {
        PromptKind::Search(SearchDirection::Forward) => "/",
        PromptKind::Search(SearchDirection::Backward) => "?",
        PromptKind::Shell => "!",
        PromptKind::Colon => ":",
    };
    push_str(&mut out, lead);
    push_chars(&mut out, prompt.buffer.as_slice());
    match &prompt.error {
        Some(e) => {
            push_str(&mut out, "  [error: ");
            push_str(&mut out, e.as_str());
            push_str(&mut out, "]");
        },
        None => {},
    }
    string_of(out.as_slice())
}

/// The layout state the split colon commands read and change.
#[derive(Debug, Clone, Copy, PartialEq, Eq, Structural)]
pub struct SplitState {
    /// How many panes there are besides the focused one.
    pub others: usize,
    pub orientation: Orientation,
    pub scroll_lock: bool,
    /// Whether diff mode is on, and if so whether it ignores whitespace.
    pub diff: Option<bool>,
    pub mouse: bool,
    pub zoomed: bool,
}

/// What is left to do after a split colon command. `S` is the text type,
/// `E` the encoding's.
#[derive(Debug, Clone, PartialEq)]
pub enum SplitActionOf<S, E> {
    Nothing,
    /// Show this briefly on the status line.
    Flash(S),
    /// Open a pane beside (`vertical`) or below the focused one, on this
    /// file or, without one, on the focused file at its position.
    OpenPane { vertical: bool, path: Option<S> },
    /// Lay the panes out again for the orientation.
    Relayout,
    /// Close every pane but the focused one.
    CloseOthers,
    /// Build the panes of the named layout.
    LoadLayout(S),
    /// Remember each pane's offset from the focused one.
    CaptureLockOffsets,
    /// Forget the remembered offsets.
    ClearLockOffsets,
    /// Turn mouse capture on or off, and flash which.
    SetMouse(bool),
    /// Compute the diff of the two panes.
    BuildDiff { ignore_ws: bool, force: bool },
    /// Switch every pane to this encoding.
    SetEncoding(E),
    /// What the zoom toggle did.
    Zoom(ZoomAction),
}

pub type SplitAction = SplitActionOf<String, TextEncoding>;

pub type SplitActionView = SplitActionOf<Seq<char>, Seq<char>>;

impl View for SplitActionOf<String, TextEncoding> {
    type V = SplitActionView;

    open spec fn view(&self) -> SplitActionView {
        match self {
            SplitActionOf::Nothing => SplitActionOf::Nothing,
            SplitActionOf::Flash(s) => SplitActionOf::Flash(s@),
            SplitActionOf::OpenPane { vertical, path } => SplitActionOf::OpenPane { vertical: *vertical, path: opt_string_view(*path) },
            SplitActionOf::Relayout => SplitActionOf::Relayout,
            SplitActionOf::CloseOthers => SplitActionOf::CloseOthers,
            SplitActionOf::LoadLayout(s) => SplitActionOf::LoadLayout(s@),
            SplitActionOf::CaptureLockOffsets => SplitActionOf::CaptureLockOffsets,
            SplitActionOf::ClearLockOffsets => SplitActionOf::ClearLockOffsets,
            SplitActionOf::SetMouse(on) => SplitActionOf::SetMouse(*on),
            SplitActionOf::BuildDiff { ignore_ws, force } => SplitActionOf::BuildDiff { ignore_ws: *ignore_ws, force: *force },
            SplitActionOf::SetEncoding(e) => SplitActionOf::SetEncoding(e@),
            SplitActionOf::Zoom(z) => SplitActionOf::Zoom(*z),
        }
    }
}

pub open spec fn flipped(o: Orientation) -> Orientation {
    match o {
        Orientation::Vertical => Orientation::Horizontal,
        Orientation::Horizontal => Orientation::Vertical,
    }
}

/// What a split colon command does: the new state, what clearing zoom
/// first did (splitting, rotating, `:only`, `:layout` and `:diff` clear
/// it; the others keep it), and what is left to do. `fits_vertical` and
/// `fits_horizontal` say whether the terminal has room for a second pane
/// beside or below; `default_ignore_ws` is the diff's whitespace setting
/// when diff mode is off; `encoding` names the focused pane's encoding.
/// `None` for other commands.
pub open spec fn split_transition(
    s: SplitState,
    cmd: ColonCommandOf<Seq<char>>,
    fits_vertical: bool,
    fits_horizontal: bool,
    default_ignore_ws: bool,
    encoding: Seq<char>,
) -> Option<(SplitState, ZoomAction, SplitActionView)> {
    let (uz, za) = zoom_cleared(s.zoomed);
    let u = SplitState { zoomed: uz, ..s };
    match cmd {
        ColonCommandOf::VSplit(p) => Some(if s.others > 0 {
            (u, za, SplitActionOf::Flash("already split (`:only` first)"@))
        } else if !fits_vertical {
            (u, za, SplitActionOf::Flash("terminal too narrow to split"@))
        } else {
            (u, za, SplitActionOf::OpenPane { vertical: true, path: p })
        }),
        ColonCommandOf::HSplit(p) => Some(if s.others > 0 {
            (u, za, SplitActionOf::Flash("already split (`:only` first)"@))
        } else if !fits_horizontal {
            (u, za, SplitActionOf::Flash("terminal too short to split"@))
        } else {
            (u, za, SplitActionOf::OpenPane { vertical: false, path: p })
        }),
        ColonCommandOf::Rotate => Some(if s.others == 0 {
            (u, za, SplitActionOf::Flash("no split to rotate"@))
        } else if s.diff is Some {
            (u, za, SplitActionOf::Flash("can't rotate in diff mode"@))
        } else {
            (SplitState { orientation: flipped(s.orientation), ..u }, za, SplitActionOf::Relayout)
        }),
        ColonCommandOf::Only => Some(if s.others > 0 {
            (SplitState { others: 0, scroll_lock: false, diff: None, ..u }, za, SplitActionOf::CloseOthers)
        } else {
            (u, za, SplitActionOf::Nothing)
        }),
        ColonCommandOf::Layout(name) => Some((u, za, SplitActionOf::LoadLayout(name))),
        ColonCommandOf::ScrollLock => Some(if s.others == 0 {
            (s, ZoomAction::Keep, SplitActionOf::Flash("scroll-lock needs a split"@))
        } else if s.scroll_lock {
            (SplitState { scroll_lock: false, ..s }, ZoomAction::Keep, SplitActionOf::ClearLockOffsets)
        } else {
            (SplitState { scroll_lock: true, ..s }, ZoomAction::Keep, SplitActionOf::CaptureLockOffsets)
        }),
        ColonCommandOf::Zoom => {
            let (z, a) = zoom_toggled(s.zoomed, s.others > 0, s.diff is Some);
            Some((SplitState { zoomed: z, ..s }, ZoomAction::Keep, SplitActionOf::Zoom(a)))
        },
        ColonCommandOf::Mouse(arg) => {
            let on = match arg { Some(b) => b, None => !s.mouse };
            Some((SplitState { mouse: on, ..s }, ZoomAction::Keep, SplitActionOf::SetMouse(on)))
        },
        ColonCommandOf::SetEncoding(arg) => Some(match arg {
            Some(l) => match label_encoding(vstd::utf8::encode_utf8(l)) {
                Some(e) => (s, ZoomAction::Keep, SplitActionOf::SetEncoding(e)),
                None => (s, ZoomAction::Keep, SplitActionOf::Flash("unknown encoding: "@ + l)),
            },
            None => (s, ZoomAction::Keep, SplitActionOf::Flash("encoding: "@ + encoding)),
        }),
        ColonCommandOf::Diff { force } => Some(if s.others >= 2 {
            (u, za, SplitActionOf::Flash("diff needs exactly 2 panes"@))
        } else if s.others == 1 {
            let ws = match s.diff { Some(w) => w, None => default_ignore_ws };
            (u, za, SplitActionOf::BuildDiff { ignore_ws: ws, force })
        } else {
            (u, za, SplitActionOf::Flash("diff needs a split of two files"@))
        }),
        ColonCommandOf::NoDiff => Some((SplitState { diff: None, ..s }, ZoomAction::Keep, SplitActionOf::Nothing)),
        ColonCommandOf::DiffToggleWs => Some(match s.diff {
            None => (s, ZoomAction::Keep, SplitActionOf::Flash("diff: not in diff mode"@)),
            Some(w) => if s.others == 1 {
                (s, ZoomAction::Keep, SplitActionOf::BuildDiff { ignore_ws: !w, force: true })
            } else {
                (s, ZoomAction::Keep, SplitActionOf::Nothing)
            },
        }),
        _ => None,
    }
}

fn flash(s: &str) -> (a: SplitAction)
    ensures
        a@ == SplitActionOf::<Seq<char>, Seq<char>>::Flash(s@),
{
    SplitActionOf::Flash(String::from_str(s))
}

fn clone_opt(o: &Option<String>) -> (r: Option<String>)
    ensures
        opt_string_view(r) == opt_string_view(*o),
{
    match o { Some(s) => Some(s.clone()), None => None }
}

/// Carry out a split colon command on the layout state: the new state,
/// what clearing zoom first did, and what is left to do. `None` for other
/// commands.
pub fn split_step(
    s: SplitState,
    cmd: &ColonCommand,
    fits_vertical: bool,
    fits_horizontal: bool,
    default_ignore_ws: bool,
    encoding: &str,
) -> (r: Option<(SplitState, ZoomAction, SplitAction)>)
    ensures
        match split_transition(s, cmd@, fits_vertical, fits_horizontal, default_ignore_ws, encoding@) {
            None => r is None,
            Some(t) => r matches Some(x) && x.0 == t.0 && x.1 == t.1 && x.2@ == t.2,
        },
{
    let za = if s.zoomed { ZoomAction::RestoreSplit } else { ZoomAction::Keep };
    let u = SplitState { zoomed: false, ..s };
    match cmd {
        ColonCommandOf::VSplit(p) => Some(if s.others > 0 {
            (u, za, flash("already split (`:only` first)"))
        } else if !fits_vertical {
            (u, za, flash("terminal too narrow to split"))
        } else {
            (u, za, SplitActionOf::OpenPane { vertical: true, path: clone_opt(p) })
        }),
        ColonCommandOf::HSplit(p) => Some(if s.others > 0 {
            (u, za, flash("already split (`:only` first)"))
        } else if !fits_horizontal {
            (u, za, flash("terminal too short to split"))
        } else {
            (u, za, SplitActionOf::OpenPane { vertical: false, path: clone_opt(p) })
        }),
        ColonCommandOf::Rotate => Some(if s.others == 0 {
            (u, za, flash("no split to rotate"))
        } else if s.diff.is_some() {
            (u, za, flash("can't rotate in diff mode"))
        } else {
            let o = match s.orientation {
                Orientation::Vertical => Orientation::Horizontal,
                Orientation::Horizontal => Orientation::Vertical,
            };
            (SplitState { orientation: o, ..u }, za, SplitActionOf::Relayout)
        }),
        ColonCommandOf::Only => Some(if s.others > 0 {
            (SplitState { others: 0, scroll_lock: false, diff: None, ..u }, za, SplitActionOf::CloseOthers)
        } else {
            (u, za, SplitActionOf::Nothing)
        }),
        ColonCommandOf::Layout(name) => Some((u, za, SplitActionOf::LoadLayout(name.clone()))),
        ColonCommandOf::ScrollLock => Some(if s.others == 0 {
            (s, ZoomAction::Keep, flash("scroll-lock needs a split"))
        } else if s.scroll_lock {
            (SplitState { scroll_lock: false, ..s }, ZoomAction::Keep, SplitActionOf::ClearLockOffsets)
        } else {
            (SplitState { scroll_lock: true, ..s }, ZoomAction::Keep, SplitActionOf::CaptureLockOffsets)
        }),
        ColonCommandOf::Zoom => {
            let (z, a) = crate::app::toggle_zoom(s.zoomed, s.others > 0, s.diff.is_some());
            Some((SplitState { zoomed: z, ..s }, ZoomAction::Keep, SplitActionOf::Zoom(a)))
        },
        ColonCommandOf::Mouse(arg) => {
            let on = match arg { Some(b) => *b, None => !s.mouse };
            Some((SplitState { mouse: on, ..s }, ZoomAction::Keep, SplitActionOf::SetMouse(on)))
        },
        ColonCommandOf::SetEncoding(arg) => Some(match arg {
            Some(l) => match parse_label(l.as_str()) {
                Some(e) => (s, ZoomAction::Keep, SplitActionOf::SetEncoding(e)),
                None => {
                    let mut out: Vec<char> = Vec::new();
                    push_str(&mut out, "unknown encoding: ");
                    push_chars(&mut out, chars_of(l.as_str()).as_slice());
                    (s, ZoomAction::Keep, SplitActionOf::Flash(string_of(out.as_slice())))
                },
            },
            None => {
                let mut out: Vec<char> = Vec::new();
                push_str(&mut out, "encoding: ");
                push_str(&mut out, encoding);
                (s, ZoomAction::Keep, SplitActionOf::Flash(string_of(out.as_slice())))
            },
        }),
        ColonCommandOf::Diff { force } => Some(if s.others >= 2 {
            (u, za, flash("diff needs exactly 2 panes"))
        } else if s.others == 1 {
            let ws = match s.diff { Some(w) => w, None => default_ignore_ws };
            (u, za, SplitActionOf::BuildDiff { ignore_ws: ws, force: *force })
        } else {
            (u, za, flash("diff needs a split of two files"))
        }),
        ColonCommandOf::NoDiff => Some((SplitState { diff: None, ..s }, ZoomAction::Keep, SplitActionOf::Nothing)),
        ColonCommandOf::DiffToggleWs => Some(match s.diff {
            None => (s, ZoomAction::Keep, flash("diff: not in diff mode")),
            Some(w) => if s.others == 1 {
                (s, ZoomAction::Keep, SplitActionOf::BuildDiff { ignore_ws: !w, force: true })
            } else {
                (s, ZoomAction::Keep, SplitActionOf::Nothing)
            },
        }),
        _ => None,
    }
}


/// A mouse event, as far as the pager reads it.
#[derive(Debug, Clone, Copy, PartialEq, Eq, Structural)]
pub enum MouseKind {
    LeftDown,
    ScrollDown,
    ScrollUp,
    ScrollLeft,
    ScrollRight,
    Other,
}

/// The panes as a mouse event meets them.
#[derive(Debug, Clone, Copy, PartialEq, Eq, Structural)]
pub struct MouseContext {
    pub mouse_enabled: bool,
    /// How many panes there are besides the focused one.
    pub others: usize,
    pub diff_active: bool,
    pub scroll_lock: bool,
    /// Where the focused pane sits among the panes on screen.
    pub focused_pos: usize,
}

/// Where a mouse event goes.
#[derive(Debug, Clone, Copy, PartialEq, Eq, Structural)]
pub enum MouseRoute {
    /// Mouse capture is off: the event does nothing.
    Ignore,
    /// A click taken with nothing to do.
    Consume,
    /// A click on another pane: clear zoom and focus the pane at this
    /// position.
    Focus(usize),
    /// A wheel or other event for the pane at this position.
    Wheel(usize),
}

/// Where a mouse event goes: a left click focuses the pane under it (in a
/// split outside diff mode, when it is not focused already) and is taken
/// either way; the wheel drives the pane under the cursor in an
/// independent split, else the focused pane. `pane_under` is the position
/// of the pane under the cursor.
pub open spec fn mouse_route_spec(ctx: MouseContext, kind: MouseKind, pane_under: usize) -> MouseRoute {
    if !ctx.mouse_enabled {
        MouseRoute::Ignore
    } else if kind == MouseKind::LeftDown {
        if ctx.others > 0 && !ctx.diff_active && pane_under != ctx.focused_pos {
            MouseRoute::Focus(pane_under)
        } else {
            MouseRoute::Consume
        }
    } else if ctx.others > 0 && !ctx.scroll_lock && !ctx.diff_active {
        MouseRoute::Wheel(pane_under)
    } else {
        MouseRoute::Wheel(ctx.focused_pos)
    }
}

/// Route a mouse event to the pane it acts on.
pub fn mouse_route(ctx: MouseContext, kind: MouseKind, pane_under: usize) -> (r: MouseRoute)
    ensures
        r == mouse_route_spec(ctx, kind, pane_under),
{
    if !ctx.mouse_enabled {
        MouseRoute::Ignore
    } else if kind == MouseKind::LeftDown {
        if ctx.others > 0 && !ctx.diff_active && pane_under != ctx.focused_pos {
            MouseRoute::Focus(pane_under)
        } else {
            MouseRoute::Consume
        }
    } else if ctx.others > 0 && !ctx.scroll_lock && !ctx.diff_active {
        MouseRoute::Wheel(pane_under)
    } else {
        MouseRoute::Wheel(ctx.focused_pos)
    }
}

/// What a wheel event does to the pane it reaches.
#[derive(Debug, Clone, Copy, PartialEq, Eq, Structural)]
pub enum WheelAction {
    Nothing,
    /// Scroll by this many lines (negative: up).
    ScrollLines(i64),
    HScrollLeft,
    HScrollRight,
}

/// Lines per wheel notch: the `--wheel-lines` value, 1 without one, and
/// never less than 1.
pub open spec fn wheel_lines_spec(arg: Option<u16>) -> u16 {
    match arg {
        Some(n) => if n == 0 { 1u16 } else { n },
        None => 1u16,
    }
}

/// Lines per wheel notch.
pub fn wheel_lines(arg: Option<u16>) -> (n: u16)
    ensures
        n == wheel_lines_spec(arg),
        n >= 1,
{
    match arg {
        Some(n) => if n == 0 { 1 } else { n },
        None => 1,
    }
}

/// What a wheel event does: with Shift held on a pane scrolled sideways the
/// vertical wheel scrolls sideways; otherwise it scrolls `lines` lines, and
/// the horizontal wheel scrolls sideways.
pub open spec fn wheel_action_spec(kind: MouseKind, shift: bool, hscroll_active: bool, lines: u16) -> WheelAction {
    let sideways = shift && hscroll_active;
    match kind {
        MouseKind::ScrollDown => if sideways { WheelAction::HScrollRight } else { WheelAction::ScrollLines(lines as i64) },
        MouseKind::ScrollUp => if sideways { WheelAction::HScrollLeft } else { WheelAction::ScrollLines((-(lines as int)) as i64) },
        MouseKind::ScrollLeft => WheelAction::HScrollLeft,
        MouseKind::ScrollRight => WheelAction::HScrollRight,
        _ => WheelAction::Nothing,
    }
}

/// What a wheel event does to the pane it reaches.
pub fn wheel_action(kind: MouseKind, shift: bool, hscroll_active: bool, lines: u16) -> (a: WheelAction)
    ensures
        a == wheel_action_spec(kind, shift, hscroll_active, lines),
{
    let sideways = shift && hscroll_active;
    match kind {
        MouseKind::ScrollDown => if sideways { WheelAction::HScrollRight } else { WheelAction::ScrollLines(lines as i64) },
        MouseKind::ScrollUp => if sideways { WheelAction::HScrollLeft } else { WheelAction::ScrollLines(-(lines as i64)) },
        MouseKind::ScrollLeft => WheelAction::HScrollLeft,
        MouseKind::ScrollRight => WheelAction::HScrollRight,
        _ => WheelAction::Nothing,
    }
}

} // verus!
