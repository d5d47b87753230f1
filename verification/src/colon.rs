//! What a colon command does to the pager: the file set and the view
//! settings it changes, and what is left for the event loop to carry out
//! (opening a file, quitting, commands that need the panes). The tag
//! commands step the tag stack given what the tags file holds, the grep,
//! display, format and filter commands build their predicates from the
//! loaded formats, and `:yank` reports on the copy.

use vstd::prelude::*;
use crate::app::{ActiveMatches, ColonCommand, ColonCommandOf, TagStack, TagStepResult};
use crate::tags::TagEntry;
use crate::file_set::{model_delete, model_next, model_prev, model_wf, FileSet, FileSetError, FileSetModel};
use crate::hex::hex_chars_to_bytes_per_group;
use crate::input::Command;
use crate::render::AnsiMode;
use crate::text::{decimal_chars, decimal_of, push_chars, push_str, string_of};
use crate::viewport::CaseMode;
use crate::filter::{compiled_pred, filter_compile_error, parse_filter_spec, CompiledFilter, FilterSpec, SpecView};
use crate::format::{compile_spec, DisplayRenderer, DisplayTemplate, LogFormat, SegmentView};
use crate::grep::{first_bad_pattern, grep_error_text, GrepPredicate};
use crate::layout::{find_format, first_named};
use crate::pattern::{bytes_regex_error, text_regex_error, ByteRegex};
use crate::text::{chars_of, string_views};

verus! {

/// The view settings that colon commands set.
#[derive(Debug, Clone, Copy, PartialEq, Eq, Structural)]
pub struct ViewSettings {
    /// Whether the view is a hex dump.
    pub hex_mode: bool,
    /// Bytes per hex group.
    pub hex_group: usize,
    pub ansi_mode: AnsiMode,
    pub header_rows: usize,
    pub header_cols: usize,
    pub hilite_search: bool,
    pub incsearch: bool,
    pub search_skip_screen: bool,
    pub tilde_eof: bool,
    pub case_mode: CaseMode,
}

/// What is left to do after a colon command. `S` is the text type.
#[derive(Debug, Clone, PartialEq)]
pub enum ColonActionOf<S> {
    Nothing,
    /// Show this on the status line.
    Message(S),
    /// Open the set's current file and switch the view to it.
    SwitchToCurrent,
    /// Open this path; when that works, append it to the set and switch.
    OpenAndAppend(S),
    /// Report the current file and position.
    ShowFile,
    Quit,
    /// Hand the command to the key dispatcher.
    Dispatch(Command),
    /// A command the event loop handles itself.
    EventLoop(ColonCommandOf<S>),
}

pub type ColonAction = ColonActionOf<String>;

impl View for ColonActionOf<String> {
    type V = ColonActionOf<Seq<char>>;

    open spec fn view(&self) -> ColonActionOf<Seq<char>> {
        match self {
            ColonActionOf::Nothing => ColonActionOf::Nothing,
            ColonActionOf::Message(s) => ColonActionOf::Message(s@),
            ColonActionOf::SwitchToCurrent => ColonActionOf::SwitchToCurrent,
            ColonActionOf::OpenAndAppend(s) => ColonActionOf::OpenAndAppend(s@),
            ColonActionOf::ShowFile => ColonActionOf::ShowFile,
            ColonActionOf::Quit => ColonActionOf::Quit,
            ColonActionOf::Dispatch(c) => ColonActionOf::Dispatch(*c),
            ColonActionOf::EventLoop(c) => ColonActionOf::EventLoop(c@),
        }
    }
}

/// A file-set error as the status line shows it: in brackets.
pub open spec fn set_error_text(e: FileSetError) -> Seq<char> {
    "["@ + match e {
        FileSetError::NoNextFile => "no next file"@,
        FileSetError::NoPreviousFile => "no previous file"@,
        FileSetError::WouldEmpty => "cannot remove last file"@,
    } + "]"@
}

/// The outcome of a refusable step of the file set.
pub open spec fn set_step(m: FileSetModel, r: Result<FileSetModel, FileSetError>) -> (FileSetModel, ColonActionOf<Seq<char>>) {
    match r {
        Ok(n) => (n, ColonActionOf::SwitchToCurrent),
        Err(e) => (m, ColonActionOf::Message(set_error_text(e))),
    }
}

pub open spec fn on_off(on: bool) -> Seq<char> {
    if on { "on"@ } else { "off"@ }
}

pub open spec fn ansi_label(m: AnsiMode) -> Seq<char> {
    match m {
        AnsiMode::Strict => "strict"@,
        AnsiMode::Interpret => "interpret"@,
        AnsiMode::Raw => "raw"@,
    }
}

pub open spec fn case_label(m: CaseMode) -> Seq<char> {
    match m {
        CaseMode::Sensitive => "sensitive"@,
        CaseMode::Smart => "smart"@,
        CaseMode::Insensitive => "insensitive"@,
    }
}

/// The next ANSI mode in the cycle.
pub open spec fn next_ansi(m: AnsiMode) -> AnsiMode {
    match m {
        AnsiMode::Strict => AnsiMode::Interpret,
        AnsiMode::Interpret => AnsiMode::Raw,
        AnsiMode::Raw => AnsiMode::Strict,
    }
}

/// The next case policy in the cycle.
pub open spec fn next_case(m: CaseMode) -> CaseMode {
    match m {
        CaseMode::Sensitive => CaseMode::Smart,
        CaseMode::Smart => CaseMode::Insensitive,
        CaseMode::Insensitive => CaseMode::Sensitive,
    }
}

/// What a colon command does: the new file set, the new settings and what
/// is left to do.
pub open spec fn colon_transition(m: FileSetModel, v: ViewSettings, cmd: ColonCommandOf<Seq<char>>) -> (FileSetModel, ViewSettings, ColonActionOf<Seq<char>>) {
    match cmd {
        ColonCommandOf::Next => { let (n, a) = set_step(m, model_next(m)); (n, v, a) },
        ColonCommandOf::Prev => { let (n, a) = set_step(m, model_prev(m)); (n, v, a) },
        ColonCommandOf::Delete => { let (n, a) = set_step(m, model_delete(m)); (n, v, a) },
        ColonCommandOf::First => if m.index == 0 {
            (m, v, ColonActionOf::Nothing)
        } else {
            (FileSetModel { paths: m.paths, index: 0 }, v, ColonActionOf::SwitchToCurrent)
        },
        ColonCommandOf::Last => if m.index + 1 == m.paths.len() || m.paths.len() == 0 {
            (m, v, ColonActionOf::Nothing)
        } else {
            (FileSetModel { paths: m.paths, index: (m.paths.len() - 1) as nat }, v, ColonActionOf::SwitchToCurrent)
        },
        ColonCommandOf::Edit(p) => (m, v, ColonActionOf::OpenAndAppend(p)),
        ColonCommandOf::ShowFile => (m, v, ColonActionOf::ShowFile),
        ColonCommandOf::Quit => (m, v, ColonActionOf::Quit),
        ColonCommandOf::OpenPicker => (m, v, ColonActionOf::Dispatch(Command::OpenPicker)),
        ColonCommandOf::OpenHelp => (m, v, ColonActionOf::Dispatch(Command::OpenHelp)),
        ColonCommandOf::HexGroup(n) => if !v.hex_mode {
            (m, v, ColonActionOf::Message("[:hex requires --hex mode]"@))
        } else {
            (m, ViewSettings { hex_group: (n / 2) as usize, ..v },
                ColonActionOf::Message("[hex group: "@ + decimal_of(n as nat) + " chars]"@))
        },
        ColonCommandOf::Color(mode) => {
            let next = match mode { Some(x) => x, None => next_ansi(v.ansi_mode) };
            (m, ViewSettings { ansi_mode: next, ..v }, ColonActionOf::Message("[color: "@ + ansi_label(next) + "]"@))
        },
        ColonCommandOf::Header(l, c) => (m, ViewSettings { header_rows: l, header_cols: c, ..v },
            ColonActionOf::Message("[header: "@ + decimal_of(l as nat) + " rows, "@ + decimal_of(c as nat) + " cols]"@)),
        ColonCommandOf::HlSearch(on) => (m, ViewSettings { hilite_search: on, ..v },
            ColonActionOf::Message("[hlsearch "@ + on_off(on) + "]"@)),
        ColonCommandOf::IncSearch => (m, ViewSettings { incsearch: !v.incsearch, ..v },
            ColonActionOf::Message("[incsearch "@ + on_off(!v.incsearch) + "]"@)),
        ColonCommandOf::SearchSkipScreen => (m, ViewSettings { search_skip_screen: !v.search_skip_screen, ..v },
            ColonActionOf::Message("[search-skip-screen "@ + on_off(!v.search_skip_screen) + "]"@)),
        ColonCommandOf::Tilde => (m, ViewSettings { tilde_eof: !v.tilde_eof, ..v },
            ColonActionOf::Message("[tilde "@ + on_off(!v.tilde_eof) + "]"@)),
        ColonCommandOf::Case(mode) => {
            let next = match mode { Some(x) => x, None => next_case(v.case_mode) };
            (m, ViewSettings { case_mode: next, ..v }, ColonActionOf::Message("[case: "@ + case_label(next) + "]"@))
        },
        _ => (m, v, ColonActionOf::EventLoop(cmd)),
    }
}

/// `[` text `]`.
fn bracketed(lead: &str, mid: &[char], tail: &str) -> (s: String)
    ensures
        s@ == lead@ + mid@ + tail@,
{
    let mut out: Vec<char> = Vec::new();
    push_str(&mut out, lead);
    push_chars(&mut out, mid);
    push_str(&mut out, tail);
    string_of(out.as_slice())
}

fn set_error_message(e: FileSetError) -> (s: String)
    ensures
        s@ == set_error_text(e),
{
    let t = e.message();
    bracketed("[", crate::text::chars_of(t.as_str()).as_slice(), "]")
}

fn on_off_str(on: bool) -> (s: &'static str)
    ensures
        s@ == on_off(on),
{
    if on { "on" } else { "off" }
}

/// `:x` goes to the first file and `:t` to the last: the set's paths and
/// the view stay as they were, the current file becomes the first (the
/// last), and the view switches to it exactly when it was not there
/// already.
pub proof fn lemma_first_and_last_files(m: FileSetModel, v: ViewSettings)
    ensures
        ({
            let (n, w, a) = colon_transition(m, v, ColonCommandOf::First);
            &&& n.paths == m.paths && w == v && n.index == 0
            &&& (a == ColonActionOf::<Seq<char>>::SwitchToCurrent <==> m.index != 0)
            &&& (m.index == 0 ==> a == ColonActionOf::<Seq<char>>::Nothing)
        }),
        m.paths.len() > 0 && m.index < m.paths.len() ==> ({
            let (n, w, a) = colon_transition(m, v, ColonCommandOf::Last);
            &&& n.paths == m.paths && w == v && n.index == m.paths.len() - 1
            &&& (a == ColonActionOf::<Seq<char>>::SwitchToCurrent <==> m.index != m.paths.len() - 1)
            &&& (m.index == m.paths.len() - 1 ==> a == ColonActionOf::<Seq<char>>::Nothing)
        }),
{
}

/// `:n` and `:p` move one file forward and back, and `:d` drops the
/// current file: each keeps the view settings, switches to the new current
/// file when it moves, and otherwise leaves the set as it was and says why
/// (no next file, no previous file, the last file cannot go).
pub proof fn lemma_file_moves(m: FileSetModel, v: ViewSettings)
    requires
        model_wf(m),
    ensures
        ({
            let (n, w, a) = colon_transition(m, v, ColonCommandOf::Next);
            &&& w == v
            &&& m.index + 1 < m.paths.len() ==> n.paths == m.paths && n.index == m.index + 1
                && a == ColonActionOf::<Seq<char>>::SwitchToCurrent
            &&& m.index + 1 >= m.paths.len() ==> n == m && a == ColonActionOf::Message("[no next file]"@)
        }),
        ({
            let (n, w, a) = colon_transition(m, v, ColonCommandOf::Prev);
            &&& w == v
            &&& m.index > 0 ==> n.paths == m.paths && n.index == m.index - 1
                && a == ColonActionOf::<Seq<char>>::SwitchToCurrent
            &&& m.index == 0 ==> n == m && a == ColonActionOf::Message("[no previous file]"@)
        }),
        ({
            let (n, w, a) = colon_transition(m, v, ColonCommandOf::Delete);
            &&& w == v
            &&& m.paths.len() > 1 ==> n.paths == m.paths.remove(m.index as int) && n.index < n.paths.len()
                && a == ColonActionOf::<Seq<char>>::SwitchToCurrent
            &&& m.paths.len() <= 1 ==> n == m && a == ColonActionOf::Message("[cannot remove last file]"@)
        }),
{
    reveal_strlit("[");
    reveal_strlit("]");
    reveal_strlit("no next file");
    reveal_strlit("no previous file");
    reveal_strlit("cannot remove last file");
    reveal_strlit("[no next file]");
    reveal_strlit("[no previous file]");
    reveal_strlit("[cannot remove last file]");
    assert("["@ + "no next file"@ + "]"@ =~= "[no next file]"@);
    assert("["@ + "no previous file"@ + "]"@ =~= "[no previous file]"@);
    assert("["@ + "cannot remove last file"@ + "]"@ =~= "[cannot remove last file]"@);
}

/// The view-setting commands change only their own setting: `:hlsearch`
/// sets highlighting; `:incsearch`, `:search-skip-screen` and `:tilde`
/// flip theirs; `:header L C` sets the header; `:color` and `:case` set
/// the mode given, or without one step strict, interpret, raw and
/// sensitive, smart, insensitive round; `:hex N` in hex mode groups N
/// hex characters (N/2 bytes) and outside it changes nothing. None of
/// them touches the file set.
pub proof fn lemma_view_settings(m: FileSetModel, v: ViewSettings, on: bool, l: usize, c: usize, n: usize)
    ensures
        colon_transition(m, v, ColonCommandOf::HlSearch(on)).1 == (ViewSettings { hilite_search: on, ..v }),
        colon_transition(m, v, ColonCommandOf::IncSearch).1 == (ViewSettings { incsearch: !v.incsearch, ..v }),
        colon_transition(m, v, ColonCommandOf::SearchSkipScreen).1 == (ViewSettings { search_skip_screen: !v.search_skip_screen, ..v }),
        colon_transition(m, v, ColonCommandOf::Tilde).1 == (ViewSettings { tilde_eof: !v.tilde_eof, ..v }),
        colon_transition(m, v, ColonCommandOf::Header(l, c)).1 == (ViewSettings { header_rows: l, header_cols: c, ..v }),
        colon_transition(m, v, ColonCommandOf::Color(Some(AnsiMode::Raw))).1.ansi_mode == AnsiMode::Raw,
        v.ansi_mode == AnsiMode::Strict ==> colon_transition(m, v, ColonCommandOf::Color(None)).1.ansi_mode == AnsiMode::Interpret,
        v.ansi_mode == AnsiMode::Interpret ==> colon_transition(m, v, ColonCommandOf::Color(None)).1.ansi_mode == AnsiMode::Raw,
        v.ansi_mode == AnsiMode::Raw ==> colon_transition(m, v, ColonCommandOf::Color(None)).1.ansi_mode == AnsiMode::Strict,
        colon_transition(m, v, ColonCommandOf::Case(Some(CaseMode::Smart))).1.case_mode == CaseMode::Smart,
        v.case_mode == CaseMode::Sensitive ==> colon_transition(m, v, ColonCommandOf::Case(None)).1.case_mode == CaseMode::Smart,
        v.case_mode == CaseMode::Smart ==> colon_transition(m, v, ColonCommandOf::Case(None)).1.case_mode == CaseMode::Insensitive,
        v.case_mode == CaseMode::Insensitive ==> colon_transition(m, v, ColonCommandOf::Case(None)).1.case_mode == CaseMode::Sensitive,
        v.hex_mode ==> colon_transition(m, v, ColonCommandOf::HexGroup(n)).1 == (ViewSettings { hex_group: (n / 2) as usize, ..v }),
        !v.hex_mode ==> colon_transition(m, v, ColonCommandOf::HexGroup(n)).1 == v,
        colon_transition(m, v, ColonCommandOf::HlSearch(on)).0 == m && colon_transition(m, v, ColonCommandOf::Tilde).0 == m
            && colon_transition(m, v, ColonCommandOf::HexGroup(n)).0 == m && colon_transition(m, v, ColonCommandOf::Color(None)).0 == m,
{
}

/// The commands the event loop carries out leave the file set and the view
/// as they were: `:q` quits, `:e PATH` asks to open PATH and add it, `:f`
/// asks for the file report, and `:b` and `:help` hand the picker and the
/// help to the key dispatcher.
pub proof fn lemma_handed_on(m: FileSetModel, v: ViewSettings, p: Seq<char>)
    ensures
        colon_transition(m, v, ColonCommandOf::Quit) == (m, v, ColonActionOf::<Seq<char>>::Quit),
        colon_transition(m, v, ColonCommandOf::Edit(p)) == (m, v, ColonActionOf::OpenAndAppend(p)),
        colon_transition(m, v, ColonCommandOf::ShowFile) == (m, v, ColonActionOf::<Seq<char>>::ShowFile),
        colon_transition(m, v, ColonCommandOf::OpenPicker) == (m, v, ColonActionOf::<Seq<char>>::Dispatch(Command::OpenPicker)),
        colon_transition(m, v, ColonCommandOf::OpenHelp) == (m, v, ColonActionOf::<Seq<char>>::Dispatch(Command::OpenHelp)),
{
}

/// Carry out a colon command on the file set and the view settings, and
/// say what is left to do. In hex mode a `:hex` width must be one the
/// parser accepts.
pub fn colon_step(file_set: &mut FileSet, view: &mut ViewSettings, cmd: ColonCommand) -> (a: ColonAction)
    requires
        cmd@ matches ColonCommandOf::HexGroup(n) ==> (old(view).hex_mode ==> (n == 2 || n == 4 || n == 8 || n == 16 || n == 32)),
    ensures
        (final(file_set)@, *final(view), a@) == colon_transition(old(file_set)@, *old(view), cmd@),
{
    proof {
        reveal_strlit("[");
        reveal_strlit("]");
    }
    match cmd {
        ColonCommandOf::Next => match file_set.next() {
            Ok(_) => ColonActionOf::SwitchToCurrent,
            Err(e) => ColonActionOf::Message(set_error_message(e)),
        },
        ColonCommandOf::Prev => match file_set.prev() {
            Ok(_) => ColonActionOf::SwitchToCurrent,
            Err(e) => ColonActionOf::Message(set_error_message(e)),
        },
        ColonCommandOf::Delete => match file_set.delete_current() {
            Ok(_) => ColonActionOf::SwitchToCurrent,
            Err(e) => ColonActionOf::Message(set_error_message(e)),
        },
        ColonCommandOf::First => {
            if file_set.current_index() == 0 {
                ColonActionOf::Nothing
            } else {
                let _ = file_set.first();
                ColonActionOf::SwitchToCurrent
            }
        },
        ColonCommandOf::Last => {
            if file_set.is_empty() || file_set.current_index() == file_set.len() - 1 {
                ColonActionOf::Nothing
            } else {
                let _ = file_set.last();
                ColonActionOf::SwitchToCurrent
            }
        },
        ColonCommandOf::Edit(p) => ColonActionOf::OpenAndAppend(p),
        ColonCommandOf::ShowFile => ColonActionOf::ShowFile,
        ColonCommandOf::Quit => ColonActionOf::Quit,
        ColonCommandOf::OpenPicker => ColonActionOf::Dispatch(Command::OpenPicker),
        ColonCommandOf::OpenHelp => ColonActionOf::Dispatch(Command::OpenHelp),
        ColonCommandOf::HexGroup(n) => {
            if !view.hex_mode {
                ColonActionOf::Message(String::from_str("[:hex requires --hex mode]"))
            } else {
                let bpg = match hex_chars_to_bytes_per_group(n) {
                    Some(g) => g,
                    None => n / 2,
                };
                view.hex_group = bpg;
                let d = decimal_chars(n as u64);
                ColonActionOf::Message(bracketed("[hex group: ", d.as_slice(), " chars]"))
            }
        },
        ColonCommandOf::Color(mode) => {
            let next = match mode {
                Some(x) => x,
                None => match view.ansi_mode {
                    AnsiMode::Strict => AnsiMode::Interpret,
                    AnsiMode::Interpret => AnsiMode::Raw,
                    AnsiMode::Raw => AnsiMode::Strict,
                },
            };
            view.ansi_mode = next;
            let label = match next {
                AnsiMode::Strict => "strict",
                AnsiMode::Interpret => "interpret",
                AnsiMode::Raw => "raw",
            };
            let mut out: Vec<char> = Vec::new();
            push_str(&mut out, "[color: ");
            push_str(&mut out, label);
            push_str(&mut out, "]");
            ColonActionOf::Message(string_of(out.as_slice()))
        },
        ColonCommandOf::Header(l, c) => {
            view.header_rows = l;
            view.header_cols = c;
            let mut out: Vec<char> = Vec::new();
            push_str(&mut out, "[header: ");
            let dl = decimal_chars(l as u64);
            push_chars(&mut out, dl.as_slice());
            push_str(&mut out, " rows, ");
            let dc = decimal_chars(c as u64);
            push_chars(&mut out, dc.as_slice());
            push_str(&mut out, " cols]");
            ColonActionOf::Message(string_of(out.as_slice()))
        },
        ColonCommandOf::HlSearch(on) => {
            view.hilite_search = on;
            ColonActionOf::Message(bracketed("[hlsearch ", crate::text::chars_of(on_off_str(on)).as_slice(), "]"))
        },
        ColonCommandOf::IncSearch => {
            let on = !view.incsearch;
            view.incsearch = on;
            ColonActionOf::Message(bracketed("[incsearch ", crate::text::chars_of(on_off_str(on)).as_slice(), "]"))
        },
        ColonCommandOf::SearchSkipScreen => {
            let on = !view.search_skip_screen;
            view.search_skip_screen = on;
            ColonActionOf::Message(bracketed("[search-skip-screen ", crate::text::chars_of(on_off_str(on)).as_slice(), "]"))
        },
        ColonCommandOf::Tilde => {
            let on = !view.tilde_eof;
            view.tilde_eof = on;
            ColonActionOf::Message(bracketed("[tilde ", crate::text::chars_of(on_off_str(on)).as_slice(), "]"))
        },
        ColonCommandOf::Case(mode) => {
            let next = match mode {
                Some(x) => x,
                None => match view.case_mode {
                    CaseMode::Sensitive => CaseMode::Smart,
                    CaseMode::Smart => CaseMode::Insensitive,
                    CaseMode::Insensitive => CaseMode::Sensitive,
                },
            };
            view.case_mode = next;
            let label = match next {
                CaseMode::Sensitive => "sensitive",
                CaseMode::Smart => "smart",
                CaseMode::Insensitive => "insensitive",
            };
            let mut out: Vec<char> = Vec::new();
            push_str(&mut out, "[case: ");
            push_str(&mut out, label);
            push_str(&mut out, "]");
            ColonActionOf::Message(string_of(out.as_slice()))
        },
        other => ColonActionOf::EventLoop(other),
    }
}

/// The status-line report of `:f`: the source label, the file's place in
/// the set when there is more than one, the top line and the line count
/// (both counted from 1 for the top).
pub open spec fn show_file_text(label: Seq<char>, cur: nat, total: nat, top: nat, lines: nat) -> Seq<char> {
    if total > 1 {
        label + " (file "@ + decimal_of(cur + 1) + "/"@ + decimal_of(total) + "): line "@ + decimal_of(top + 1) + "/"@ + decimal_of(lines)
    } else {
        label + ": line "@ + decimal_of(top + 1) + "/"@ + decimal_of(lines)
    }
}

/// The `:f` report for file `cur` (0-based) of `total`, the view's top line
/// `top` (0-based) and `lines` lines.
pub fn show_file_message(label: &str, cur: u64, total: u64, top: u64, lines: u64) -> (s: String)
    requires
        cur < u64::MAX,
        top < u64::MAX,
    ensures
        s@ == show_file_text(label@, cur as nat, total as nat, top as nat, lines as nat),
{
    let mut out: Vec<char> = Vec::new();
    push_str(&mut out, label);
    if total > 1 {
        push_str(&mut out, " (file ");
        push_chars(&mut out, decimal_chars(cur + 1).as_slice());
        push_str(&mut out, "/");
        push_chars(&mut out, decimal_chars(total).as_slice());
        push_str(&mut out, "): line ");
    } else {
        push_str(&mut out, ": line ");
    }
    push_chars(&mut out, decimal_chars(top + 1).as_slice());
    push_str(&mut out, "/");
    push_chars(&mut out, decimal_chars(lines).as_slice());
    string_of(out.as_slice())
}


/// What a `:grep`, `:display`, `:format` or `:filter` command changes on
/// the view.
pub enum PredicateChange {
    /// Nothing; the message says why.
    Keep,
    ClearGrep,
    SetGrep(GrepPredicate),
    ClearDisplay,
    SetDisplay(DisplayRenderer),
    /// Drop the format's label, the filter and the record-start regex.
    ClearFormat,
    /// Take the format's name as the label and its record-start regex.
    SetFormat(String, Option<ByteRegex>),
    ClearFilter,
    SetFilter(CompiledFilter),
}

/// The kind of a change, without what it carries.
#[derive(Debug, Clone, Copy, PartialEq, Eq, Structural)]
pub enum ChangeKind {
    Keep,
    ClearGrep,
    SetGrep,
    ClearDisplay,
    SetDisplay,
    ClearFormat,
    SetFormat,
    ClearFilter,
    SetFilter,
}

pub open spec fn kind_of(c: PredicateChange) -> ChangeKind {
    match c {
        PredicateChange::Keep => ChangeKind::Keep,
        PredicateChange::ClearGrep => ChangeKind::ClearGrep,
        PredicateChange::SetGrep(_) => ChangeKind::SetGrep,
        PredicateChange::ClearDisplay => ChangeKind::ClearDisplay,
        PredicateChange::SetDisplay(_) => ChangeKind::SetDisplay,
        PredicateChange::ClearFormat => ChangeKind::ClearFormat,
        PredicateChange::SetFormat(_, _) => ChangeKind::SetFormat,
        PredicateChange::ClearFilter => ChangeKind::ClearFilter,
        PredicateChange::SetFilter(_) => ChangeKind::SetFilter,
    }
}

/// What a format-related colon command does, as a change kind and the
/// status message, given the formats and the view's current format label;
/// `None` for other commands. A display template or a filter needs a
/// format on the view; a filter's regex operands follow `mode`.
pub open spec fn predicate_outcome(
    cmd: ColonCommandOf<Seq<char>>,
    formats: Seq<LogFormat>,
    label: Option<Seq<char>>,
    mode: CaseMode,
) -> Option<(ChangeKind, Seq<char>)> {
    match cmd {
        ColonCommandOf::Grep(None) => Some((ChangeKind::ClearGrep, "[grep cleared]"@)),
        ColonCommandOf::Grep(Some(p)) => if text_regex_error(p) is None {
            Some((ChangeKind::SetGrep, "[grep: "@ + p + "]"@))
        } else {
            Some((ChangeKind::Keep, "grep: "@ + grep_error_text(p)))
        },
        ColonCommandOf::Display(None) => Some((ChangeKind::ClearDisplay, "[display cleared]"@)),
        ColonCommandOf::Display(Some(t)) => match label {
            None => Some((ChangeKind::Keep, "display needs a format (:format NAME)"@)),
            Some(n) => match first_named(formats, n, 0) {
                None => Some((ChangeKind::Keep, "unknown format: "@ + n)),
                Some(k) => match compile_spec(t, string_views(formats[k].field_names@)) {
                    Ok(_) => Some((ChangeKind::SetDisplay, "[display set]"@)),
                    Err(e) => Some((ChangeKind::Keep, "display: "@ + e)),
                },
            },
        },
        ColonCommandOf::Format(None) => Some((ChangeKind::ClearFormat, "[format cleared]"@)),
        ColonCommandOf::Format(Some(n)) => match first_named(formats, n, 0) {
            None => Some((ChangeKind::Keep, "unknown format: "@ + n)),
            Some(_) => Some((ChangeKind::SetFormat, "[format: "@ + n + "]"@)),
        },
        ColonCommandOf::Filter(None) => Some((ChangeKind::ClearFilter, "[filter cleared]"@)),
        ColonCommandOf::Filter(Some(s)) => match label {
            None => Some((ChangeKind::Keep, "filter needs a format (:format NAME)"@)),
            Some(n) => match first_named(formats, n, 0) {
                None => Some((ChangeKind::Keep, "unknown format: "@ + n)),
                Some(k) => match parse_filter_spec(s) {
                    Err(e) => Some((ChangeKind::Keep, "filter: "@ + e)),
                    Ok(sp) => {
                        let f = formats[k];
                        match filter_compile_error(string_views(f.field_names@), f.name@, f.regex@, seq![sp], mode) {
                            Some(e) => Some((ChangeKind::Keep, "filter: "@ + e)),
                            None => Some((ChangeKind::SetFilter, "[filter: "@ + s + "]"@)),
                        }
                    },
                },
            },
        },
        _ => None,
    }
}

/// What the new grep, display, format or filter carries.
pub open spec fn change_payload_ok(
    c: PredicateChange,
    cmd: ColonCommandOf<Seq<char>>,
    formats: Seq<LogFormat>,
    label: Option<Seq<char>>,
    mode: CaseMode,
) -> bool {
    match c {
        PredicateChange::SetGrep(g) => cmd matches ColonCommandOf::Grep(Some(p)) && g.patterns() == seq![p],
        PredicateChange::SetDisplay(d) => cmd matches ColonCommandOf::Display(Some(t)) && (
            label matches Some(n) && (first_named(formats, n, 0) matches Some(k) && (
                compile_spec(t, string_views(formats[k].field_names@)) == Ok::<Seq<SegmentView>, Seq<char>>(d.template_spec().segs())
                && d.template_spec().source_text() == t && d.pattern() == formats[k].regex@))),
        PredicateChange::SetFormat(l, rs) => cmd matches ColonCommandOf::Format(Some(n)) && (l@ == n
            && (first_named(formats, n, 0) matches Some(k) && match formats[k].record_start {
                None => rs is None,
                Some(re) => (rs is Some <==> bytes_regex_error(re@) is None) && (rs matches Some(b) ==> b@ == re@),
            })),
        PredicateChange::SetFilter(f) => cmd matches ColonCommandOf::Filter(Some(s)) && (
            label matches Some(n) && (first_named(formats, n, 0) matches Some(k) && (
                parse_filter_spec(s) matches Ok(sp) && (
                    f.wf() && f.name() == formats[k].name@ && f.pattern() == formats[k].regex@
                    && f.preds() == seq![compiled_pred(sp, mode)])))),
        _ => true,
    }
}

fn text_message(lead: &str, mid: &str, tail: &str) -> (s: String)
    ensures
        s@ == lead@ + mid@ + tail@,
{
    bracketed(lead, chars_of(mid).as_slice(), tail)
}

/// Carry out `:grep`, `:display`, `:format` or `:filter` against the loaded
/// `formats` and the view's format `label`: the change to make and the
/// status message. `None` for any other command.
pub fn colon_predicates(cmd: &ColonCommand, formats: &[LogFormat], label: Option<&str>, case_mode: CaseMode) -> (r: Option<(PredicateChange, String)>)
    ensures
        ({
            let lv = match label { Some(l) => Some(l@), None => None };
            &&& (r is None <==> predicate_outcome(cmd@, formats@, lv, case_mode) is None)
            &&& (r matches Some(out) ==> predicate_outcome(cmd@, formats@, lv, case_mode) == Some((kind_of(out.0), out.1@))
                && change_payload_ok(out.0, cmd@, formats@, lv, case_mode))
        }),
{
    proof {
        reveal_strlit("]");
        reveal_strlit("");
    }
    match cmd {
        ColonCommandOf::Grep(None) => Some((PredicateChange::ClearGrep, String::from_str("[grep cleared]"))),
        ColonCommandOf::Grep(Some(p)) => {
            let pats: Vec<String> = vec![p.clone()];
            proof {
                let ps = crate::grep::string_views(pats@);
                assert(ps =~= seq![p@]);
                assert(ps.drop_last() =~= Seq::<Seq<char>>::empty());
                assert(first_bad_pattern(ps.drop_last()) is None);
                assert(ps.last() == p@);
                assert(first_bad_pattern(ps) is None <==> text_regex_error(p@) is None);
            }
            match GrepPredicate::compile(pats.as_slice()) {
                Ok(g) => Some((PredicateChange::SetGrep(g), text_message("[grep: ", p.as_str(), "]"))),
                Err(e) => Some((PredicateChange::Keep, text_message("grep: ", e.as_str(), ""))),
            }
        },
        ColonCommandOf::Display(None) => Some((PredicateChange::ClearDisplay, String::from_str("[display cleared]"))),
        ColonCommandOf::Display(Some(t)) => match label {
            None => Some((PredicateChange::Keep, String::from_str("display needs a format (:format NAME)"))),
            Some(n) => match find_format(formats, n) {
                None => Some((PredicateChange::Keep, text_message("unknown format: ", n, ""))),
                Some(k) => {
                    let fmt = &formats[k];
                    match DisplayTemplate::compile(t.as_str(), fmt.field_names.as_slice()) {
                        Ok(tpl) => Some((
                            PredicateChange::SetDisplay(DisplayRenderer::new(tpl, fmt.regex.clone_regex())),
                            String::from_str("[display set]"),
                        )),
                        Err(e) => Some((PredicateChange::Keep, text_message("display: ", e.as_str(), ""))),
                    }
                },
            },
        },
        ColonCommandOf::Format(None) => Some((PredicateChange::ClearFormat, String::from_str("[format cleared]"))),
        ColonCommandOf::Format(Some(n)) => match find_format(formats, n.as_str()) {
            None => Some((PredicateChange::Keep, text_message("unknown format: ", n.as_str(), ""))),
            Some(k) => {
                let fmt = &formats[k];
                let rs = match &fmt.record_start {
                    Some(re) => match ByteRegex::new(re.as_str()) {
                        Ok(b) => Some(b),
                        Err(_) => None,
                    },
                    None => None,
                };
                Some((PredicateChange::SetFormat(n.clone(), rs), text_message("[format: ", n.as_str(), "]")))
            },
        },
        ColonCommandOf::Filter(None) => Some((PredicateChange::ClearFilter, String::from_str("[filter cleared]"))),
        ColonCommandOf::Filter(Some(s)) => match label {
            None => Some((PredicateChange::Keep, String::from_str("filter needs a format (:format NAME)"))),
            Some(n) => match find_format(formats, n) {
                None => Some((PredicateChange::Keep, text_message("unknown format: ", n, ""))),
                Some(k) => {
                    let fmt = &formats[k];
                    match FilterSpec::parse(s.as_str()) {
                        Err(e) => Some((PredicateChange::Keep, text_message("filter: ", e.as_str(), ""))),
                        Ok(spec) => {
                            let ghost sp: SpecView = (spec.field@, spec.op, spec.value@);
                            let specs: Vec<FilterSpec> = vec![spec];
                            assert(crate::filter::specs_view(specs@) =~= seq![sp]);
                            match CompiledFilter::compile(fmt, specs, case_mode) {
                                Ok(f) => {
                                    assert(seq![sp].map_values(|x: SpecView| compiled_pred(x, case_mode)) =~= seq![compiled_pred(sp, case_mode)]);
                                    Some((PredicateChange::SetFilter(f), text_message("[filter: ", s.as_str(), "]")))
                                },
                                Err(e) => Some((PredicateChange::Keep, text_message("filter: ", e.as_str(), ""))),
                            }
                        },
                    }
                },
            },
        },
        _ => None,
    }
}


/// What is left to do after a tag colon command. `S` is the text type.
#[derive(Debug, Clone, PartialEq)]
pub enum TagActionOf<S> {
    /// Show this on the status line.
    Message(S),
    /// Jump to this entry of the active match list.
    ShowMatch(usize),
    /// Open the picker over the active match list.
    OpenTagPicker,
}

pub type TagAction = TagActionOf<String>;

impl View for TagActionOf<String> {
    type V = TagActionOf<Seq<char>>;

    open spec fn view(&self) -> TagActionOf<Seq<char>> {
        match self {
            TagActionOf::Message(s) => TagActionOf::Message(s@),
            TagActionOf::ShowMatch(i) => TagActionOf::ShowMatch(*i),
            TagActionOf::OpenTagPicker => TagActionOf::OpenTagPicker,
        }
    }
}

/// The action for a step through the match list; `boundary` is the
/// message at the end of the list.
pub open spec fn tag_step_action(r: TagStepResult, boundary: Seq<char>) -> TagActionOf<Seq<char>> {
    match r {
        TagStepResult::NoActive => TagActionOf::Message("[no active tag]"@),
        TagStepResult::AtBoundary => TagActionOf::Message(boundary),
        TagStepResult::Moved(c) => TagActionOf::ShowMatch(c),
    }
}

/// Carry out `:tn`, `:tp` or `:ts` on the tag stack. `found` is what the
/// tags file holds for the name `:ts` gives (`None` when no tags file is
/// loaded). `None` for any other command.
pub fn colon_tag_step(stack: &mut TagStack, cmd: &ColonCommand, found: Option<Vec<TagEntry>>) -> (r: Option<TagAction>)
    ensures
        final(stack).history == old(stack).history,
        match cmd@ {
            ColonCommandOf::TagNext => r matches Some(a) && {
                let a0 = old(stack).active;
                match a0 {
                    None => a@ == tag_step_action(TagStepResult::NoActive, "[no more matches]"@) && final(stack).active == a0,
                    Some(x) => if x.cursor + 1 >= x.matches@.len() {
                        a@ == tag_step_action(TagStepResult::AtBoundary, "[no more matches]"@) && final(stack).active == a0
                    } else {
                        a@ == tag_step_action(TagStepResult::Moved((x.cursor + 1) as usize), "[no more matches]"@)
                            && final(stack).active == Some(ActiveMatches { cursor: (x.cursor + 1) as usize, ..x })
                    },
                }
            },
            ColonCommandOf::TagPrev => r matches Some(a) && {
                let a0 = old(stack).active;
                match a0 {
                    None => a@ == tag_step_action(TagStepResult::NoActive, "[at first match]"@) && final(stack).active == a0,
                    Some(x) => if x.cursor == 0 {
                        a@ == tag_step_action(TagStepResult::AtBoundary, "[at first match]"@) && final(stack).active == a0
                    } else {
                        a@ == tag_step_action(TagStepResult::Moved((x.cursor - 1) as usize), "[at first match]"@)
                            && final(stack).active == Some(ActiveMatches { cursor: (x.cursor - 1) as usize, ..x })
                    },
                }
            },
            ColonCommandOf::TagSelect(None) => r matches Some(a) && final(stack).active == old(stack).active
                && a@ == (if old(stack).active is Some { TagActionOf::OpenTagPicker } else { TagActionOf::Message("[no active tag]"@) }),
            ColonCommandOf::TagSelect(Some(n)) => r matches Some(a) && match found {
                None => a@ == TagActionOf::Message("[no tags file loaded]"@) && final(stack).active == old(stack).active,
                Some(v) => if v@.len() == 0 {
                    a@ == TagActionOf::Message("[no matches for `"@ + n + "`]"@) && final(stack).active == old(stack).active
                } else {
                    a@ == TagActionOf::<Seq<char>>::OpenTagPicker
                        && (final(stack).active matches Some(m) && m.name@ == n && m.matches == v && m.cursor == 0)
                },
            },
            _ => r is None && final(stack).active == old(stack).active,
        },
{
    proof {
        reveal_strlit("]");
    }
    match cmd {
        ColonCommandOf::TagNext => {
            let res = stack.next();
            Some(match res {
                TagStepResult::NoActive => TagActionOf::Message(String::from_str("[no active tag]")),
                TagStepResult::AtBoundary => TagActionOf::Message(String::from_str("[no more matches]")),
                TagStepResult::Moved(c) => TagActionOf::ShowMatch(c),
            })
        },
        ColonCommandOf::TagPrev => {
            let res = stack.prev();
            Some(match res {
                TagStepResult::NoActive => TagActionOf::Message(String::from_str("[no active tag]")),
                TagStepResult::AtBoundary => TagActionOf::Message(String::from_str("[at first match]")),
                TagStepResult::Moved(c) => TagActionOf::ShowMatch(c),
            })
        },
        ColonCommandOf::TagSelect(None) => {
            if stack.active.is_some() {
                Some(TagActionOf::OpenTagPicker)
            } else {
                Some(TagActionOf::Message(String::from_str("[no active tag]")))
            }
        },
        ColonCommandOf::TagSelect(Some(n)) => match found {
            None => Some(TagActionOf::Message(String::from_str("[no tags file loaded]"))),
            Some(v) => {
                if v.len() == 0 {
                    Some(TagActionOf::Message(text_message("[no matches for `", n.as_str(), "`]")))
                } else {
                    stack.set_active(n.clone(), v);
                    Some(TagActionOf::OpenTagPicker)
                }
            },
        },
        _ => None,
    }
}


/// Why `:yank` copies nothing, if it does not: the clipboard is off, or
/// there is no line.
pub open spec fn yank_refusal_text(clipboard_enabled: bool, line_count: nat) -> Option<Seq<char>> {
    if !clipboard_enabled {
        Some("[clipboard not enabled (pass --clipboard)]"@)
    } else if line_count == 0 {
        Some("[nothing to copy]"@)
    } else {
        None
    }
}

/// Check `:yank` before copying the top line: the status message when it
/// cannot, `None` when the copy goes ahead.
pub fn yank_refusal(clipboard_enabled: bool, line_count: usize) -> (r: Option<String>)
    ensures
        match yank_refusal_text(clipboard_enabled, line_count as nat) {
            None => r is None,
            Some(t) => r matches Some(m) && m@ == t,
        },
{
    if !clipboard_enabled {
        Some(String::from_str("[clipboard not enabled (pass --clipboard)]"))
    } else if line_count == 0 {
        Some(String::from_str("[nothing to copy]"))
    } else {
        None
    }
}

/// The `:yank` report once the clipboard has been written: how many bytes
/// went, or the error in brackets.
pub fn yank_report(written: Result<usize, String>) -> (s: String)
    ensures
        s@ == match written {
            Ok(n) => "[copied "@ + decimal_of(n as nat) + " bytes]"@,
            Err(e) => "["@ + e@ + "]"@,
        },
{
    match written {
        Ok(n) => {
            let d = decimal_chars(n as u64);
            bracketed("[copied ", d.as_slice(), " bytes]")
        },
        Err(e) => text_message("[", e.as_str(), "]"),
    }
}

} // verus!
