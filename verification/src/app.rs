//! The pager's command layer: colon-command parsing, the tag stack, pane
//! focus arithmetic and other decisions the event loop delegates.

use std::borrow::Cow;
use vstd::prelude::*;
use crate::render::AnsiMode;
use crate::viewport::CaseMode;
use crate::tags::TagEntry;
use crate::ansi::strip_spec;
use crate::line_index::{lemma_scan_within, line_span, lines_known, scan_to, LineIndex};
use crate::pattern::{bytes_regex_is_match, ByteRegex};
use crate::text::{
    chars_of, eq_lit, find_ws, push_chars, push_str, first_ws, is_ws, lemma_first_ws_bounds, lemma_trim_idempotent, parse_usize,
    parse_usize_spec, slice_vec, split_words, string_of, trim, trim_bounds, views_of, words,
};

verus! {

/// Split orientation: vertical (side-by-side) or horizontal (stacked).
#[derive(Debug, Clone, Copy, PartialEq, Eq, Structural)]
pub enum Orientation {
    Vertical,
    Horizontal,
}

/// Constraints to re-apply when the source content has been replaced
/// wholesale (`--live`).
#[derive(Debug, Default, Clone, Copy, PartialEq, Eq)]
pub struct RebuildSpec {
    pub head: Option<usize>,
    pub tail: Option<usize>,
}

/// A parsed colon command. `S` is the text type: `String` at run time,
/// `Seq<char>` in specifications.
#[derive(Debug, Clone, PartialEq)]
pub enum ColonCommandOf<S> {
    Next,
    Prev,
    /// `:e PATH` — the path, a leading `~/` expanded against the home directory.
    Edit(S),
    ShowFile,
    Quit,
    Delete,
    First,
    Last,
    Tag(S),
    TagNext,
    TagPrev,
    /// `:tselect [NAME]` — open the tag picker.
    TagSelect(Option<S>),
    OpenPicker,
    OpenHelp,
    /// `:hex N` — hex group width in hex characters (2/4/8/16/32).
    HexGroup(usize),
    /// `:color [strict|interpret|raw]` — set or cycle the ANSI render mode.
    Color(Option<AnsiMode>),
    /// `:case [sensitive|smart|insensitive]` — set or cycle the case policy.
    Case(Option<CaseMode>),
    /// `:hlsearch` (true) / `:nohlsearch` (false).
    HlSearch(bool),
    IncSearch,
    SearchSkipScreen,
    Tilde,
    /// `:header L [C]` — pin top L rows and left C columns.
    Header(usize, usize),
    Yank,
    /// `:vsplit [file]` / `:split [file]`.
    VSplit(Option<S>),
    /// `:hsplit [file]` / `:hsp [file]`.
    HSplit(Option<S>),
    Rotate,
    Only,
    Layout(S),
    ScrollLock,
    /// `:encoding [LABEL]`.
    SetEncoding(Option<S>),
    /// `:diff` / `:diff!`.
    Diff { force: bool },
    NoDiff,
    DiffToggleWs,
    Grep(Option<S>),
    Filter(Option<S>),
    Format(Option<S>),
    Display(Option<S>),
    /// `:mouse` toggles; `:mouse on` / `:mouse off` set.
    Mouse(Option<bool>),
    Zoom,
}

pub type ColonCommand = ColonCommandOf<String>;

#[derive(Debug, Clone, PartialEq)]
pub enum ColonParseErrorOf<S> {
    UnknownCommand(S),
    MissingPath,
    TagRequiresName,
    LayoutRequiresName,
    HexGroupRequiresValue,
    HexGroupInvalid(S),
    ColorInvalid(S),
    CaseInvalid(S),
    MouseInvalid(S),
    HeaderInvalid(S),
}

pub type ColonParseError = ColonParseErrorOf<String>;

pub open spec fn opt_view(o: Option<String>) -> Option<Seq<char>> {
    match o {
        Some(s) => Some(s@),
        None => None,
    }
}

impl View for ColonCommandOf<String> {
    type V = ColonCommandOf<Seq<char>>;

    open spec fn view(&self) -> ColonCommandOf<Seq<char>> {
        match self {
            ColonCommandOf::Next => ColonCommandOf::Next,
            ColonCommandOf::Prev => ColonCommandOf::Prev,
            ColonCommandOf::Edit(s) => ColonCommandOf::Edit(s@),
            ColonCommandOf::ShowFile => ColonCommandOf::ShowFile,
            ColonCommandOf::Quit => ColonCommandOf::Quit,
            ColonCommandOf::Delete => ColonCommandOf::Delete,
            ColonCommandOf::First => ColonCommandOf::First,
            ColonCommandOf::Last => ColonCommandOf::Last,
            ColonCommandOf::Tag(s) => ColonCommandOf::Tag(s@),
            ColonCommandOf::TagNext => ColonCommandOf::TagNext,
            ColonCommandOf::TagPrev => ColonCommandOf::TagPrev,
            ColonCommandOf::TagSelect(o) => ColonCommandOf::TagSelect(opt_view(*o)),
            ColonCommandOf::OpenPicker => ColonCommandOf::OpenPicker,
            ColonCommandOf::OpenHelp => ColonCommandOf::OpenHelp,
            ColonCommandOf::HexGroup(n) => ColonCommandOf::HexGroup(*n),
            ColonCommandOf::Color(m) => ColonCommandOf::Color(*m),
            ColonCommandOf::Case(m) => ColonCommandOf::Case(*m),
            ColonCommandOf::HlSearch(b) => ColonCommandOf::HlSearch(*b),
            ColonCommandOf::IncSearch => ColonCommandOf::IncSearch,
            ColonCommandOf::SearchSkipScreen => ColonCommandOf::SearchSkipScreen,
            ColonCommandOf::Tilde => ColonCommandOf::Tilde,
            ColonCommandOf::Header(l, c) => ColonCommandOf::Header(*l, *c),
            ColonCommandOf::Yank => ColonCommandOf::Yank,
            ColonCommandOf::VSplit(o) => ColonCommandOf::VSplit(opt_view(*o)),
            ColonCommandOf::HSplit(o) => ColonCommandOf::HSplit(opt_view(*o)),
            ColonCommandOf::Rotate => ColonCommandOf::Rotate,
            ColonCommandOf::Only => ColonCommandOf::Only,
            ColonCommandOf::Layout(s) => ColonCommandOf::Layout(s@),
            ColonCommandOf::ScrollLock => ColonCommandOf::ScrollLock,
            ColonCommandOf::SetEncoding(o) => ColonCommandOf::SetEncoding(opt_view(*o)),
            ColonCommandOf::Diff { force } => ColonCommandOf::Diff { force: *force },
            ColonCommandOf::NoDiff => ColonCommandOf::NoDiff,
            ColonCommandOf::DiffToggleWs => ColonCommandOf::DiffToggleWs,
            ColonCommandOf::Grep(o) => ColonCommandOf::Grep(opt_view(*o)),
            ColonCommandOf::Filter(o) => ColonCommandOf::Filter(opt_view(*o)),
            ColonCommandOf::Format(o) => ColonCommandOf::Format(opt_view(*o)),
            ColonCommandOf::Display(o) => ColonCommandOf::Display(opt_view(*o)),
            ColonCommandOf::Mouse(b) => ColonCommandOf::Mouse(*b),
            ColonCommandOf::Zoom => ColonCommandOf::Zoom,
        }
    }
}

impl View for ColonParseErrorOf<String> {
    type V = ColonParseErrorOf<Seq<char>>;

    open spec fn view(&self) -> ColonParseErrorOf<Seq<char>> {
        match self {
            ColonParseErrorOf::UnknownCommand(s) => ColonParseErrorOf::UnknownCommand(s@),
            ColonParseErrorOf::MissingPath => ColonParseErrorOf::MissingPath,
            ColonParseErrorOf::TagRequiresName => ColonParseErrorOf::TagRequiresName,
            ColonParseErrorOf::LayoutRequiresName => ColonParseErrorOf::LayoutRequiresName,
            ColonParseErrorOf::HexGroupRequiresValue => ColonParseErrorOf::HexGroupRequiresValue,
            ColonParseErrorOf::HexGroupInvalid(s) => ColonParseErrorOf::HexGroupInvalid(s@),
            ColonParseErrorOf::ColorInvalid(s) => ColonParseErrorOf::ColorInvalid(s@),
            ColonParseErrorOf::CaseInvalid(s) => ColonParseErrorOf::CaseInvalid(s@),
            ColonParseErrorOf::MouseInvalid(s) => ColonParseErrorOf::MouseInvalid(s@),
            ColonParseErrorOf::HeaderInvalid(s) => ColonParseErrorOf::HeaderInvalid(s@),
        }
    }
}

pub type ColonResultView = Result<ColonCommandOf<Seq<char>>, ColonParseErrorOf<Seq<char>>>;

pub open spec fn colon_result_view(r: Result<ColonCommand, ColonParseError>) -> ColonResultView {
    match r {
        Ok(c) => Ok(c@),
        Err(e) => Err(e@),
    }
}

/// `Some(s)` unless `s` is empty.
pub open spec fn nonempty(s: Seq<char>) -> Option<Seq<char>> {
    if s.len() == 0 { None } else { Some(s) }
}

/// The command word and its (trimmed) argument text.
pub open spec fn colon_words(buf: Seq<char>) -> (Seq<char>, Seq<char>) {
    let t = trim(buf);
    let k = first_ws(t);
    (t.take(k), if k < t.len() { trim(t.skip(k + 1)) } else { seq![] })
}

/// `:header L [C]`.
pub open spec fn header_spec(rest: Seq<char>) -> ColonResultView {
    let w = words(rest);
    if w.len() == 1 {
        match parse_usize_spec(w[0]) {
            Some(n) => Ok(ColonCommandOf::Header(n, 0)),
            None => Err(ColonParseErrorOf::HeaderInvalid(w[0])),
        }
    } else if w.len() == 2 {
        match parse_usize_spec(w[0]) {
            None => Err(ColonParseErrorOf::HeaderInvalid(w[0])),
            Some(l) => match parse_usize_spec(w[1]) {
                None => Err(ColonParseErrorOf::HeaderInvalid(w[1])),
                Some(c) => Ok(ColonCommandOf::Header(l, c)),
            },
        }
    } else {
        Err(ColonParseErrorOf::HeaderInvalid(rest))
    }
}

/// `:hex N`.
pub open spec fn hex_spec(rest: Seq<char>) -> ColonResultView {
    if rest.len() == 0 {
        Err(ColonParseErrorOf::HexGroupRequiresValue)
    } else {
        match parse_usize_spec(rest) {
            Some(n) => if n == 2 || n == 4 || n == 8 || n == 16 || n == 32 {
                Ok(ColonCommandOf::HexGroup(n))
            } else {
                Err(ColonParseErrorOf::HexGroupInvalid(rest))
            },
            None => Err(ColonParseErrorOf::HexGroupInvalid(rest)),
        }
    }
}

pub open spec fn str_opt_view(o: Option<&str>) -> Option<Seq<char>> {
    match o {
        Some(s) => Some(s@),
        None => None,
    }
}

/// `base` with `s` appended as a further path component: an absolute `s`
/// replaces `base`; otherwise one `/` separates them unless `base` is empty
/// or already ends with one.
pub open spec fn path_push(base: Seq<char>, s: Seq<char>) -> Seq<char> {
    if s.len() > 0 && s[0] == '/' {
        s
    } else if base.len() > 0 && base.last() != '/' {
        base + seq!['/'] + s
    } else {
        base + s
    }
}

/// A leading `~/` expanded against `home`, when there is one.
pub open spec fn expand_tilde_spec(arg: Seq<char>, home: Option<Seq<char>>) -> Seq<char> {
    if arg.len() >= 2 && arg[0] == '~' && arg[1] == '/' && home is Some {
        path_push(home.unwrap(), arg.skip(2))
    } else {
        arg
    }
}

/// Expand a leading `~/` of `arg` against the home directory `home`.
pub fn expand_tilde(arg: &[char], home: Option<&str>) -> (p: String)
    ensures
        p@ == expand_tilde_spec(arg@, str_opt_view(home)),
{
    match home {
        Some(h) => {
            if arg.len() >= 2 && arg[0] == '~' && arg[1] == '/' {
                let tail = slice_vec(arg, 2, arg.len());
                assert(tail@ =~= arg@.skip(2));
                let mut out: Vec<char> = Vec::new();
                if tail.len() > 0 && tail[0] == '/' {
                    return string_of(tail.as_slice());
                }
                push_str(&mut out, h);
                if out.len() > 0 && out[out.len() - 1] != '/' {
                    out.push('/');
                }
                push_chars(&mut out, tail.as_slice());
                string_of(out.as_slice())
            } else {
                string_of(arg)
            }
        },
        None => string_of(arg),
    }
}

/// What a command word and its argument mean.
pub open spec fn colon_dispatch(cmd: Seq<char>, rest: Seq<char>, home: Option<Seq<char>>) -> ColonResultView {
    if cmd == "n"@ || cmd == "next"@ {
        Ok(ColonCommandOf::Next)
    } else if cmd == "p"@ || cmd == "prev"@ {
        Ok(ColonCommandOf::Prev)
    } else if cmd == "e"@ || cmd == "edit"@ {
        if rest.len() == 0 { Err(ColonParseErrorOf::MissingPath) } else { Ok(ColonCommandOf::Edit(expand_tilde_spec(rest, home))) }
    } else if cmd == "f"@ {
        Ok(ColonCommandOf::ShowFile)
    } else if cmd == "q"@ || cmd == "quit"@ {
        Ok(ColonCommandOf::Quit)
    } else if cmd == "d"@ || cmd == "delete"@ {
        Ok(ColonCommandOf::Delete)
    } else if cmd == "x"@ || cmd == "first"@ {
        Ok(ColonCommandOf::First)
    } else if cmd == "t"@ || cmd == "last"@ {
        Ok(ColonCommandOf::Last)
    } else if cmd == "tag"@ {
        if rest.len() == 0 { Err(ColonParseErrorOf::TagRequiresName) } else { Ok(ColonCommandOf::Tag(rest)) }
    } else if cmd == "tnext"@ {
        Ok(ColonCommandOf::TagNext)
    } else if cmd == "tprev"@ {
        Ok(ColonCommandOf::TagPrev)
    } else if cmd == "tselect"@ {
        Ok(ColonCommandOf::TagSelect(nonempty(rest)))
    } else if cmd == "b"@ || cmd == "buffers"@ {
        Ok(ColonCommandOf::OpenPicker)
    } else if cmd == "h"@ || cmd == "help"@ {
        Ok(ColonCommandOf::OpenHelp)
    } else if cmd == "hex"@ {
        hex_spec(rest)
    } else if cmd == "color"@ {
        if rest.len() == 0 {
            Ok(ColonCommandOf::Color(None))
        } else if rest == "strict"@ {
            Ok(ColonCommandOf::Color(Some(AnsiMode::Strict)))
        } else if rest == "interpret"@ {
            Ok(ColonCommandOf::Color(Some(AnsiMode::Interpret)))
        } else if rest == "raw"@ {
            Ok(ColonCommandOf::Color(Some(AnsiMode::Raw)))
        } else {
            Err(ColonParseErrorOf::ColorInvalid(rest))
        }
    } else if cmd == "vsplit"@ || cmd == "split"@ {
        Ok(ColonCommandOf::VSplit(nonempty(rest)))
    } else if cmd == "hsplit"@ || cmd == "hsp"@ {
        Ok(ColonCommandOf::HSplit(nonempty(rest)))
    } else if cmd == "rotate"@ {
        Ok(ColonCommandOf::Rotate)
    } else if cmd == "only"@ || cmd == "close"@ {
        Ok(ColonCommandOf::Only)
    } else if cmd == "layout"@ {
        if rest.len() == 0 { Err(ColonParseErrorOf::LayoutRequiresName) } else { Ok(ColonCommandOf::Layout(rest)) }
    } else if cmd == "scrolllock"@ {
        Ok(ColonCommandOf::ScrollLock)
    } else if cmd == "zoom"@ {
        Ok(ColonCommandOf::Zoom)
    } else if cmd == "hlsearch"@ {
        Ok(ColonCommandOf::HlSearch(true))
    } else if cmd == "nohlsearch"@ {
        Ok(ColonCommandOf::HlSearch(false))
    } else if cmd == "incsearch"@ {
        Ok(ColonCommandOf::IncSearch)
    } else if cmd == "search-skip-screen"@ {
        Ok(ColonCommandOf::SearchSkipScreen)
    } else if cmd == "tilde"@ {
        Ok(ColonCommandOf::Tilde)
    } else if cmd == "yank"@ {
        Ok(ColonCommandOf::Yank)
    } else if cmd == "header"@ {
        header_spec(rest)
    } else if cmd == "case"@ {
        if rest.len() == 0 {
            Ok(ColonCommandOf::Case(None))
        } else if rest == "sensitive"@ {
            Ok(ColonCommandOf::Case(Some(CaseMode::Sensitive)))
        } else if rest == "smart"@ {
            Ok(ColonCommandOf::Case(Some(CaseMode::Smart)))
        } else if rest == "insensitive"@ {
            Ok(ColonCommandOf::Case(Some(CaseMode::Insensitive)))
        } else {
            Err(ColonParseErrorOf::CaseInvalid(rest))
        }
    } else if cmd == "mouse"@ {
        if rest.len() == 0 {
            Ok(ColonCommandOf::Mouse(None))
        } else if rest == "on"@ {
            Ok(ColonCommandOf::Mouse(Some(true)))
        } else if rest == "off"@ {
            Ok(ColonCommandOf::Mouse(Some(false)))
        } else {
            Err(ColonParseErrorOf::MouseInvalid(rest))
        }
    } else if cmd == "encoding"@ {
        Ok(ColonCommandOf::SetEncoding(nonempty(rest)))
    } else if cmd == "diff"@ {
        Ok(ColonCommandOf::Diff { force: false })
    } else if cmd == "diff!"@ {
        Ok(ColonCommandOf::Diff { force: true })
    } else if cmd == "nodiff"@ {
        Ok(ColonCommandOf::NoDiff)
    } else if cmd == "diffws"@ {
        Ok(ColonCommandOf::DiffToggleWs)
    } else if cmd == "grep"@ {
        Ok(ColonCommandOf::Grep(nonempty(rest)))
    } else if cmd == "nogrep"@ {
        Ok(ColonCommandOf::Grep(None))
    } else if cmd == "filter"@ {
        Ok(ColonCommandOf::Filter(nonempty(rest)))
    } else if cmd == "nofilter"@ {
        Ok(ColonCommandOf::Filter(None))
    } else if cmd == "format"@ {
        Ok(ColonCommandOf::Format(nonempty(rest)))
    } else if cmd == "noformat"@ {
        Ok(ColonCommandOf::Format(None))
    } else if cmd == "display"@ {
        Ok(ColonCommandOf::Display(nonempty(rest)))
    } else if cmd == "nodisplay"@ {
        Ok(ColonCommandOf::Display(None))
    } else {
        Err(ColonParseErrorOf::UnknownCommand(cmd))
    }
}

/// What the text typed after `:` means: surrounding whitespace is ignored,
/// the first word names the command, the trimmed remainder is its argument.
pub open spec fn colon_spec(buf: Seq<char>, home: Option<Seq<char>>) -> ColonResultView {
    if trim(buf).len() == 0 {
        Err(ColonParseErrorOf::UnknownCommand(seq![]))
    } else {
        colon_dispatch(colon_words(buf).0, colon_words(buf).1, home)
    }
}

/// Space around the text typed at the prompt does not matter: the text
/// parses as its trimmed self, and blank text is an unknown (empty)
/// command.
pub proof fn lemma_colon_ignores_surrounding_space(buf: Seq<char>, home: Option<Seq<char>>)
    ensures
        colon_spec(buf, home) == colon_spec(trim(buf), home),
        trim(buf).len() == 0 ==> colon_spec(buf, home) == Err::<ColonCommandOf<Seq<char>>, ColonParseErrorOf<Seq<char>>>(ColonParseErrorOf::UnknownCommand(Seq::<char>::empty())),
{
    lemma_trim_idempotent(buf);
}

fn opt_string(rest: &Vec<char>) -> (o: Option<String>)
    ensures
        opt_view(o) == nonempty(rest@),
{
    if rest.len() == 0 { None } else { Some(string_of(rest.as_slice())) }
}

fn header_command(rest: &Vec<char>) -> (r: Result<ColonCommand, ColonParseError>)
    ensures
        colon_result_view(r) == header_spec(rest@),
{
    let w = split_words(rest.as_slice());
    proof {
        assert(views_of(w@).len() == w@.len());
        if w@.len() >= 1 { assert(views_of(w@)[0] == w@[0]@); }
        if w@.len() >= 2 { assert(views_of(w@)[1] == w@[1]@); }
    }
    if w.len() == 1 {
        match parse_usize(w[0].as_slice()) {
            Some(n) => Ok(ColonCommandOf::Header(n, 0)),
            None => Err(ColonParseErrorOf::HeaderInvalid(string_of(w[0].as_slice()))),
        }
    } else if w.len() == 2 {
        match parse_usize(w[0].as_slice()) {
            None => Err(ColonParseErrorOf::HeaderInvalid(string_of(w[0].as_slice()))),
            Some(l) => match parse_usize(w[1].as_slice()) {
                None => Err(ColonParseErrorOf::HeaderInvalid(string_of(w[1].as_slice()))),
                Some(c) => Ok(ColonCommandOf::Header(l, c)),
            },
        }
    } else {
        Err(ColonParseErrorOf::HeaderInvalid(string_of(rest.as_slice())))
    }
}

fn hex_command(rest: &Vec<char>) -> (r: Result<ColonCommand, ColonParseError>)
    ensures
        colon_result_view(r) == hex_spec(rest@),
{
    if rest.len() == 0 {
        Err(ColonParseErrorOf::HexGroupRequiresValue)
    } else {
        match parse_usize(rest.as_slice()) {
            Some(n) => if n == 2 || n == 4 || n == 8 || n == 16 || n == 32 {
                Ok(ColonCommandOf::HexGroup(n))
            } else {
                Err(ColonParseErrorOf::HexGroupInvalid(string_of(rest.as_slice())))
            },
            None => Err(ColonParseErrorOf::HexGroupInvalid(string_of(rest.as_slice()))),
        }
    }
}

fn dispatch_colon_words(cmd: &Vec<char>, rest: &Vec<char>, home: Option<&str>) -> (r: Result<ColonCommand, ColonParseError>)
    ensures
        colon_result_view(r) == colon_dispatch(cmd@, rest@, str_opt_view(home)),
{
    let c = cmd.as_slice();
    let has_rest = rest.len() > 0;
    if eq_lit(c, "n") || eq_lit(c, "next") {
        Ok(ColonCommandOf::Next)
    } else if eq_lit(c, "p") || eq_lit(c, "prev") {
        Ok(ColonCommandOf::Prev)
    } else if eq_lit(c, "e") || eq_lit(c, "edit") {
        if !has_rest { Err(ColonParseErrorOf::MissingPath) } else { Ok(ColonCommandOf::Edit(expand_tilde(rest.as_slice(), home))) }
    } else if eq_lit(c, "f") {
        Ok(ColonCommandOf::ShowFile)
    } else if eq_lit(c, "q") || eq_lit(c, "quit") {
        Ok(ColonCommandOf::Quit)
    } else if eq_lit(c, "d") || eq_lit(c, "delete") {
        Ok(ColonCommandOf::Delete)
    } else if eq_lit(c, "x") || eq_lit(c, "first") {
        Ok(ColonCommandOf::First)
    } else if eq_lit(c, "t") || eq_lit(c, "last") {
        Ok(ColonCommandOf::Last)
    } else if eq_lit(c, "tag") {
        if !has_rest { Err(ColonParseErrorOf::TagRequiresName) } else { Ok(ColonCommandOf::Tag(string_of(rest.as_slice()))) }
    } else if eq_lit(c, "tnext") {
        Ok(ColonCommandOf::TagNext)
    } else if eq_lit(c, "tprev") {
        Ok(ColonCommandOf::TagPrev)
    } else if eq_lit(c, "tselect") {
        Ok(ColonCommandOf::TagSelect(opt_string(rest)))
    } else if eq_lit(c, "b") || eq_lit(c, "buffers") {
        Ok(ColonCommandOf::OpenPicker)
    } else if eq_lit(c, "h") || eq_lit(c, "help") {
        Ok(ColonCommandOf::OpenHelp)
    } else if eq_lit(c, "hex") {
        hex_command(rest)
    } else if eq_lit(c, "color") {
        let r = rest.as_slice();
        if !has_rest {
            Ok(ColonCommandOf::Color(None))
        } else if eq_lit(r, "strict") {
            Ok(ColonCommandOf::Color(Some(AnsiMode::Strict)))
        } else if eq_lit(r, "interpret") {
            Ok(ColonCommandOf::Color(Some(AnsiMode::Interpret)))
        } else if eq_lit(r, "raw") {
            Ok(ColonCommandOf::Color(Some(AnsiMode::Raw)))
        } else {
            Err(ColonParseErrorOf::ColorInvalid(string_of(r)))
        }
    } else if eq_lit(c, "vsplit") || eq_lit(c, "split") {
        Ok(ColonCommandOf::VSplit(opt_string(rest)))
    } else if eq_lit(c, "hsplit") || eq_lit(c, "hsp") {
        Ok(ColonCommandOf::HSplit(opt_string(rest)))
    } else if eq_lit(c, "rotate") {
        Ok(ColonCommandOf::Rotate)
    } else if eq_lit(c, "only") || eq_lit(c, "close") {
        Ok(ColonCommandOf::Only)
    } else if eq_lit(c, "layout") {
        if !has_rest { Err(ColonParseErrorOf::LayoutRequiresName) } else { Ok(ColonCommandOf::Layout(string_of(rest.as_slice()))) }
    } else if eq_lit(c, "scrolllock") {
        Ok(ColonCommandOf::ScrollLock)
    } else if eq_lit(c, "zoom") {
        Ok(ColonCommandOf::Zoom)
    } else if eq_lit(c, "hlsearch") {
        Ok(ColonCommandOf::HlSearch(true))
    } else if eq_lit(c, "nohlsearch") {
        Ok(ColonCommandOf::HlSearch(false))
    } else if eq_lit(c, "incsearch") {
        Ok(ColonCommandOf::IncSearch)
    } else if eq_lit(c, "search-skip-screen") {
        Ok(ColonCommandOf::SearchSkipScreen)
    } else if eq_lit(c, "tilde") {
        Ok(ColonCommandOf::Tilde)
    } else if eq_lit(c, "yank") {
        Ok(ColonCommandOf::Yank)
    } else if eq_lit(c, "header") {
        header_command(rest)
    } else if eq_lit(c, "case") {
        let r = rest.as_slice();
        if !has_rest {
            Ok(ColonCommandOf::Case(None))
        } else if eq_lit(r, "sensitive") {
            Ok(ColonCommandOf::Case(Some(CaseMode::Sensitive)))
        } else if eq_lit(r, "smart") {
            Ok(ColonCommandOf::Case(Some(CaseMode::Smart)))
        } else if eq_lit(r, "insensitive") {
            Ok(ColonCommandOf::Case(Some(CaseMode::Insensitive)))
        } else {
            Err(ColonParseErrorOf::CaseInvalid(string_of(r)))
        }
    } else if eq_lit(c, "mouse") {
        let r = rest.as_slice();
        if !has_rest {
            Ok(ColonCommandOf::Mouse(None))
        } else if eq_lit(r, "on") {
            Ok(ColonCommandOf::Mouse(Some(true)))
        } else if eq_lit(r, "off") {
            Ok(ColonCommandOf::Mouse(Some(false)))
        } else {
            Err(ColonParseErrorOf::MouseInvalid(string_of(r)))
        }
    } else if eq_lit(c, "encoding") {
        Ok(ColonCommandOf::SetEncoding(opt_string(rest)))
    } else if eq_lit(c, "diff") {
        Ok(ColonCommandOf::Diff { force: false })
    } else if eq_lit(c, "diff!") {
        Ok(ColonCommandOf::Diff { force: true })
    } else if eq_lit(c, "nodiff") {
        Ok(ColonCommandOf::NoDiff)
    } else if eq_lit(c, "diffws") {
        Ok(ColonCommandOf::DiffToggleWs)
    } else if eq_lit(c, "grep") {
        Ok(ColonCommandOf::Grep(opt_string(rest)))
    } else if eq_lit(c, "nogrep") {
        Ok(ColonCommandOf::Grep(None))
    } else if eq_lit(c, "filter") {
        Ok(ColonCommandOf::Filter(opt_string(rest)))
    } else if eq_lit(c, "nofilter") {
        Ok(ColonCommandOf::Filter(None))
    } else if eq_lit(c, "format") {
        Ok(ColonCommandOf::Format(opt_string(rest)))
    } else if eq_lit(c, "noformat") {
        Ok(ColonCommandOf::Format(None))
    } else if eq_lit(c, "display") {
        Ok(ColonCommandOf::Display(opt_string(rest)))
    } else if eq_lit(c, "nodisplay") {
        Ok(ColonCommandOf::Display(None))
    } else {
        Err(ColonParseErrorOf::UnknownCommand(string_of(c)))
    }
}

/// Parse the text typed at the `:` prompt; `home` is the home directory
/// that a leading `~/` of an `:e` path is expanded against, if it is known.
pub fn parse_colon_command(buf: &str, home: Option<&str>) -> (r: Result<ColonCommand, ColonParseError>)
    ensures
        colon_result_view(r) == colon_spec(buf@, str_opt_view(home)),
{
    let chars = chars_of(buf);
    let (a, b) = trim_bounds(chars.as_slice(), 0, chars.len());
    assert(chars@.subrange(0, chars@.len() as int) =~= buf@);
    let ghost t = trim(buf@);
    assert(chars@.subrange(a as int, b as int) == t);
    if a == b {
        return Err(ColonParseErrorOf::UnknownCommand(String::new()));
    }
    let k = find_ws(chars.as_slice(), a, b);
    proof {
        lemma_first_ws_bounds(t);
    }
    let cmd = slice_vec(chars.as_slice(), a, k);
    assert(cmd@ =~= t.take(k - a));
    let rest = if k < b {
        let (ra, rb) = trim_bounds(chars.as_slice(), k + 1, b);
        assert(chars@.subrange(k + 1, b as int) =~= t.skip(k - a + 1));
        slice_vec(chars.as_slice(), ra, rb)
    } else {
        Vec::new()
    };
    assert(rest@ == colon_words(buf@).1);
    dispatch_colon_words(&cmd, &rest, home)
}


/// The text shown for a colon-command error.
pub open spec fn colon_error_text(e: ColonParseErrorOf<Seq<char>>) -> Seq<char> {
    match e {
        ColonParseErrorOf::UnknownCommand(t) => "unknown command: :"@ + t,
        ColonParseErrorOf::MissingPath => ":e requires a path"@,
        ColonParseErrorOf::TagRequiresName => ":tag requires a name"@,
        ColonParseErrorOf::LayoutRequiresName => ":layout requires a name"@,
        ColonParseErrorOf::HexGroupRequiresValue => ":hex requires N (one of 2, 4, 8, 16, 32)"@,
        ColonParseErrorOf::HexGroupInvalid(v) =>
            ":hex N must be one of 2, 4, 8, 16, 32 (got "@ + v + ")"@,
        ColonParseErrorOf::ColorInvalid(v) =>
            ":color mode must be strict, interpret, or raw (got "@ + v + ")"@,
        ColonParseErrorOf::CaseInvalid(v) =>
            ":case mode must be sensitive, smart, or insensitive (got "@ + v + ")"@,
        ColonParseErrorOf::MouseInvalid(v) => ":mouse expects on or off (got "@ + v + ")"@,
        ColonParseErrorOf::HeaderInvalid(v) => ":header expects `L` or `L C` (got "@ + v + ")"@,
    }
}

fn got_message(lead: &str, v: &String) -> (s: String)
    ensures
        s@ == lead@ + v@ + ")"@,
{
    let mut out: Vec<char> = Vec::new();
    push_str(&mut out, lead);
    push_str(&mut out, v.as_str());
    push_str(&mut out, ")");
    string_of(out.as_slice())
}

impl ColonParseErrorOf<String> {
    /// The text shown on the status line for this error.
    pub fn message(&self) -> (s: String)
        ensures
            s@ == colon_error_text(self@),
    {
        match self {
            ColonParseErrorOf::UnknownCommand(t) => {
                let mut out: Vec<char> = Vec::new();
                push_str(&mut out, "unknown command: :");
                push_str(&mut out, t.as_str());
                string_of(out.as_slice())
            },
            ColonParseErrorOf::MissingPath => String::from_str(":e requires a path"),
            ColonParseErrorOf::TagRequiresName => String::from_str(":tag requires a name"),
            ColonParseErrorOf::LayoutRequiresName => String::from_str(":layout requires a name"),
            ColonParseErrorOf::HexGroupRequiresValue =>
                String::from_str(":hex requires N (one of 2, 4, 8, 16, 32)"),
            ColonParseErrorOf::HexGroupInvalid(v) =>
                got_message(":hex N must be one of 2, 4, 8, 16, 32 (got ", v),
            ColonParseErrorOf::ColorInvalid(v) =>
                got_message(":color mode must be strict, interpret, or raw (got ", v),
            ColonParseErrorOf::CaseInvalid(v) =>
                got_message(":case mode must be sensitive, smart, or insensitive (got ", v),
            ColonParseErrorOf::MouseInvalid(v) => got_message(":mouse expects on or off (got ", v),
            ColonParseErrorOf::HeaderInvalid(v) => got_message(":header expects `L` or `L C` (got ", v),
        }
    }
}

// ---------------------------------------------------------------------------
// Tag-name completion.
// ---------------------------------------------------------------------------

pub open spec fn is_prefix_of(p: Seq<char>, s: Seq<char>) -> bool {
    p.len() <= s.len() && s.take(p.len() as int) == p
}

pub open spec fn strs_view(items: Seq<String>) -> Seq<Seq<char>> {
    Seq::new(items.len(), |i: int| items[i]@)
}

/// `p` is the longest prefix of the first item that every item starts with
/// (empty when there are no items).
pub open spec fn is_longest_common_prefix(p: Seq<char>, items: Seq<Seq<char>>) -> bool {
    if items.len() == 0 {
        p.len() == 0
    } else {
        &&& is_prefix_of(p, items[0])
        &&& forall|i: int| 0 <= i < items.len() ==> is_prefix_of(p, #[trigger] items[i])
        &&& (p.len() == items[0].len() || exists|i: int|
            0 <= i < items.len() && !is_prefix_of(items[0].take(p.len() as int + 1), #[trigger] items[i]))
    }
}

/// The length of the common prefix of `a` and `b`, looking at most `lim` far.
fn common_len(a: &[char], b: &[char], lim: usize) -> (k: usize)
    requires
        lim <= a@.len(),
    ensures
        k <= lim,
        k <= b@.len(),
        a@.take(k as int) == b@.take(k as int),
        k == lim || k == b@.len() || a@[k as int] != b@[k as int],
{
    let mut k: usize = 0;
    while k < lim && k < b.len() && a[k] == b[k]
        invariant
            k <= lim <= a@.len(),
            k <= b@.len(),
            a@.take(k as int) == b@.take(k as int),
        decreases lim - k,
    {
        assert(a@.take(k + 1) =~= a@.take(k as int).push(a@[k as int]));
        assert(b@.take(k + 1) =~= b@.take(k as int).push(b@[k as int]));
        k = k + 1;
    }
    k
}

/// Longest common prefix of `items`; `""` for no items or when they share
/// nothing. Used by Tab completion at the tag prompt.
pub fn longest_common_prefix(items: &[String]) -> (r: String)
    ensures
        is_longest_common_prefix(r@, strs_view(items@)),
{
    let ghost v = strs_view(items@);
    if items.len() == 0 {
        return String::new();
    }
    let first = chars_of(items[0].as_str());
    assert(first@ == v[0]);
    let mut n: usize = first.len();
    let mut i: usize = 1;
    assert(first@.take(n as int) =~= first@);
    while i < items.len()
        invariant
            1 <= i <= items@.len(),
            v == strs_view(items@),
            first@ == v[0],
            n <= first@.len(),
            forall|j: int| 0 <= j < i ==> is_prefix_of(first@.take(n as int), #[trigger] v[j]),
            n == first@.len() || exists|j: int|
                0 <= j < i && !is_prefix_of(first@.take(n + 1), #[trigger] v[j]),
        decreases items@.len() - i,
    {
        let s = chars_of(items[i].as_str());
        assert(s@ == v[i as int]);
        let c = common_len(first.as_slice(), s.as_slice(), n);
        if c < n {
            let ghost old_n = n;
            assert forall|j: int| 0 <= j < i implies is_prefix_of(first@.take(c as int), #[trigger] v[j]) by {
                assert(is_prefix_of(first@.take(old_n as int), v[j]));
                assert(v[j].take(c as int) =~= v[j].take(old_n as int).take(c as int));
                assert(first@.take(c as int) =~= first@.take(old_n as int).take(c as int));
            }
            assert(is_prefix_of(first@.take(c as int), v[i as int]));
            if c < s.len() {
                assert(first@.take(c + 1)[c as int] != v[i as int].take(c + 1)[c as int]);
            }
            assert(!is_prefix_of(first@.take(c + 1), v[i as int]));
            n = c;
        } else {
            assert(is_prefix_of(first@.take(n as int), v[i as int]));
        }
        i = i + 1;
    }
    let p = slice_vec(first.as_slice(), 0, n);
    assert(p@ =~= first@.take(n as int));
    string_of(p.as_slice())
}

// ---------------------------------------------------------------------------
// The tag stack.
// ---------------------------------------------------------------------------

/// The matches of the tag last jumped to, with the one shown.
#[derive(Debug, Clone)]
pub struct ActiveMatches {
    pub name: String,
    pub matches: Vec<TagEntry>,
    pub cursor: usize,
}

/// Where tag jumps came from, and the active match list.
#[derive(Debug)]
pub struct TagStack {
    /// Where we jumped from, oldest first: (file index, top line).
    pub history: Vec<(usize, usize)>,
    /// Set when a tag has at least one match; cleared on a pop.
    pub active: Option<ActiveMatches>,
}

/// What a step through the active match list did.
#[derive(Debug, Clone, PartialEq, Eq, Structural)]
pub enum TagStepResult {
    /// The cursor moved to this index.
    Moved(usize),
    /// Already at the end of the list in that direction.
    AtBoundary,
    /// No tag is active.
    NoActive,
}

impl Default for TagStack {
    fn default() -> (s: Self)
        ensures
            s.history@.len() == 0,
            s.active is None,
    {
        TagStack { history: Vec::new(), active: None }
    }
}

impl TagStack {
    /// Remember a position before a jump.
    pub fn push(&mut self, file_index: usize, top_line: usize)
        ensures
            final(self).history@ == old(self).history@.push((file_index, top_line)),
            final(self).active == old(self).active,
    {
        self.history.push((file_index, top_line));
    }

    /// Go back: the most recent position, if any. A successful pop also
    /// ends the active match list.
    pub fn pop(&mut self) -> (r: Option<(usize, usize)>)
        ensures
            old(self).history@.len() == 0 ==> r is None && final(self).history@ == old(self).history@
                && final(self).active == old(self).active,
            old(self).history@.len() > 0 ==> r == Some(old(self).history@.last())
                && final(self).history@ == old(self).history@.drop_last()
                && final(self).active is None,
    {
        let popped = self.history.pop();
        if popped.is_some() {
            self.active = None;
        }
        popped
    }

    /// Make `matches` of `name` the active list, at its first entry.
    pub fn set_active(&mut self, name: String, matches: Vec<TagEntry>)
        ensures
            final(self).history == old(self).history,
            final(self).active == Some(ActiveMatches { name, matches, cursor: 0 }),
    {
        self.active = Some(ActiveMatches { name, matches, cursor: 0 });
    }

    /// Step to the next match, stopping at the last.
    pub fn next(&mut self) -> (r: TagStepResult)
        ensures
            final(self).history == old(self).history,
            match old(self).active {
                None => r == TagStepResult::NoActive && final(self).active == old(self).active,
                Some(a) => if a.cursor + 1 >= a.matches@.len() {
                    r == TagStepResult::AtBoundary && final(self).active == old(self).active
                } else {
                    r == TagStepResult::Moved((a.cursor + 1) as usize)
                        && final(self).active == Some(ActiveMatches { cursor: (a.cursor + 1) as usize, ..a })
                },
            },
    {
        let at_end = match &self.active {
            None => { return TagStepResult::NoActive; },
            Some(a) => a.matches.len() == 0 || a.cursor >= a.matches.len() - 1,
        };
        if at_end {
            TagStepResult::AtBoundary
        } else {
            let mut a = self.active.take().unwrap();
            a.cursor = a.cursor + 1;
            let c = a.cursor;
            self.active = Some(a);
            TagStepResult::Moved(c)
        }
    }

    /// Step to the previous match, stopping at the first.
    pub fn prev(&mut self) -> (r: TagStepResult)
        ensures
            final(self).history == old(self).history,
            match old(self).active {
                None => r == TagStepResult::NoActive && final(self).active == old(self).active,
                Some(a) => if a.cursor == 0 {
                    r == TagStepResult::AtBoundary && final(self).active == old(self).active
                } else {
                    r == TagStepResult::Moved((a.cursor - 1) as usize)
                        && final(self).active == Some(ActiveMatches { cursor: (a.cursor - 1) as usize, ..a })
                },
            },
    {
        let at_start = match &self.active {
            None => { return TagStepResult::NoActive; },
            Some(a) => a.cursor == 0,
        };
        if at_start {
            TagStepResult::AtBoundary
        } else {
            let mut a = self.active.take().unwrap();
            a.cursor = a.cursor - 1;
            let c = a.cursor;
            self.active = Some(a);
            TagStepResult::Moved(c)
        }
    }
}

// ---------------------------------------------------------------------------
// Pane arithmetic.
// ---------------------------------------------------------------------------

/// `others` slot of the pane in physical column `phys`.
pub open spec fn other_slot_spec(phys: int, focused_pos: int) -> int {
    if phys < focused_pos { phys } else { phys - 1 }
}

/// Physical column of the pane in `others` slot `slot`.
pub open spec fn phys_of_slot_spec(slot: int, focused_pos: int) -> int {
    if slot < focused_pos { slot } else { slot + 1 }
}

/// Physical column → `others` slot index. Physical columns include the
/// focused pane at `focused_pos`, which has no slot.
pub fn other_slot(phys: usize, focused_pos: usize) -> (r: usize)
    requires
        phys != focused_pos,
    ensures
        r == other_slot_spec(phys as int, focused_pos as int),
{
    if phys < focused_pos { phys } else { phys - 1 }
}

/// `others` slot index → physical column. Inverse of `other_slot`.
pub fn phys_of_slot(slot: usize, focused_pos: usize) -> (r: usize)
    requires
        slot < usize::MAX,
    ensures
        r == phys_of_slot_spec(slot as int, focused_pos as int),
{
    if slot < focused_pos { slot } else { slot + 1 }
}

/// A slot never maps to the focused column, and the two mappings undo
/// each other off the focused column.
pub proof fn lemma_slot_phys_roundtrip(slot: int, phys: int, focused_pos: int)
    requires
        0 <= slot,
        0 <= phys,
        0 <= focused_pos,
    ensures
        phys_of_slot_spec(slot, focused_pos) != focused_pos,
        other_slot_spec(phys_of_slot_spec(slot, focused_pos), focused_pos) == slot,
        phys != focused_pos ==> phys_of_slot_spec(other_slot_spec(phys, focused_pos), focused_pos) == phys,
{
}

/// What the screen does after a zoom command.
#[derive(Debug, Clone, Copy, PartialEq, Eq, Structural)]
pub enum ZoomAction {
    /// Refused: a single pane has nothing to zoom out of.
    NeedsSplit,
    /// Refused: the diff layout is fixed.
    NotInDiff,
    /// The focused pane takes the whole screen.
    Maximize,
    /// Every pane goes back to its split size.
    RestoreSplit,
    /// Nothing changes.
    Keep,
}

impl ZoomAction {
    /// The status-line flash for a refused zoom.
    pub fn message(&self) -> (m: Option<&'static str>)
        ensures
            *self == ZoomAction::NeedsSplit ==> (m matches Some(t) && t@ == "zoom needs a split"@),
            *self == ZoomAction::NotInDiff ==> (m matches Some(t) && t@ == "zoom not available in diff"@),
            !(*self == ZoomAction::NeedsSplit || *self == ZoomAction::NotInDiff) ==> m is None,
    {
        match self {
            ZoomAction::NeedsSplit => Some("zoom needs a split"),
            ZoomAction::NotInDiff => Some("zoom not available in diff"),
            _ => None,
        }
    }
}

/// The zoom flag and action after a zoom toggle: refused (flag unchanged)
/// in a single pane or in diff mode, else the flag flips.
pub open spec fn zoom_toggled(zoomed: bool, has_split: bool, diff_active: bool) -> (bool, ZoomAction) {
    if !has_split {
        (zoomed, ZoomAction::NeedsSplit)
    } else if diff_active {
        (zoomed, ZoomAction::NotInDiff)
    } else if zoomed {
        (false, ZoomAction::RestoreSplit)
    } else {
        (true, ZoomAction::Maximize)
    }
}

/// The zoom flag and action after clearing zoom.
pub open spec fn zoom_cleared(zoomed: bool) -> (bool, ZoomAction) {
    if zoomed { (false, ZoomAction::RestoreSplit) } else { (false, ZoomAction::Keep) }
}

/// Toggle the focused pane between full screen and its split size: the
/// new zoom flag and what to do.
pub fn toggle_zoom(zoomed: bool, has_split: bool, diff_active: bool) -> (r: (bool, ZoomAction))
    ensures
        r == zoom_toggled(zoomed, has_split, diff_active),
{
    if !has_split {
        return (zoomed, ZoomAction::NeedsSplit);
    }
    if diff_active {
        return (zoomed, ZoomAction::NotInDiff);
    }
    if zoomed { (false, ZoomAction::RestoreSplit) } else { (true, ZoomAction::Maximize) }
}

/// Clear zoom before a layout change: the new flag (always off) and
/// whether the split sizes must be restored.
pub fn unzoom(zoomed: bool) -> (r: (bool, ZoomAction))
    ensures
        r == zoom_cleared(zoomed),
{
    if zoomed { (false, ZoomAction::RestoreSplit) } else { (false, ZoomAction::Keep) }
}

/// In a split outside diff mode, toggling zoom twice comes back to the
/// starting flag; clearing zoom twice is the same as clearing it once, and
/// a cleared screen is never zoomed.
pub proof fn lemma_zoom_round_trip(zoomed: bool)
    ensures
        zoom_toggled(zoom_toggled(zoomed, true, false).0, true, false).0 == zoomed,
        zoom_cleared(zoom_cleared(zoomed).0) == (false, ZoomAction::Keep),
        !zoom_cleared(zoomed).0,
{
}

/// The pane index after cycling focus over `n` panes.
pub open spec fn rotate_spec(focused_pos: int, n: int, forward: bool) -> int {
    if forward { (focused_pos + 1) % n } else { (focused_pos + n - 1) % n }
}

/// Next physical pane index when cycling focus over `n` panes: `forward`
/// (Tab) goes to the next, else (BackTab) to the previous; both wrap.
pub fn rotate_index(focused_pos: usize, n: usize, forward: bool) -> (r: usize)
    requires
        n > 0,
    ensures
        r == rotate_spec(focused_pos as int, n as int, forward),
        r < n,
{
    let m = focused_pos % n;
    proof {
        vstd::arithmetic::div_mod::lemma_add_mod_noop(focused_pos as int, 1, n as int);
        vstd::arithmetic::div_mod::lemma_add_mod_noop(focused_pos as int, n - 1, n as int);
        vstd::arithmetic::div_mod::lemma_small_mod((n - 1) as nat, n as nat);
        vstd::arithmetic::div_mod::lemma_mod_self_0(n as int);
        if n > 1 {
            vstd::arithmetic::div_mod::lemma_small_mod(1, n as nat);
        }
        if m + 1 < n {
            vstd::arithmetic::div_mod::lemma_small_mod((m + 1) as nat, n as nat);
        }
        if m > 0 {
            vstd::arithmetic::div_mod::lemma_small_mod((m - 1) as nat, n as nat);
            vstd::arithmetic::div_mod::lemma_mod_add_multiples_vanish((m - 1) as int, n as int);
        }
        vstd::arithmetic::div_mod::lemma_mod_add_multiples_vanish(0, n as int);
    }
    if forward {
        if m + 1 == n { 0 } else { m + 1 }
    } else {
        if m == 0 { n - 1 } else { m - 1 }
    }
}

/// Cycling forward then back (or back then forward) over `n` panes returns
/// to the starting pane.
pub proof fn lemma_rotate_round_trip(focused_pos: int, n: int)
    requires
        0 <= focused_pos < n,
    ensures
        rotate_spec(rotate_spec(focused_pos, n, true), n, false) == focused_pos,
        rotate_spec(rotate_spec(focused_pos, n, false), n, true) == focused_pos,
        0 <= rotate_spec(focused_pos, n, true) < n,
        0 <= rotate_spec(focused_pos, n, false) < n,
{
    let f = rotate_spec(focused_pos, n, true);
    let b = rotate_spec(focused_pos, n, false);
    if focused_pos + 1 == n {
        vstd::arithmetic::div_mod::lemma_mod_self_0(n);
        vstd::arithmetic::div_mod::lemma_small_mod((n - 1) as nat, n as nat);
    } else {
        vstd::arithmetic::div_mod::lemma_small_mod((focused_pos + 1) as nat, n as nat);
        vstd::arithmetic::div_mod::lemma_mod_add_multiples_vanish(focused_pos, n);
        vstd::arithmetic::div_mod::lemma_small_mod(focused_pos as nat, n as nat);
    }
    if focused_pos == 0 {
        vstd::arithmetic::div_mod::lemma_small_mod((n - 1) as nat, n as nat);
        vstd::arithmetic::div_mod::lemma_mod_self_0(n);
    } else {
        vstd::arithmetic::div_mod::lemma_small_mod((focused_pos - 1) as nat, n as nat);
        vstd::arithmetic::div_mod::lemma_mod_add_multiples_vanish(focused_pos - 1, n);
        vstd::arithmetic::div_mod::lemma_small_mod(focused_pos as nat, n as nat);
    }
}

/// Move focus to physical pane `target` (clamped to the last pane). The
/// result is the new focused pane, the rest in physical order, and the new
/// focused position.
pub fn set_focus<T>(focused: T, others: Vec<T>, focused_pos: usize, target: usize) -> (r: (T, Vec<T>, usize))
    requires
        focused_pos <= others@.len(),
    ensures
        r.2 == (if target <= others@.len() { target } else { others@.len() as usize }),
        r.0 == others@.insert(focused_pos as int, focused)[r.2 as int],
        r.1@ == others@.insert(focused_pos as int, focused).remove(r.2 as int),
{
    let n_minus_1 = others.len();
    let mut all = others;
    all.insert(focused_pos, focused);
    let t = if target <= n_minus_1 { target } else { n_minus_1 };
    let new_focused = all.remove(t);
    (new_focused, all, t)
}

/// Rotate focus among the panes: to the next one (`forward`) or the
/// previous one, wrapping.
pub fn rotate_focus<T>(focused: T, others: Vec<T>, focused_pos: usize, forward: bool) -> (r: (T, Vec<T>, usize))
    requires
        focused_pos <= others@.len(),
        others@.len() < usize::MAX,
    ensures
        r.2 == rotate_spec(focused_pos as int, others@.len() as int + 1, forward),
        r.0 == others@.insert(focused_pos as int, focused)[r.2 as int],
        r.1@ == others@.insert(focused_pos as int, focused).remove(r.2 as int),
{
    let n = others.len() + 1;
    let target = rotate_index(focused_pos, n, forward);
    set_focus(focused, others, focused_pos, target)
}

/// Scroll-lock offsets per physical column, relative to the leftmost pane:
/// `offsets[i] = top[i] - top[0]`, where the focused pane's top line sits at
/// `focused_pos` and the others' fill the remaining columns in order.
pub fn capture_lock_offsets(focused_top: usize, other_tops: &[usize], focused_pos: usize) -> (offsets: Vec<isize>)
    requires
        focused_pos <= other_tops@.len(),
        focused_top <= isize::MAX,
        forall|i: int| 0 <= i < other_tops@.len() ==> #[trigger] other_tops@[i] <= isize::MAX,
    ensures
        offsets@.len() == other_tops@.len() + 1,
        forall|i: int| 0 <= i < offsets@.len() ==> #[trigger] offsets@[i] as int
            == other_tops@.insert(focused_pos as int, focused_top)[i] as int
                - other_tops@.insert(focused_pos as int, focused_top)[0] as int,
{
    let mut tops: Vec<usize> = Vec::new();
    let mut k: usize = 0;
    while k < other_tops.len()
        invariant
            k <= other_tops@.len(),
            tops@ == other_tops@.take(k as int),
        decreases other_tops@.len() - k,
    {
        tops.push(other_tops[k]);
        assert(other_tops@.take(k + 1) =~= other_tops@.take(k as int).push(other_tops@[k as int]));
        k = k + 1;
    }
    assert(other_tops@.take(other_tops@.len() as int) =~= other_tops@);
    tops.insert(focused_pos, focused_top);
    let ghost all = tops@;
    assert(forall|i: int| 0 <= i < all.len() ==> #[trigger] all[i] <= isize::MAX) by {
        assert forall|i: int| 0 <= i < all.len() implies #[trigger] all[i] <= isize::MAX by {
            if i < focused_pos {
                assert(all[i] == other_tops@[i]);
            } else if i > focused_pos {
                assert(all[i] == other_tops@[i - 1]);
            }
        }
    }
    let base = tops[0] as isize;
    let mut out: Vec<isize> = Vec::new();
    let mut j: usize = 0;
    while j < tops.len()
        invariant
            all == tops@,
            all == other_tops@.insert(focused_pos as int, focused_top),
            forall|i: int| 0 <= i < all.len() ==> #[trigger] all[i] <= isize::MAX,
            all.len() > 0,
            base as int == all[0] as int,
            j <= all.len(),
            out@.len() == j,
            forall|i: int| 0 <= i < j ==> #[trigger] out@[i] as int == all[i] as int - all[0] as int,
        decreases all.len() - j,
    {
        let t = tops[j] as isize;
        out.push(t - base);
        j = j + 1;
    }
    out
}

/// Whether the regex from `pattern` matches line `k` of the index over `s`,
/// escape sequences stripped.
pub open spec fn line_matches(pattern: Seq<char>, idx: &LineIndex, s: Seq<u8>, k: int) -> bool {
    let span = line_span(idx.state(), k, s);
    bytes_regex_is_match(pattern, strip_spec(s.subrange(span.0, span.1)))
}

/// The first line from `from_line` on whose text (escape sequences
/// stripped) `re` matches, after indexing the whole source.
pub fn find_pattern_line(src: &[u8], idx: &mut LineIndex, re: &ByteRegex, from_line: usize) -> (r: Option<usize>)
    requires
        old(idx).wf(),
        old(idx).state().scanned <= src@.len(),
    ensures
        final(idx).wf(),
        final(idx).state() == scan_to(old(idx).state(), src@, src@.len() as int, old(idx).cap(), old(idx).regex()),
        final(idx).start() == old(idx).start(),
        final(idx).cap() == old(idx).cap(),
        final(idx).regex() == old(idx).regex(),
        r matches Some(l) ==> from_line <= l < lines_known(final(idx).state(), final(idx).start(), final(idx).cap())
            && line_matches(re@, &*final(idx), src@, l as int)
            && forall|k: int| from_line <= k < l ==> !line_matches(re@, &*final(idx), src@, k),
        r is None ==> forall|k: int| from_line <= k < lines_known(final(idx).state(), final(idx).start(), final(idx).cap())
            ==> !line_matches(re@, &*final(idx), src@, k),
{
    let n = src.len();
    proof {
        assert(src@.len() == n);
        idx.lemma_index_shape();
        lemma_scan_within(idx.state(), src@, src@.len() as int, idx.cap(), idx.regex());
    }
    idx.extend_to_end(src);
    let total = idx.line_count();
    proof {
        idx.lemma_index_shape();
    }
    let mut line_no = from_line;
    while line_no < total
        invariant
            idx.wf(),
            idx.state().scanned <= src@.len(),
            total as int == lines_known(idx.state(), idx.start(), idx.cap()),
            total <= idx.state().starts.len(),
            idx.state() == scan_to(old(idx).state(), src@, src@.len() as int, old(idx).cap(), old(idx).regex()),
            idx.start() == old(idx).start(),
            idx.cap() == old(idx).cap(),
            idx.regex() == old(idx).regex(),
            from_line <= line_no || line_no == from_line,
            forall|k: int| from_line <= k < line_no ==> !line_matches(re@, &*idx, src@, k),
        decreases total - line_no,
    {
        let bytes = idx.line_bytes_stripped(line_no, src);
        let hit = match &bytes {
            Cow::Borrowed(b) => re.is_match(b),
            Cow::Owned(v) => re.is_match(v.as_slice()),
        };
        if hit {
            return Some(line_no);
        }
        line_no = line_no + 1;
    }
    None
}

} // verus!
