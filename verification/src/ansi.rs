//! ANSI SGR (Select Graphic Rendition) + OSC 8 hyperlink parser.
//!
//! The parser is byte-driven (not char-driven) because ANSI sequences are
//! ASCII-only and we want to operate on raw input from arbitrary sources.
//! Public API: `Style`, `Color`, `ParseState`, `step`, `strip_sgr`.

use std::borrow::Cow;
use vstd::prelude::*;
use crate::text::{
    chars_of, is_valid_utf8, parse_unsigned, parse_usize, split_chars, split_on, string_from_utf8,
    string_of, views_of, lemma_split_on_nonempty, lemma_split_first_two,
};

verus! {

#[derive(Debug, Clone, Copy, PartialEq, Eq, Structural)]
pub enum Color {
    /// 16 named colors: 0..=7 standard, 8..=15 bright.
    Ansi(u8),
    /// xterm-256.
    Indexed(u8),
    /// 24-bit truecolor.
    Rgb(u8, u8, u8),
    /// Explicit reset to terminal default (`\x1b[39m` for fg, `\x1b[49m` for bg).
    Default,
}

#[derive(Debug, Clone, Copy, PartialEq, Eq, Structural)]
pub struct Style {
    pub fg: Option<Color>,
    pub bg: Option<Color>,
    pub bold: bool,
    pub dim: bool,
    pub italic: bool,
    pub underline: bool,
    pub reverse: bool,
    pub strike: bool,
}

/// The style with no colors and no attributes.
pub open spec fn plain_style() -> Style {
    Style {
        fg: None,
        bg: None,
        bold: false,
        dim: false,
        italic: false,
        underline: false,
        reverse: false,
        strike: false,
    }
}

impl Default for Style {
    fn default() -> (s: Self)
        ensures
            s == plain_style(),
    {
        Style {
            fg: None,
            bg: None,
            bold: false,
            dim: false,
            italic: false,
            underline: false,
            reverse: false,
            strike: false,
        }
    }
}

#[derive(Debug, Clone, PartialEq, Eq)]
pub enum ParseState {
    Normal,
    EscSeen,
    CsiBuilding(Vec<u8>),
    OscBuilding(Vec<u8>),
}

impl Default for ParseState {
    fn default() -> (s: Self)
        ensures
            s@ == ParseMode::Normal,
    {
        ParseState::Normal
    }
}

/// `ParseState` as a value: which sequence is open and the bytes gathered.
pub enum ParseMode {
    Normal,
    EscSeen,
    Csi(Seq<u8>),
    Osc(Seq<u8>),
}

impl View for ParseState {
    type V = ParseMode;

    open spec fn view(&self) -> ParseMode {
        match self {
            ParseState::Normal => ParseMode::Normal,
            ParseState::EscSeen => ParseMode::EscSeen,
            ParseState::CsiBuilding(b) => ParseMode::Csi(b@),
            ParseState::OscBuilding(b) => ParseMode::Osc(b@),
        }
    }
}

/// Single-step transition driven by one input byte.
#[derive(Debug, PartialEq, Eq, Structural)]
pub enum ParseStep {
    /// Byte is regular content; caller should emit it as a printable cell.
    Printable(u8),
    /// SGR sequence completed; `style` has been updated in place.
    StyleChanged,
    /// Non-SGR CSI completed; bytes consumed, no visible effect.
    OtherCsiSkipped,
    /// OSC 8 hyperlink open/close; `hyperlink` has been updated in place.
    HyperlinkChanged,
    /// Mid-sequence — caller should consume the byte and yield nothing yet.
    Consuming,
}

pub open spec fn link_view(l: Option<String>) -> Option<Seq<char>> {
    match l {
        Some(s) => Some(s@),
        None => None,
    }
}

// ---------------------------------------------------------------------------
// SGR semantics.
// ---------------------------------------------------------------------------

/// What std's `str::parse::<u16>` gives for one parameter.
pub open spec fn parse_u16_spec(s: Seq<char>) -> Option<u16> {
    match parse_unsigned(s) {
        Some(n) => if n <= 65535 { Some(n as u16) } else { None },
        None => None,
    }
}

/// Parameter `j` as a `u16`, `None` when absent or not a number.
pub open spec fn param_at(parts: Seq<Seq<char>>, j: int) -> Option<u16> {
    if 0 <= j < parts.len() { parse_u16_spec(parts[j]) } else { None }
}

pub open spec fn with_color(style: Style, fg: bool, c: Color) -> Style {
    if fg { Style { fg: Some(c), ..style } } else { Style { bg: Some(c), ..style } }
}

/// The effect of one plain SGR code (not 38/48).
pub open spec fn sgr_code(style: Style, n: u16) -> Style {
    if n == 0 {
        plain_style()
    } else if n == 1 {
        Style { bold: true, ..style }
    } else if n == 2 {
        Style { dim: true, ..style }
    } else if n == 3 {
        Style { italic: true, ..style }
    } else if n == 4 {
        Style { underline: true, ..style }
    } else if n == 7 {
        Style { reverse: true, ..style }
    } else if n == 9 {
        Style { strike: true, ..style }
    } else if n == 22 {
        Style { bold: false, dim: false, ..style }
    } else if n == 23 {
        Style { italic: false, ..style }
    } else if n == 24 {
        Style { underline: false, ..style }
    } else if n == 27 {
        Style { reverse: false, ..style }
    } else if n == 29 {
        Style { strike: false, ..style }
    } else if 30 <= n <= 37 {
        with_color(style, true, Color::Ansi((n - 30) as u8))
    } else if 90 <= n <= 97 {
        with_color(style, true, Color::Ansi((n - 90 + 8) as u8))
    } else if 40 <= n <= 47 {
        with_color(style, false, Color::Ansi((n - 40) as u8))
    } else if 100 <= n <= 107 {
        with_color(style, false, Color::Ansi((n - 100 + 8) as u8))
    } else if n == 39 {
        with_color(style, true, Color::Default)
    } else if n == 49 {
        with_color(style, false, Color::Default)
    } else {
        style
    }
}

/// What the SGR color codes do: 30–37 set the foreground to colors 0–7
/// and 90–97 to the bright colors 8–15; 40–47 set the background to 0–7
/// and 100–107 to 8–15; 39 and 49 put the foreground and the background
/// back to the terminal's default. Each touches only its own color: the
/// other color and every attribute stay as they were. No other code but
/// the full reset 0 changes the foreground or the background.
pub proof fn lemma_sgr_colors(style: Style, n: u16)
    ensures
        30 <= n <= 37 ==> (sgr_code(style, n) == (Style { fg: Some(Color::Ansi((n - 30) as u8)), ..style })),
        90 <= n <= 97 ==> (sgr_code(style, n) == (Style { fg: Some(Color::Ansi((n - 82) as u8)), ..style })),
        40 <= n <= 47 ==> (sgr_code(style, n) == (Style { bg: Some(Color::Ansi((n - 40) as u8)), ..style })),
        100 <= n <= 107 ==> (sgr_code(style, n) == (Style { bg: Some(Color::Ansi((n - 92) as u8)), ..style })),
        n == 39 ==> (sgr_code(style, n) == (Style { fg: Some(Color::Default), ..style })),
        n == 49 ==> (sgr_code(style, n) == (Style { bg: Some(Color::Default), ..style })),
        !(n == 0 || 30 <= n <= 37 || 90 <= n <= 97 || n == 39) ==> sgr_code(style, n).fg == style.fg,
        !(n == 0 || 40 <= n <= 47 || 100 <= n <= 107 || n == 49) ==> sgr_code(style, n).bg == style.bg,
        n == 0 ==> (sgr_code(style, n).fg is None && sgr_code(style, n).bg is None),
{
}

/// What the SGR attribute codes do: 1 bold, 2 dim, 3 italic, 4 underline,
/// 7 reverse and 9 strike turn their attribute on; 22 turns bold and dim
/// off, 23 italic, 24 underline, 27 reverse and 29 strike; 0 resets to the
/// plain style. Each leaves everything else as it was.
pub proof fn lemma_sgr_attributes(style: Style)
    ensures
        sgr_code(style, 0) == plain_style(),
        sgr_code(style, 1) == (Style { bold: true, ..style }),
        sgr_code(style, 2) == (Style { dim: true, ..style }),
        sgr_code(style, 3) == (Style { italic: true, ..style }),
        sgr_code(style, 4) == (Style { underline: true, ..style }),
        sgr_code(style, 7) == (Style { reverse: true, ..style }),
        sgr_code(style, 9) == (Style { strike: true, ..style }),
        sgr_code(style, 22) == (Style { bold: false, dim: false, ..style }),
        sgr_code(style, 23) == (Style { italic: false, ..style }),
        sgr_code(style, 24) == (Style { underline: false, ..style }),
        sgr_code(style, 27) == (Style { reverse: false, ..style }),
        sgr_code(style, 29) == (Style { strike: false, ..style }),
        plain_style().fg is None && plain_style().bg is None && !plain_style().bold && !plain_style().dim
            && !plain_style().italic && !plain_style().underline && !plain_style().reverse && !plain_style().strike,
{
}

/// The extended colors: `38;5;N` sets the foreground and `48;5;N` the
/// background to palette entry N; `38;2;R;G;B` and `48;2;R;G;B` to that
/// truecolor. The other color and the attributes stay. An empty parameter
/// resets to the plain style.
pub proof fn lemma_sgr_extended(parts: Seq<Seq<char>>, style: Style, n: u16, x: u16, r: u16, g: u16, b: u16)
    requires
        n == 38 || n == 48,
        x < 256 && r < 256 && g < 256 && b < 256,
    ensures
        parts.len() == 3 && parse_u16_spec(parts[0]) == Some(n) && parse_u16_spec(parts[1]) == Some(5u16)
            && parse_u16_spec(parts[2]) == Some(x) ==> sgr_from(parts, 0, style) == (if n == 38 {
                Style { fg: Some(Color::Indexed(x as u8)), ..style }
            } else {
                Style { bg: Some(Color::Indexed(x as u8)), ..style }
            }),
        parts.len() == 5 && parse_u16_spec(parts[0]) == Some(n) && parse_u16_spec(parts[1]) == Some(2u16)
            && parse_u16_spec(parts[2]) == Some(r) && parse_u16_spec(parts[3]) == Some(g)
            && parse_u16_spec(parts[4]) == Some(b) ==> sgr_from(parts, 0, style) == (if n == 38 {
                Style { fg: Some(Color::Rgb(r as u8, g as u8, b as u8)), ..style }
            } else {
                Style { bg: Some(Color::Rgb(r as u8, g as u8, b as u8)), ..style }
            }),
        parts.len() == 1 && parts[0].len() == 0 ==> sgr_from(parts, 0, style) == plain_style(),
{
    assert((x as u8) as u16 == x) by (bit_vector) requires x < 256;
    if parts.len() == 3 && parse_u16_spec(parts[0]) == Some(n) && parse_u16_spec(parts[1]) == Some(5u16)
        && parse_u16_spec(parts[2]) == Some(x) {
        assert(sgr_from(parts, 3, with_color(style, n == 38, Color::Indexed(x as u8))) == with_color(style, n == 38, Color::Indexed(x as u8)));
    }
    if parts.len() == 5 && parse_u16_spec(parts[0]) == Some(n) && parse_u16_spec(parts[1]) == Some(2u16) {
        let c = Color::Rgb(
            (match param_at(parts, 2) { Some(v) => v, None => 0u16 }) as u8,
            (match param_at(parts, 3) { Some(v) => v, None => 0u16 }) as u8,
            (match param_at(parts, 4) { Some(v) => v, None => 0u16 }) as u8,
        );
        assert(sgr_from(parts, 5, with_color(style, n == 38, c)) == with_color(style, n == 38, c));
    }
    if parts.len() == 1 && parts[0].len() == 0 {
        assert(parse_unsigned(parts[0]) is None);
        assert(sgr_from(parts, 1, plain_style()) == plain_style());
    }
}

/// Apply the `;`-separated parameters from index `i` on. An empty parameter
/// resets; other non-numbers are skipped; `38`/`48` take `5;N` (256-color)
/// or `2;R;G;B` (truecolor, missing channels 0) and skip what they consume.
pub open spec fn sgr_from(parts: Seq<Seq<char>>, i: nat, style: Style) -> Style
    decreases parts.len() + 5 - i,
{
    if i >= parts.len() {
        style
    } else {
        match parse_u16_spec(parts[i as int]) {
            None => if parts[i as int].len() == 0 {
                sgr_from(parts, i + 1, plain_style())
            } else {
                sgr_from(parts, i + 1, style)
            },
            Some(n) => if n == 38 || n == 48 {
                match param_at(parts, i + 1 as int) {
                    None => sgr_from(parts, i + 1, style),
                    Some(mode) => if mode == 5 {
                        match param_at(parts, i + 2 as int) {
                            None => sgr_from(parts, i + 2, style),
                            Some(x) => sgr_from(parts, i + 3, with_color(style, n == 38, Color::Indexed(#[verifier::truncate] (x as u8)))),
                        }
                    } else if mode == 2 {
                        let r = match param_at(parts, i + 2 as int) { Some(v) => v, None => 0u16 };
                        let g = match param_at(parts, i + 3 as int) { Some(v) => v, None => 0u16 };
                        let b = match param_at(parts, i + 4 as int) { Some(v) => v, None => 0u16 };
                        sgr_from(parts, i + 5, with_color(style, n == 38, Color::Rgb(r as u8, g as u8, b as u8)))
                    } else {
                        sgr_from(parts, i + 2, style)
                    },
                }
            } else {
                sgr_from(parts, i + 1, sgr_code(style, n))
            },
        }
    }
}

/// The style after an SGR sequence with parameter bytes `params`: empty
/// parameters reset; bytes that are not UTF-8 leave the style unchanged.
pub open spec fn sgr_spec(params: Seq<u8>, style: Style) -> Style {
    if params.len() == 0 {
        plain_style()
    } else if !vstd::utf8::valid_utf8(params) {
        style
    } else {
        sgr_from(split_on(vstd::utf8::decode_utf8(params), ';'), 0, style)
    }
}

/// The hyperlink after an OSC sequence with body `body`: `8;params;URI`
/// opens URI (an empty URI closes); other commands and non-UTF-8 bodies
/// leave it unchanged.
pub open spec fn osc_spec(body: Seq<u8>, link: Option<Seq<char>>) -> Option<Seq<char>> {
    if !vstd::utf8::valid_utf8(body) {
        link
    } else {
        let parts = split_on(vstd::utf8::decode_utf8(body), ';');
        if parts[0] != seq!['8'] {
            link
        } else if parts.len() < 3 {
            None
        } else {
            let uri = osc_uri(vstd::utf8::decode_utf8(body));
            if uri.len() == 0 { None } else { Some(uri) }
        }
    }
}

/// The text after the second `;` (the third `splitn(3, ';')` piece).
pub open spec fn osc_uri(text: Seq<char>) -> Seq<char> {
    let parts = split_on(text, ';');
    text.skip(parts[0].len() + parts[1].len() + 2 as int)
}

/// One transition of the byte-driven state machine.
pub open spec fn step_spec(st: ParseMode, style: Style, link: Option<Seq<char>>, byte: u8)
    -> (ParseMode, Style, Option<Seq<char>>, ParseStep)
{
    match st {
        ParseMode::Normal => if byte == 0x1b {
            (ParseMode::EscSeen, style, link, ParseStep::Consuming)
        } else {
            (ParseMode::Normal, style, link, ParseStep::Printable(byte))
        },
        ParseMode::EscSeen => if byte == 0x5b {
            (ParseMode::Csi(seq![]), style, link, ParseStep::Consuming)
        } else if byte == 0x5d {
            (ParseMode::Osc(seq![]), style, link, ParseStep::Consuming)
        } else {
            (ParseMode::Normal, style, link, ParseStep::OtherCsiSkipped)
        },
        ParseMode::Csi(buf) => if 0x40 <= byte && byte <= 0x7e {
            if byte == 0x6d {
                (ParseMode::Normal, sgr_spec(buf, style), link, ParseStep::StyleChanged)
            } else {
                (ParseMode::Normal, style, link, ParseStep::OtherCsiSkipped)
            }
        } else {
            (ParseMode::Csi(buf.push(byte)), style, link, ParseStep::Consuming)
        },
        ParseMode::Osc(buf) => if byte == 0x07 {
            (ParseMode::Normal, style, osc_spec(buf, link), ParseStep::HyperlinkChanged)
        } else if byte == 0x5c && buf.len() > 0 && buf.last() == 0x1b {
            (ParseMode::Normal, style, osc_spec(buf.drop_last(), link), ParseStep::HyperlinkChanged)
        } else {
            (ParseMode::Osc(buf.push(byte)), style, link, ParseStep::Consuming)
        },
    }
}

/// Apply one input byte to the state machine. `style` and `hyperlink` are
/// updated in place when relevant sequences complete.
pub fn step(state: &mut ParseState, style: &mut Style, hyperlink: &mut Option<String>, byte: u8) -> (r:
    ParseStep)
    ensures
        (final(state)@, *final(style), link_view(*final(hyperlink)), r) == step_spec(
            old(state)@,
            *old(style),
            link_view(*old(hyperlink)),
            byte,
        ),
{
    let mut cur = ParseState::Normal;
    std::mem::swap(&mut cur, state);
    match cur {
        ParseState::Normal => {
            if byte == 0x1b {
                *state = ParseState::EscSeen;
                ParseStep::Consuming
            } else {
                ParseStep::Printable(byte)
            }
        },
        ParseState::EscSeen => {
            if byte == 0x5b {
                *state = ParseState::CsiBuilding(Vec::new());
                ParseStep::Consuming
            } else if byte == 0x5d {
                *state = ParseState::OscBuilding(Vec::new());
                ParseStep::Consuming
            } else {
                ParseStep::OtherCsiSkipped
            }
        },
        ParseState::CsiBuilding(mut buf) => {
            if 0x40 <= byte && byte <= 0x7e {
                if byte == 0x6d {
                    apply_sgr(buf.as_slice(), style);
                    ParseStep::StyleChanged
                } else {
                    ParseStep::OtherCsiSkipped
                }
            } else {
                buf.push(byte);
                *state = ParseState::CsiBuilding(buf);
                ParseStep::Consuming
            }
        },
        ParseState::OscBuilding(mut buf) => {
            if byte == 0x07 {
                apply_osc(buf.as_slice(), hyperlink);
                ParseStep::HyperlinkChanged
            } else if byte == 0x5c && buf.len() > 0 && buf[buf.len() - 1] == 0x1b {
                buf.pop();
                apply_osc(buf.as_slice(), hyperlink);
                ParseStep::HyperlinkChanged
            } else {
                buf.push(byte);
                *state = ParseState::OscBuilding(buf);
                ParseStep::Consuming
            }
        },
    }
}

fn parse_u16(s: &[char]) -> (r: Option<u16>)
    ensures
        r == parse_u16_spec(s@),
{
    match parse_usize(s) {
        Some(n) => if n <= 65535 { Some(n as u16) } else { None },
        None => None,
    }
}

/// `i + k`, saturating at `usize::MAX` (past the end of any parameter list).
fn bump(i: usize, k: usize) -> (r: usize)
    ensures
        r == (if i + k <= usize::MAX { (i + k) as usize } else { usize::MAX }),
{
    if i <= usize::MAX - k { i + k } else { usize::MAX }
}

fn param_u16(codes: &Vec<Option<u16>>, j: usize) -> (r: Option<u16>)
    requires
        j <= usize::MAX,
    ensures
        r == (if j < codes@.len() { codes@[j as int] } else { None }),
{
    if j < codes.len() { codes[j] } else { None }
}

fn set_color(style: &mut Style, fg: bool, c: Color)
    ensures
        *final(style) == with_color(*old(style), fg, c),
{
    if fg {
        style.fg = Some(c);
    } else {
        style.bg = Some(c);
    }
}

fn apply_code(style: &mut Style, n: u16)
    ensures
        *final(style) == sgr_code(*old(style), n),
{
    match n {
        0 => *style = Style::default(),
        1 => style.bold = true,
        2 => style.dim = true,
        3 => style.italic = true,
        4 => style.underline = true,
        7 => style.reverse = true,
        9 => style.strike = true,
        22 => {
            style.bold = false;
            style.dim = false;
        },
        23 => style.italic = false,
        24 => style.underline = false,
        27 => style.reverse = false,
        29 => style.strike = false,
        30..=37 => style.fg = Some(Color::Ansi((n - 30) as u8)),
        90..=97 => style.fg = Some(Color::Ansi((n - 90 + 8) as u8)),
        40..=47 => style.bg = Some(Color::Ansi((n - 40) as u8)),
        100..=107 => style.bg = Some(Color::Ansi((n - 100 + 8) as u8)),
        39 => style.fg = Some(Color::Default),
        49 => style.bg = Some(Color::Default),
        _ => {},
    }
}

fn apply_sgr(params: &[u8], style: &mut Style)
    ensures
        *final(style) == sgr_spec(params@, *old(style)),
{
    if params.len() == 0 {
        *style = Style::default();
        return;
    }
    if !is_valid_utf8(params) {
        return;
    }
    let text = string_from_utf8(params);
    let chars = chars_of(text.as_str());
    let parts = split_chars(chars.as_slice(), ';');
    let ghost pv = views_of(parts@);
    let mut codes: Vec<Option<u16>> = Vec::new();
    let mut k: usize = 0;
    while k < parts.len()
        invariant
            k <= parts@.len(),
            pv == views_of(parts@),
            codes@.len() == k,
            forall|j: int| 0 <= j < k ==> #[trigger] codes@[j] == parse_u16_spec(pv[j]),
        decreases parts@.len() - k,
    {
        let c = parse_u16(parts[k].as_slice());
        codes.push(c);
        k = k + 1;
    }
    let mut i: usize = 0;
    while i < parts.len()
        invariant
            pv == views_of(parts@),
            pv == split_on(vstd::utf8::decode_utf8(params@), ';'),
            codes@.len() == pv.len(),
            forall|j: int| 0 <= j < pv.len() ==> #[trigger] codes@[j] == parse_u16_spec(pv[j]),
            sgr_from(pv, i as nat, *style) == sgr_spec(params@, *old(style)),
        decreases pv.len() + 5 - i,
    {
        assert(codes@[i as int] == parse_u16_spec(pv[i as int]));
        assert(pv[i as int] == parts@[i as int]@);
        let ghost i0 = i as nat;
        let ghost s0 = *style;
        match codes[i] {
            None => {
                if parts[i].len() == 0 {
                    *style = Style::default();
                }
                i = bump(i, 1);
                assert(sgr_from(pv, i as nat, *style) == sgr_from(pv, i0, s0));
            },
            Some(n) => {
                if n == 38 || n == 48 {
                    match param_u16(&codes, bump(i, 1)) {
                        None => {
                            i = bump(i, 1);
                            assert(sgr_from(pv, i as nat, *style) == sgr_from(pv, i0, s0));
                        },
                        Some(mode) => {
                            if mode == 5 {
                                match param_u16(&codes, bump(i, 2)) {
                                    None => {
                                        i = bump(i, 2);
                                        assert(sgr_from(pv, i as nat, *style) == sgr_from(pv, i0, s0));
                                    },
                                    Some(x) => {
                                        set_color(style, n == 38, Color::Indexed(#[verifier::truncate] (x as u8)));
                                        i = bump(i, 3);
                                        assert(sgr_from(pv, i as nat, *style) == sgr_from(pv, i0, s0));
                                    },
                                }
                            } else if mode == 2 {
                                let r = match param_u16(&codes, bump(i, 2)) { Some(v) => v, None => 0u16 };
                                let g = match param_u16(&codes, bump(i, 3)) { Some(v) => v, None => 0u16 };
                                let b = match param_u16(&codes, bump(i, 4)) { Some(v) => v, None => 0u16 };
                                assert(r == match param_at(pv, i0 + 2 as int) { Some(v) => v, None => 0u16 });
                                assert(g == match param_at(pv, i0 + 3 as int) { Some(v) => v, None => 0u16 });
                                assert(b == match param_at(pv, i0 + 4 as int) { Some(v) => v, None => 0u16 });
                                set_color(style, n == 38, Color::Rgb(#[verifier::truncate] (r as u8), #[verifier::truncate] (g as u8), #[verifier::truncate] (b as u8)));
                                i = bump(i, 5);
                                assert(*style == with_color(s0, n == 38, Color::Rgb(r as u8, g as u8, b as u8)));
                                assert(sgr_from(pv, i0, s0) == sgr_from(pv, i0 + 5, with_color(s0, n == 38, Color::Rgb(r as u8, g as u8, b as u8))));
                                assert(sgr_from(pv, i as nat, *style) == sgr_from(pv, i0, s0));
                            } else {
                                i = bump(i, 2);
                            }
                        },
                    }
                } else {
                    apply_code(style, n);
                    i = bump(i, 1);
                    assert(sgr_from(pv, i as nat, *style) == sgr_from(pv, i0, s0));
                }
            },
        }
    }
}

fn apply_osc(body: &[u8], hyperlink: &mut Option<String>)
    ensures
        link_view(*final(hyperlink)) == osc_spec(body@, link_view(*old(hyperlink))),
{
    if !is_valid_utf8(body) {
        return;
    }
    let text = string_from_utf8(body);
    let chars = chars_of(text.as_str());
    let parts = split_chars(chars.as_slice(), ';');
    proof {
        lemma_split_on_nonempty(chars@, ';');
    }
    let cmd = &parts[0];
    if !(cmd.len() == 1 && cmd[0] == '8') {
        assert(views_of(parts@)[0] != seq!['8']) by {
            if views_of(parts@)[0] == seq!['8'] {
                assert(cmd@ == seq!['8']);
            }
        }
        return;
    }
    assert(views_of(parts@)[0] =~= seq!['8']);
    if parts.len() < 3 {
        *hyperlink = None;
        return;
    }
    let p0 = parts[0].len();
    let p1 = parts[1].len();
    proof {
        let pv = views_of(parts@);
        lemma_split_first_two(chars@, ';');
        assert(pv.len() == parts@.len());
        assert(pv[0] == parts@[0]@);
        assert(pv[1] == parts@[1]@);
        assert(p0 + p1 + 2 <= chars@.len());
        assert(chars@.len() == chars.len());
    }
    let start = p0 + p1 + 2;
    let mut uri: Vec<char> = Vec::new();
    let mut j: usize = start;
    while j < chars.len()
        invariant
            start <= j <= chars@.len(),
            uri@ == chars@.subrange(start as int, j as int),
        decreases chars@.len() - j,
    {
        uri.push(chars[j]);
        assert(uri@ =~= chars@.subrange(start as int, j + 1));
        j = j + 1;
    }
    assert(uri@ =~= osc_uri(chars@));
    if uri.len() == 0 {
        *hyperlink = None;
    } else {
        *hyperlink = Some(string_of(uri.as_slice()));
    }
}

/// Feed `bytes` through the machine from a fresh start: the final state,
/// style and hyperlink, and the printable bytes emitted along the way.
pub open spec fn run_spec(bytes: Seq<u8>) -> (ParseMode, Style, Option<Seq<char>>, Seq<u8>)
    decreases bytes.len(),
{
    if bytes.len() == 0 {
        (ParseMode::Normal, plain_style(), None, seq![])
    } else {
        let prev = run_spec(bytes.drop_last());
        let next = step_spec(prev.0, prev.1, prev.2, bytes.last());
        (next.0, next.1, next.2, match next.3 {
            ParseStep::Printable(b) => prev.3.push(b),
            _ => prev.3,
        })
    }
}

proof fn lemma_csi_collects(a: Seq<u8>, p: Seq<u8>, buf: Seq<u8>)
    requires
        run_spec(a).0 == ParseMode::Csi(buf),
        forall|i: int| 0 <= i < p.len() ==> !(0x40 <= #[trigger] p[i] && p[i] <= 0x7e),
    ensures
        run_spec(a + p).0 == ParseMode::Csi(buf + p),
        run_spec(a + p).1 == run_spec(a).1,
        run_spec(a + p).2 == run_spec(a).2,
        run_spec(a + p).3 == run_spec(a).3,
    decreases p.len(),
{
    if p.len() == 0 {
        assert(a + p =~= a);
        assert(buf + p =~= buf);
    } else {
        let q = p.drop_last();
        lemma_csi_collects(a, q, buf);
        assert((a + p).drop_last() =~= a + q);
        assert((a + p).last() == p.last());
        assert(buf + q.push(p.last()) =~= buf + p);
        assert(q.push(p.last()) =~= p);
    }
}

/// An SGR sequence restyles and prints nothing: after text that leaves the
/// parser between sequences, `ESC [ params m` (the parameters holding no
/// final byte) applies the parameters to the style, keeps the hyperlink and
/// the text printed so far, and leaves the parser between sequences again.
/// So `ESC [ 4 2 m` gives a green background and leaves the foreground.
pub proof fn lemma_sgr_sequence_applies(a: Seq<u8>, p: Seq<u8>)
    requires
        run_spec(a).0 == ParseMode::Normal,
        forall|i: int| 0 <= i < p.len() ==> !(0x40 <= #[trigger] p[i] && p[i] <= 0x7e),
    ensures
        ({
            let r = run_spec(a + seq![0x1bu8, 0x5bu8] + p + seq![0x6du8]);
            &&& r.0 == ParseMode::Normal
            &&& r.1 == sgr_spec(p, run_spec(a).1)
            &&& r.2 == run_spec(a).2
            &&& r.3 == run_spec(a).3
        }),
{
    let e = a + seq![0x1bu8];
    assert(e.drop_last() =~= a);
    assert(e.last() == 0x1bu8);
    assert(run_spec(e) == (ParseMode::EscSeen, run_spec(a).1, run_spec(a).2, run_spec(a).3));
    let c = a + seq![0x1bu8, 0x5bu8];
    assert(c.drop_last() =~= e);
    assert(c.last() == 0x5bu8);
    assert(run_spec(c) == (ParseMode::Csi(Seq::<u8>::empty()), run_spec(a).1, run_spec(a).2, run_spec(a).3));
    lemma_csi_collects(c, p, Seq::<u8>::empty());
    assert(Seq::<u8>::empty() + p =~= p);
    let whole = a + seq![0x1bu8, 0x5bu8] + p + seq![0x6du8];
    assert(whole.drop_last() =~= c + p);
    assert(whole.last() == 0x6du8);
    assert(run_spec(c + p).0 == ParseMode::Csi(p));
    assert(run_spec(whole) == (ParseMode::Normal, sgr_spec(p, run_spec(a).1), run_spec(a).2, run_spec(a).3));
}

proof fn lemma_split_without_sep(t: Seq<char>, sep: char)
    requires
        forall|i: int| 0 <= i < t.len() ==> #[trigger] t[i] != sep,
    ensures
        split_on(t, sep) == seq![t],
    decreases t.len(),
{
    if t.len() == 0 {
        assert(t =~= Seq::<char>::empty());
    } else {
        assert(t[t.len() - 1] != sep);
        lemma_split_without_sep(t.drop_last(), sep);
        assert(t.drop_last().push(t.last()) =~= t);
        assert(seq![t.drop_last()].update(0, t.drop_last().push(t.last())) =~= seq![t]);
    }
}

/// One SGR parameter does what its code does: for parameter text (no `;`)
/// that reads as a code other than the extended-color introducers 38 and
/// 48, the sequence's effect on the style is that code's effect.
pub proof fn lemma_sgr_single_param(p: Seq<u8>, style: Style, n: u16)
    requires
        p.len() > 0,
        vstd::utf8::valid_utf8(p),
        forall|i: int| 0 <= i < vstd::utf8::decode_utf8(p).len() ==> #[trigger] vstd::utf8::decode_utf8(p)[i] != ';',
        parse_u16_spec(vstd::utf8::decode_utf8(p)) == Some(n),
        n != 38 && n != 48,
    ensures
        sgr_spec(p, style) == sgr_code(style, n),
{
    let t = vstd::utf8::decode_utf8(p);
    lemma_split_without_sep(t, ';');
    let parts = split_on(t, ';');
    assert(parts[0] == t);
    assert(sgr_from(parts, 1, sgr_code(style, n)) == sgr_code(style, n));
}

/// The printable content of `bytes` with every escape sequence removed.
pub open spec fn strip_spec(bytes: Seq<u8>) -> Seq<u8> {
    run_spec(bytes).3
}

/// Strip SGR / CSI / OSC sequences from a byte slice. Borrows the input when
/// no escape byte is present (common case) and owns a new buffer otherwise.
pub fn strip_sgr(bytes: &[u8]) -> (r: Cow<'_, [u8]>)
    ensures
        r@ == strip_spec(bytes@),
        !bytes@.contains(0x1b) ==> r is Borrowed,
{
    let mut has_esc = false;
    let mut k: usize = 0;
    while k < bytes.len()
        invariant
            k <= bytes@.len(),
            has_esc == bytes@.take(k as int).contains(0x1b),
        decreases bytes@.len() - k,
    {
        if bytes[k] == 0x1b {
            has_esc = true;
            assert(bytes@.take(k + 1)[k as int] == 0x1b);
        } else {
            assert(bytes@.take(k + 1) =~= bytes@.take(k as int).push(bytes[k as int]));
        }
        k = k + 1;
    }
    assert(bytes@.take(bytes@.len() as int) =~= bytes@);
    if !has_esc {
        proof { lemma_strip_without_escape(bytes@); }
        return Cow::Borrowed(bytes);
    }
    let mut out: Vec<u8> = Vec::new();
    let mut state = ParseState::Normal;
    let mut style = Style::default();
    let mut hyperlink: Option<String> = None;
    let mut i: usize = 0;
    assert(bytes@.take(0) =~= Seq::<u8>::empty());
    while i < bytes.len()
        invariant
            i <= bytes@.len(),
            (state@, style, link_view(hyperlink), out@) == run_spec(bytes@.take(i as int)),
        decreases bytes@.len() - i,
    {
        let b = bytes[i];
        proof {
            assert(bytes@.take(i + 1).drop_last() =~= bytes@.take(i as int));
        }
        let st = step(&mut state, &mut style, &mut hyperlink, b);
        if let ParseStep::Printable(byte) = st {
            out.push(byte);
        }
        i = i + 1;
    }
    Cow::Owned(out)
}

/// Input with no escape byte passes through the machine unchanged.
pub proof fn lemma_strip_without_escape(bytes: Seq<u8>)
    requires
        !bytes.contains(0x1b),
    ensures
        run_spec(bytes).0 == ParseMode::Normal,
        strip_spec(bytes) == bytes,
    decreases bytes.len(),
{
    if bytes.len() > 0 {
        let d = bytes.drop_last();
        assert(!d.contains(0x1b)) by {
            if d.contains(0x1b) {
                let j = choose|j: int| 0 <= j < d.len() && d[j] == 0x1b;
                assert(bytes[j] == 0x1b);
            }
        }
        lemma_strip_without_escape(d);
        assert(bytes.last() != 0x1b) by {
            assert(bytes[bytes.len() - 1] == bytes.last());
        }
        assert(d.push(bytes.last()) =~= bytes);
    }
}

/// Stripping never leaves an escape byte behind.
pub proof fn lemma_strip_has_no_escape(bytes: Seq<u8>)
    ensures
        !strip_spec(bytes).contains(0x1b),
    decreases bytes.len(),
{
    if bytes.len() > 0 {
        lemma_strip_has_no_escape(bytes.drop_last());
        let prev = run_spec(bytes.drop_last());
        let next = step_spec(prev.0, prev.1, prev.2, bytes.last());
        if let ParseStep::Printable(b) = next.3 {
            assert(b != 0x1b);
            assert forall|j: int| 0 <= j < prev.3.push(b).len() implies prev.3.push(b)[j] != 0x1b by {
                if j < prev.3.len() {
                    assert(!prev.3.contains(0x1b));
                }
            }
        }
    }
}

/// Stripping is idempotent: stripped text strips to itself.
pub proof fn lemma_strip_idempotent(bytes: Seq<u8>)
    ensures
        strip_spec(strip_spec(bytes)) == strip_spec(bytes),
{
    lemma_strip_has_no_escape(bytes);
    lemma_strip_without_escape(strip_spec(bytes));
}

/// `a` is `b` with some elements left out: the elements of `a` appear in
/// `b` at increasing positions.
pub open spec fn is_subsequence(a: Seq<u8>, b: Seq<u8>) -> bool {
    exists|pos: Seq<int>| #[trigger] positions_pick(pos, a, b)
}

/// `pos` gives, for each element of `a`, an increasing position in `b`
/// holding it.
pub open spec fn positions_pick(pos: Seq<int>, a: Seq<u8>, b: Seq<u8>) -> bool {
    &&& pos.len() == a.len()
    &&& forall|i: int| 0 <= i < pos.len() ==> 0 <= #[trigger] pos[i] < b.len() && b[pos[i]] == a[i]
    &&& forall|i: int, j: int| 0 <= i < j < pos.len() ==> #[trigger] pos[i] < #[trigger] pos[j]
}

/// The positions of the input bytes that the machine prints.
spec fn printed_positions(bytes: Seq<u8>) -> Seq<int>
    decreases bytes.len(),
{
    if bytes.len() == 0 {
        seq![]
    } else {
        let prev = run_spec(bytes.drop_last());
        let next = step_spec(prev.0, prev.1, prev.2, bytes.last());
        match next.3 {
            ParseStep::Printable(_) => printed_positions(bytes.drop_last()).push(bytes.len() - 1),
            _ => printed_positions(bytes.drop_last()),
        }
    }
}

proof fn lemma_printed_positions(bytes: Seq<u8>)
    ensures
        positions_pick(printed_positions(bytes), strip_spec(bytes), bytes),
    decreases bytes.len(),
{
    if bytes.len() > 0 {
        let d = bytes.drop_last();
        lemma_printed_positions(d);
        let prev = run_spec(d);
        let next = step_spec(prev.0, prev.1, prev.2, bytes.last());
        let pp = printed_positions(d);
        assert forall|i: int| 0 <= i < pp.len() implies #[trigger] pp[i] < d.len() && bytes[pp[i]] == d[pp[i]] by {}
        if let ParseStep::Printable(b) = next.3 {
            assert(b == bytes.last());
        }
    }
}

/// Stripping only leaves bytes out: what remains appears in the input in
/// the same order.
pub proof fn lemma_strip_is_subsequence(bytes: Seq<u8>)
    ensures
        is_subsequence(strip_spec(bytes), bytes),
{
    lemma_printed_positions(bytes);
    assert(positions_pick(printed_positions(bytes), strip_spec(bytes), bytes));
}

} // verus!
