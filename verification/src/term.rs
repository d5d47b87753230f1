//! Decisions behind drawing to the terminal: which commands move it from
//! one cell style to the next, the OSC 8 bytes that switch hyperlinks, and
//! fitting the status text to the screen width. Sending the commands is
//! the caller's part.

use vstd::prelude::*;
use crate::ansi::{Color, Style};
use crate::text::{chars_of, string_of};

verus! {

// ---------------------------------------------------------------------------
// Style transitions.
// ---------------------------------------------------------------------------

/// One terminal command that changes the current style.
#[derive(Debug, Clone, Copy, PartialEq, Eq, Structural)]
pub enum StyleOp {
    /// Both colors back to the terminal default.
    ResetColor,
    SetForeground(Color),
    SetBackground(Color),
    Bold,
    Dim,
    /// Neither bold nor dim.
    NormalIntensity,
    Italic(bool),
    Underline(bool),
    Reverse(bool),
    Strike(bool),
}

/// What a command does to the terminal's current style.
pub open spec fn apply_op(t: Style, op: StyleOp) -> Style {
    match op {
        StyleOp::ResetColor => Style { fg: None, bg: None, ..t },
        StyleOp::SetForeground(c) => Style { fg: Some(c), ..t },
        StyleOp::SetBackground(c) => Style { bg: Some(c), ..t },
        StyleOp::Bold => Style { bold: true, ..t },
        StyleOp::Dim => Style { dim: true, ..t },
        StyleOp::NormalIntensity => Style { bold: false, dim: false, ..t },
        StyleOp::Italic(b) => Style { italic: b, ..t },
        StyleOp::Underline(b) => Style { underline: b, ..t },
        StyleOp::Reverse(b) => Style { reverse: b, ..t },
        StyleOp::Strike(b) => Style { strike: b, ..t },
    }
}

/// The style after a run of commands.
pub open spec fn apply_ops(t: Style, ops: Seq<StyleOp>) -> Style
    decreases ops.len(),
{
    if ops.len() == 0 {
        t
    } else {
        apply_op(apply_ops(t, ops.drop_last()), ops.last())
    }
}

/// The color commands from `prev` to `next`: a color reset when either
/// color goes back to default (then the colors that stay set again),
/// otherwise just the colors that changed.
pub open spec fn color_ops(prev: Style, next: Style) -> Seq<StyleOp> {
    let fg_changed = prev.fg != next.fg;
    let bg_changed = prev.bg != next.bg;
    if (fg_changed && next.fg is None) || (bg_changed && next.bg is None) {
        seq![StyleOp::ResetColor]
            + (match next.fg { Some(c) => seq![StyleOp::SetForeground(c)], None => Seq::empty() })
            + (match next.bg { Some(c) => seq![StyleOp::SetBackground(c)], None => Seq::empty() })
    } else {
        (if fg_changed { match next.fg { Some(c) => seq![StyleOp::SetForeground(c)], None => Seq::empty() } } else { Seq::empty() })
            + (if bg_changed { match next.bg { Some(c) => seq![StyleOp::SetBackground(c)], None => Seq::empty() } } else { Seq::empty() })
    }
}

/// The intensity command when bold or dim changed: bold wins over dim,
/// neither means normal intensity.
pub open spec fn intensity_ops(prev: Style, next: Style) -> Seq<StyleOp> {
    if prev.bold != next.bold || prev.dim != next.dim {
        seq![if next.bold { StyleOp::Bold } else if next.dim { StyleOp::Dim } else { StyleOp::NormalIntensity }]
    } else {
        Seq::empty()
    }
}

/// The italic command when italic changed.
pub open spec fn italic_ops(prev: Style, next: Style) -> Seq<StyleOp> {
    if prev.italic != next.italic { seq![StyleOp::Italic(next.italic)] } else { Seq::empty() }
}

/// The underline command when underline changed.
pub open spec fn underline_ops(prev: Style, next: Style) -> Seq<StyleOp> {
    if prev.underline != next.underline { seq![StyleOp::Underline(next.underline)] } else { Seq::empty() }
}

/// The reverse command when reverse changed.
pub open spec fn reverse_ops(prev: Style, next: Style) -> Seq<StyleOp> {
    if prev.reverse != next.reverse { seq![StyleOp::Reverse(next.reverse)] } else { Seq::empty() }
}

/// The strike command when strike changed.
pub open spec fn strike_ops(prev: Style, next: Style) -> Seq<StyleOp> {
    if prev.strike != next.strike { seq![StyleOp::Strike(next.strike)] } else { Seq::empty() }
}

/// The attribute commands from `prev` to `next`, in this order.
pub open spec fn attribute_ops(prev: Style, next: Style) -> Seq<StyleOp> {
    intensity_ops(prev, next) + italic_ops(prev, next) + underline_ops(prev, next) + reverse_ops(prev, next)
        + strike_ops(prev, next)
}

/// The commands that move the terminal from cells drawn in `prev` to cells
/// drawn in `next`.
pub fn style_diff(prev: &Style, next: &Style) -> (ops: Vec<StyleOp>)
    ensures
        ops@ == color_ops(*prev, *next) + attribute_ops(*prev, *next),
{
    let mut ops = color_diff(prev, next);
    push_attribute_ops(&mut ops, prev, next);
    ops
}

fn color_diff(prev: &Style, next: &Style) -> (ops: Vec<StyleOp>)
    ensures
        ops@ == color_ops(*prev, *next),
{
    let mut ops: Vec<StyleOp> = Vec::new();
    let fg_changed = prev.fg != next.fg;
    let bg_changed = prev.bg != next.bg;
    if (fg_changed && next.fg.is_none()) || (bg_changed && next.bg.is_none()) {
        ops.push(StyleOp::ResetColor);
        if let Some(c) = next.fg {
            ops.push(StyleOp::SetForeground(c));
        }
        if let Some(c) = next.bg {
            ops.push(StyleOp::SetBackground(c));
        }
    } else {
        if fg_changed {
            if let Some(c) = next.fg {
                ops.push(StyleOp::SetForeground(c));
            }
        }
        if bg_changed {
            if let Some(c) = next.bg {
                ops.push(StyleOp::SetBackground(c));
            }
        }
    }
    assert(ops@ =~= color_ops(*prev, *next));
    ops
}

fn push_attribute_ops(ops: &mut Vec<StyleOp>, prev: &Style, next: &Style)
    ensures
        final(ops)@ == old(ops)@ + attribute_ops(*prev, *next),
{
    let ghost start = ops@;
    let ghost p = *prev;
    let ghost n = *next;
    push_intensity(ops, prev, next);
    push_toggle(ops, prev.italic, next.italic, StyleOp::Italic(next.italic));
    push_toggle(ops, prev.underline, next.underline, StyleOp::Underline(next.underline));
    push_toggle(ops, prev.reverse, next.reverse, StyleOp::Reverse(next.reverse));
    push_toggle(ops, prev.strike, next.strike, StyleOp::Strike(next.strike));
    proof {
        lemma_concat_assoc5(start, intensity_ops(p, n), italic_ops(p, n), underline_ops(p, n), reverse_ops(p, n), strike_ops(p, n));
    }
}

fn push_intensity(ops: &mut Vec<StyleOp>, prev: &Style, next: &Style)
    ensures
        final(ops)@ == old(ops)@ + intensity_ops(*prev, *next),
{
    if prev.bold != next.bold || prev.dim != next.dim {
        if next.bold {
            ops.push(StyleOp::Bold);
        } else if next.dim {
            ops.push(StyleOp::Dim);
        } else {
            ops.push(StyleOp::NormalIntensity);
        }
    }
    assert(ops@ =~= old(ops)@ + intensity_ops(*prev, *next));
}

fn push_toggle(ops: &mut Vec<StyleOp>, was: bool, now: bool, op: StyleOp)
    ensures
        final(ops)@ == old(ops)@ + (if was != now { seq![op] } else { Seq::<StyleOp>::empty() }),
{
    if was != now {
        ops.push(op);
    }
    assert(ops@ =~= old(ops)@ + (if was != now { seq![op] } else { Seq::<StyleOp>::empty() }));
}

/// Applying the commands of `style_diff(prev, next)` to a terminal in
/// `prev` gives `next`'s colors and italic, underline, reverse and strike;
/// bold when `next` is bold, dim when `next` is dim but not bold, and
/// neither when `next` has neither.
pub proof fn lemma_style_diff_reaches_next(prev: Style, next: Style)
    ensures
        apply_ops(prev, color_ops(prev, next) + attribute_ops(prev, next)).fg == next.fg,
        apply_ops(prev, color_ops(prev, next) + attribute_ops(prev, next)).bg == next.bg,
        apply_ops(prev, color_ops(prev, next) + attribute_ops(prev, next)).italic == next.italic,
        apply_ops(prev, color_ops(prev, next) + attribute_ops(prev, next)).underline == next.underline,
        apply_ops(prev, color_ops(prev, next) + attribute_ops(prev, next)).reverse == next.reverse,
        apply_ops(prev, color_ops(prev, next) + attribute_ops(prev, next)).strike == next.strike,
        next.bold ==> apply_ops(prev, color_ops(prev, next) + attribute_ops(prev, next)).bold,
        next.dim && !next.bold ==> apply_ops(prev, color_ops(prev, next) + attribute_ops(prev, next)).dim,
        !next.bold && !next.dim ==> !apply_ops(prev, color_ops(prev, next) + attribute_ops(prev, next)).bold
            && !apply_ops(prev, color_ops(prev, next) + attribute_ops(prev, next)).dim,
{
    let c = color_ops(prev, next);
    let a = attribute_ops(prev, next);
    lemma_apply_concat(prev, c, a);
    lemma_color_ops(prev, next);
    let mid = apply_ops(prev, c);
    lemma_attribute_ops(mid, prev, next);
}

/// The color commands set exactly `next`'s colors.
proof fn lemma_color_ops(prev: Style, next: Style)
    ensures
        apply_ops(prev, color_ops(prev, next)) == (Style { fg: next.fg, bg: next.bg, ..prev }),
{
    let fg_changed = prev.fg != next.fg;
    let bg_changed = prev.bg != next.bg;
    let f: Seq<StyleOp> = match next.fg { Some(x) => seq![StyleOp::SetForeground(x)], None => Seq::empty() };
    let b: Seq<StyleOp> = match next.bg { Some(x) => seq![StyleOp::SetBackground(x)], None => Seq::empty() };
    if (fg_changed && next.fg is None) || (bg_changed && next.bg is None) {
        lemma_apply_concat(prev, seq![StyleOp::ResetColor] + f, b);
        lemma_apply_concat(prev, seq![StyleOp::ResetColor], f);
        lemma_apply_one(prev, StyleOp::ResetColor);
        let t1 = apply_op(prev, StyleOp::ResetColor);
        lemma_apply_opt(t1, f);
        lemma_apply_opt(apply_ops(t1, f), b);
    } else {
        let f2: Seq<StyleOp> = if fg_changed { f } else { Seq::empty() };
        let b2: Seq<StyleOp> = if bg_changed { b } else { Seq::empty() };
        lemma_apply_concat(prev, f2, b2);
        lemma_apply_opt(prev, f2);
        lemma_apply_opt(apply_ops(prev, f2), b2);
    }
}

/// The attribute commands, applied after the colors.
#[verifier::spinoff_prover]
#[verifier::rlimit(60)]
proof fn lemma_attribute_ops(mid: Style, prev: Style, next: Style)
    requires
        mid == (Style { fg: next.fg, bg: next.bg, ..prev }),
    ensures
        apply_ops(mid, attribute_ops(prev, next)).fg == next.fg,
        apply_ops(mid, attribute_ops(prev, next)).bg == next.bg,
        apply_ops(mid, attribute_ops(prev, next)).italic == next.italic,
        apply_ops(mid, attribute_ops(prev, next)).underline == next.underline,
        apply_ops(mid, attribute_ops(prev, next)).reverse == next.reverse,
        apply_ops(mid, attribute_ops(prev, next)).strike == next.strike,
        next.bold ==> apply_ops(mid, attribute_ops(prev, next)).bold,
        next.dim && !next.bold ==> apply_ops(mid, attribute_ops(prev, next)).dim,
        !next.bold && !next.dim ==> !apply_ops(mid, attribute_ops(prev, next)).bold
            && !apply_ops(mid, attribute_ops(prev, next)).dim,
{
    let i = intensity_ops(prev, next);
    let it = italic_ops(prev, next);
    let u = underline_ops(prev, next);
    let r = reverse_ops(prev, next);
    let st = strike_ops(prev, next);
    lemma_apply_concat(mid, i + it + u + r, st);
    lemma_apply_concat(mid, i + it + u, r);
    lemma_apply_concat(mid, i + it, u);
    lemma_apply_concat(mid, i, it);
    lemma_apply_opt(mid, i);
    let t1 = apply_ops(mid, i);
    assert(t1.fg == next.fg && t1.bg == next.bg && t1.italic == prev.italic && t1.underline == prev.underline);
    assert(t1.reverse == prev.reverse && t1.strike == prev.strike);
    assert(next.bold ==> t1.bold);
    assert(next.dim && !next.bold ==> t1.dim);
    assert(!next.bold && !next.dim ==> !t1.bold && !t1.dim);
    lemma_apply_opt(t1, it);
    let t2 = apply_ops(t1, it);
    assert(t2 == Style { italic: next.italic, ..t1 });
    lemma_apply_opt(t2, u);
    let t3 = apply_ops(t2, u);
    assert(t3 == Style { underline: next.underline, ..t2 });
    lemma_apply_opt(t3, r);
    let t4 = apply_ops(t3, r);
    assert(t4 == Style { reverse: next.reverse, ..t3 });
    lemma_apply_opt(t4, st);
    let t5 = apply_ops(t4, st);
    assert(t5 == Style { strike: next.strike, ..t4 });
}

/// Appending five runs one after another appends their concatenation.
proof fn lemma_concat_assoc5(s: Seq<StyleOp>, a: Seq<StyleOp>, b: Seq<StyleOp>, c: Seq<StyleOp>, d: Seq<StyleOp>, e: Seq<StyleOp>)
    ensures
        s + a + b + c + d + e == s + (a + b + c + d + e),
{
    assert(s + a + b + c + d + e =~= s + (a + b + c + d + e));
}

/// One command.
proof fn lemma_apply_one(t: Style, op: StyleOp)
    ensures
        apply_ops(t, seq![op]) == apply_op(t, op),
{
    assert(seq![op].drop_last() =~= Seq::<StyleOp>::empty());
    assert(apply_ops(t, Seq::<StyleOp>::empty()) == t);
}

/// No command or one command.
proof fn lemma_apply_opt(t: Style, s: Seq<StyleOp>)
    requires
        s.len() <= 1,
    ensures
        apply_ops(t, s) == (if s.len() == 0 { t } else { apply_op(t, s[0]) }),
{
    if s.len() == 1 {
        assert(s.drop_last() =~= Seq::<StyleOp>::empty());
        assert(apply_ops(t, Seq::<StyleOp>::empty()) == t);
    }
}

/// Applying two runs of commands is applying the first, then the second.
proof fn lemma_apply_concat(t: Style, a: Seq<StyleOp>, b: Seq<StyleOp>)
    ensures
        apply_ops(t, a + b) == apply_ops(apply_ops(t, a), b),
    decreases b.len(),
{
    if b.len() == 0 {
        assert(a + b =~= a);
    } else {
        lemma_apply_concat(t, a, b.drop_last());
        assert((a + b).drop_last() =~= a + b.drop_last());
        assert((a + b).last() == b.last());
    }
}

// ---------------------------------------------------------------------------
// Hyperlinks.
// ---------------------------------------------------------------------------

/// The OSC 8 sequence that ends a hyperlink.
pub open spec fn link_close() -> Seq<u8> {
    seq![0x1bu8, 0x5du8, 0x38u8, 0x3bu8, 0x3bu8, 0x1bu8, 0x5cu8]
}

/// The OSC 8 sequence that opens a hyperlink to `uri`.
pub open spec fn link_open(uri: Seq<char>) -> Seq<u8> {
    seq![0x1bu8, 0x5du8, 0x38u8, 0x3bu8, 0x3bu8] + vstd::utf8::encode_utf8(uri) + seq![0x1bu8, 0x5cu8]
}

/// The bytes that switch from the hyperlink `prev` to `next`: nothing when
/// they are the same; else close the old one, then open the new one.
pub open spec fn link_switch(prev: Option<Seq<char>>, next: Option<Seq<char>>) -> Seq<u8> {
    if prev == next {
        Seq::empty()
    } else {
        (if prev is Some { link_close() } else { Seq::empty() })
            + (match next { Some(u) => link_open(u), None => Seq::empty() })
    }
}

/// The view of an optional string.
pub open spec fn opt_view(s: Option<String>) -> Option<Seq<char>> {
    match s {
        Some(x) => Some(x@),
        None => None,
    }
}

/// Bytes that switch the terminal from the hyperlink `prev` to `next`.
pub fn hyperlink_diff(prev: &Option<String>, next: &Option<String>) -> (b: Vec<u8>)
    ensures
        b@ == link_switch(opt_view(*prev), opt_view(*next)),
{
    let same = match (prev, next) {
        (None, None) => true,
        (Some(a), Some(c)) => {
            let av = chars_of(a.as_str());
            crate::text::eq_lit(av.as_slice(), c.as_str())
        },
        _ => false,
    };
    let mut out: Vec<u8> = Vec::new();
    if same {
        assert(opt_view(*prev) == opt_view(*next));
        return out;
    }
    if prev.is_some() {
        out.push(0x1b);
        out.push(0x5d);
        out.push(0x38);
        out.push(0x3b);
        out.push(0x3b);
        out.push(0x1b);
        out.push(0x5c);
    }
    let ghost closed = out@;
    assert(closed =~= (if prev is Some { link_close() } else { Seq::<u8>::empty() }));
    if let Some(uri) = next {
        out.push(0x1b);
        out.push(0x5d);
        out.push(0x38);
        out.push(0x3b);
        out.push(0x3b);
        let bytes = uri.as_str().as_bytes();
        let mut i: usize = 0;
        let ghost head = out@;
        while i < bytes.len()
            invariant
                i <= bytes@.len(),
                out@ == head + bytes@.take(i as int),
            decreases bytes@.len() - i,
        {
            out.push(bytes[i]);
            i = i + 1;
            assert(out@ =~= head + bytes@.take(i as int));
        }
        assert(bytes@.take(bytes@.len() as int) =~= bytes@);
        out.push(0x1b);
        out.push(0x5c);
        assert(out@ =~= closed + link_open(uri@));
    } else {
        assert(out@ =~= closed + Seq::<u8>::empty());
    }
    out
}

// ---------------------------------------------------------------------------
// The status row.
// ---------------------------------------------------------------------------

/// The display width of `c` as `unicode_width` reports it (`None` for a
/// control character).
pub uninterp spec fn unicode_char_width(c: char) -> Option<usize>;

/// `unicode_width::UnicodeWidthChar::width`. Besides naming the result,
/// claims what its source shows: printable ASCII is one column, other
/// characters below U+00A0 are control characters, the rest have a width.
#[verifier::external_body]
fn char_width(c: char) -> (w: Option<usize>)
    ensures
        w == unicode_char_width(c),
        0x20 <= c as u32 && (c as u32) < 0x7f ==> w == Some(1usize),
        (c as u32) < 0x20 || (0x7f <= c as u32 && (c as u32) < 0xa0) ==> w is None,
        0xa0 <= c as u32 ==> w is Some,
{
    unicode_width::UnicodeWidthChar::width(c)
}

/// Columns a character takes in the status row (control characters none).
pub open spec fn status_width(c: char) -> int {
    match unicode_char_width(c) {
        Some(w) => w as int,
        None => 0,
    }
}

/// How many leading characters of `cs` fit in `cols` columns, from
/// character `i` with `w` columns used, and the columns they take.
pub open spec fn fit_count(cs: Seq<char>, i: int, w: int, cols: int) -> (int, int)
    decreases cs.len() - i,
{
    if i < 0 || i >= cs.len() || w + status_width(cs[i]) > cols {
        (i, w)
    } else {
        fit_count(cs, i + 1, w + status_width(cs[i]), cols)
    }
}

/// `s` cut at the column limit on a character boundary, then padded with
/// spaces to exactly `cols` columns.
pub open spec fn fitted(cs: Seq<char>, cols: int) -> Seq<char> {
    let (k, w) = fit_count(cs, 0, 0, cols);
    cs.take(k) + Seq::new((cols - w) as nat, |i: int| ' ')
}

/// Fit the status text to exactly `cols` display columns, so that the row
/// can be overwritten in place by one full-width write.
pub fn fit_status_to_cols(s: &str, cols: usize) -> (r: String)
    ensures
        r@ == fitted(s@, cols as int),
{
    let cs = chars_of(s);
    let mut out: Vec<char> = Vec::new();
    let mut w: usize = 0;
    let mut i: usize = 0;
    let mut full = false;
    while i < cs.len() && !full
        invariant
            i <= cs@.len(),
            cs@ == s@,
            w <= cols,
            out@ == cs@.take(i as int),
            fit_count(cs@, 0, 0, cols as int) == fit_count(cs@, i as int, w as int, cols as int),
            full ==> i < cs@.len() && w + status_width(cs@[i as int]) > cols,
        decreases cs@.len() - i + (if full { 0int } else { 1int }),
    {
        let c = cs[i];
        let cw = match char_width(c) {
            Some(x) => x,
            None => 0,
        };
        if cw > cols - w {
            full = true;
        } else {
            out.push(c);
            w = w + cw;
            i = i + 1;
            assert(out@ =~= cs@.take(i as int));
        }
    }
    let ghost kept = out@;
    assert(fit_count(cs@, 0, 0, cols as int) == (i as int, w as int));
    let mut k = w;
    while k < cols
        invariant
            w <= k <= cols,
            out@ == kept + Seq::new((k - w) as nat, |j: int| ' '),
        decreases cols - k,
    {
        out.push(' ');
        k = k + 1;
        assert(out@ =~= kept + Seq::new((k - w) as nat, |j: int| ' '));
    }
    string_of(out.as_slice())
}

} // verus!
