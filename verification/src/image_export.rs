//! A rendered ASCII-art cell grid as text: truecolor-SGR colored rows, or
//! plain characters when color is off.

use vstd::prelude::*;
use crate::ansi::Color;
use crate::render::Cell;
use crate::text::{decimal_chars, decimal_of, push_chars, push_str, utf8_of};

verus! {

/// `ESC [ lead ; r ; g ; b m`: a truecolor SGR.
pub open spec fn rgb_sgr(lead: Seq<char>, r: u8, g: u8, b: u8) -> Seq<char> {
    "\x1b["@ + lead + ";2;"@ + decimal_of(r as nat) + ";"@ + decimal_of(g as nat) + ";"@ + decimal_of(b as nat) + "m"@
}

/// The SGR for a color when it is a truecolor one.
pub open spec fn rgb_color_sgr(lead: Seq<char>, c: Option<Color>) -> Seq<char> {
    match c {
        Some(Color::Rgb(r, g, b)) => rgb_sgr(lead, r, g, b),
        _ => seq![],
    }
}

/// A cell as text: its colors first when `color` is on, then the glyph; a
/// continuation cell is nothing and an empty cell a space.
pub open spec fn cell_text(c: Cell, color: bool) -> Seq<char> {
    match c {
        Cell::Char { ch, style, .. } => (if color {
            rgb_color_sgr("38"@, style.fg) + rgb_color_sgr("48"@, style.bg)
        } else {
            seq![]
        }) + seq![ch],
        Cell::Continuation => seq![],
        Cell::Empty => seq![' '],
    }
}

pub open spec fn row_text(row: Seq<Cell>, color: bool) -> Seq<char>
    decreases row.len(),
{
    if row.len() == 0 { seq![] } else { row_text(row.drop_last(), color) + cell_text(row.last(), color) }
}

/// The grid as text: one line per row, with a reset before each newline
/// when colored.
pub open spec fn grid_text(grid: Seq<Vec<Cell>>, color: bool) -> Seq<char>
    decreases grid.len(),
{
    if grid.len() == 0 {
        seq![]
    } else {
        grid_text(grid.drop_last(), color) + row_text(grid.last()@, color)
            + (if color { "\x1b[0m"@ } else { seq![] }) + seq!['\n']
    }
}

fn push_rgb_sgr(out: &mut Vec<char>, lead: &str, c: Option<Color>)
    ensures
        final(out)@ == old(out)@ + rgb_color_sgr(lead@, c),
{
    if let Some(Color::Rgb(r, g, b)) = c {
        let ghost o = out@;
        push_str(out, "\x1b[");
        push_str(out, lead);
        push_str(out, ";2;");
        let d = decimal_chars(r as u64);
        push_chars(out, d.as_slice());
        push_str(out, ";");
        let d = decimal_chars(g as u64);
        push_chars(out, d.as_slice());
        push_str(out, ";");
        let d = decimal_chars(b as u64);
        push_chars(out, d.as_slice());
        push_str(out, "m");
        assert(out@ =~= o + rgb_sgr(lead@, r, g, b));
    } else {
        assert(out@ + seq![] =~= out@);
    }
}

fn push_cell(out: &mut Vec<char>, c: &Cell, color: bool)
    ensures
        final(out)@ == old(out)@ + cell_text(*c, color),
{
    let ghost o = out@;
    match c {
        Cell::Char { ch, style, .. } => {
            if color {
                push_rgb_sgr(out, "38", style.fg);
                push_rgb_sgr(out, "48", style.bg);
            }
            out.push(*ch);
            assert(out@ =~= o + cell_text(*c, color));
        },
        Cell::Continuation => {
            assert(out@ =~= o + cell_text(*c, color));
        },
        Cell::Empty => {
            out.push(' ');
            assert(out@ =~= o + cell_text(*c, color));
        },
    }
}

/// The text of a grid: one line per row; with `color`, truecolor SGR for
/// each cell's foreground and (for half-block cells) background, and a
/// reset before each newline.
pub fn grid_chars(grid: &[Vec<Cell>], color: bool) -> (t: Vec<char>)
    ensures
        t@ == grid_text(grid@, color),
{
    let mut out: Vec<char> = Vec::new();
    let mut i: usize = 0;
    assert(grid@.take(0) =~= seq![]);
    while i < grid.len()
        invariant
            i <= grid@.len(),
            out@ == grid_text(grid@.take(i as int), color),
        decreases grid@.len() - i,
    {
        let ghost before = out@;
        let row = &grid[i];
        let mut j: usize = 0;
        assert(row@.take(0) =~= seq![]);
        assert(out@ =~= before + row_text(row@.take(0), color));
        while j < row.len()
            invariant
                j <= row@.len(),
                out@ == before + row_text(row@.take(j as int), color),
            decreases row@.len() - j,
        {
            push_cell(&mut out, &row[j], color);
            assert(row@.take(j + 1).drop_last() =~= row@.take(j as int));
            j = j + 1;
        }
        assert(row@.take(row@.len() as int) =~= row@);
        let ghost mid = out@;
        if color {
            push_str(&mut out, "\x1b[0m");
        }
        out.push('\n');
        assert(grid@.take(i + 1).drop_last() =~= grid@.take(i as int));
        assert(out@ =~= mid + (if color { "\x1b[0m"@ } else { seq![] }) + seq!['\n']);
        i = i + 1;
    }
    assert(grid@.take(grid@.len() as int) =~= grid@);
    out
}

/// Write `grid` to `out` as UTF-8 text (see `grid_chars`).
pub fn write_grid(out: &mut Vec<u8>, grid: &[Vec<Cell>], color: bool)
    ensures
        final(out)@ == old(out)@ + vstd::utf8::encode_utf8(grid_text(grid@, color)),
{
    let t = grid_chars(grid, color);
    let mut b = utf8_of(t.as_slice());
    out.append(&mut b);
}

} // verus!
