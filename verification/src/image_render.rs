//! Image to ASCII-art: an RGBA raster is cut into blocks, one per cell,
//! and each block's alpha-weighted average color picks a glyph (and a
//! color). Also the byte-level probes on image files that decoding does
//! not expose.

use image::AnimationDecoder;
use vstd::prelude::*;
use crate::ansi::{plain_style, Color, Style};
use crate::render::Cell;

verus! {

// ---------------------------------------------------------------------------
// The raster.
// ---------------------------------------------------------------------------

/// An RGBA8 raster: `width × height` pixels of 4 bytes (red, green, blue,
/// alpha), row by row.
#[derive(Debug, Clone)]
pub struct RgbaImage {
    pub width: u32,
    pub height: u32,
    pub data: Vec<u8>,
}

impl RgbaImage {
    /// The buffer holds exactly the pixels.
    pub open spec fn wf(&self) -> bool {
        self.data@.len() == self.width as int * self.height as int * 4
    }

    /// Channel `c` of pixel (`x`, `y`).
    pub open spec fn channel(&self, x: int, y: int, c: int) -> u8 {
        self.data@[(y * self.width + x) * 4 + c]
    }

    /// An all-zero (transparent black) image.
    pub fn new(width: u32, height: u32) -> (img: Self)
        requires
            width as int * height as int * 4 <= usize::MAX,
        ensures
            img.wf(),
            img.width == width,
            img.height == height,
            forall|i: int| 0 <= i < img.data@.len() ==> #[trigger] img.data@[i] == 0,
    {
        let n = pixel_bytes(width, height);
        let data = vec![0u8; n];
        RgbaImage { width, height, data }
    }

    /// An image with every pixel `px`.
    pub fn from_pixel(width: u32, height: u32, px: [u8; 4]) -> (img: Self)
        requires
            width as int * height as int * 4 <= usize::MAX,
        ensures
            img.wf(),
            img.width == width,
            img.height == height,
            forall|i: int| 0 <= i < img.data@.len() ==> #[trigger] img.data@[i] == px@[i % 4],
    {
        let n = pixel_bytes(width, height);
        let mut data: Vec<u8> = Vec::new();
        let mut i: usize = 0;
        while i < n
            invariant
                i <= n,
                data@.len() == i,
                forall|j: int| 0 <= j < i ==> #[trigger] data@[j] == px@[j % 4],
            decreases n - i,
        {
            data.push(px[i % 4]);
            i = i + 1;
        }
        RgbaImage { width, height, data }
    }

    /// Width and height, in pixels.
    pub fn dimensions(&self) -> (d: (u32, u32))
        ensures
            d == (self.width, self.height),
    {
        (self.width, self.height)
    }

    /// The pixel bytes, row by row.
    pub fn as_raw(&self) -> (b: &[u8])
        ensures
            b@ == self.data@,
    {
        self.data.as_slice()
    }

    /// The four channels of pixel (`x`, `y`).
    pub fn get_pixel(&self, x: u32, y: u32) -> (px: [u8; 4])
        requires
            self.wf(),
            x < self.width,
            y < self.height,
        ensures
            forall|c: int| 0 <= c < 4 ==> #[trigger] px@[c] == self.channel(x as int, y as int, c),
    {
        assert(self.data@.len() == self.data.len());
        let b = pixel_base(self.width, self.height, x, y);
        [self.data[b], self.data[b + 1], self.data[b + 2], self.data[b + 3]]
    }

    /// Set pixel (`x`, `y`) to `px`.
    pub fn put_pixel(&mut self, x: u32, y: u32, px: [u8; 4])
        requires
            old(self).wf(),
            x < old(self).width,
            y < old(self).height,
        ensures
            final(self).wf(),
            final(self).width == old(self).width,
            final(self).height == old(self).height,
            forall|c: int| 0 <= c < 4 ==> #[trigger] final(self).channel(x as int, y as int, c) == px@[c],
            forall|i: int| 0 <= i < final(self).data@.len() && !((y * old(self).width + x) * 4 <= i < (y * old(self).width + x) * 4 + 4)
                ==> #[trigger] final(self).data@[i] == old(self).data@[i],
    {
        assert(self.data@.len() == self.data.len());
        let b = pixel_base(self.width, self.height, x, y);
        self.data.set(b, px[0]);
        self.data.set(b + 1, px[1]);
        self.data.set(b + 2, px[2]);
        self.data.set(b + 3, px[3]);
    }
}

fn pixel_bytes(width: u32, height: u32) -> (n: usize)
    requires
        width as int * height as int * 4 <= usize::MAX,
    ensures
        n == width as int * height as int * 4,
{
    let w = width as usize;
    let h = height as usize;
    assert(w * h <= usize::MAX) by (nonlinear_arith)
        requires
            w as int * h as int * 4 <= usize::MAX,
    ;
    w * h * 4
}

proof fn lemma_pixel_index(w: int, h: int, x: int, y: int)
    requires
        0 <= x < w,
        0 <= y < h,
    ensures
        0 <= (y * w + x) * 4,
        (y * w + x) * 4 + 4 <= w * h * 4,
        y * w + x < w * h,
{
    assert(y * w + x < w * h) by (nonlinear_arith)
        requires
            0 <= x < w,
            0 <= y < h,
    ;
    assert(0 <= y * w) by (nonlinear_arith)
        requires
            0 <= y,
            0 <= w,
    ;
}

/// Index of the first byte of pixel (`x`, `y`).
fn pixel_base(width: u32, height: u32, x: u32, y: u32) -> (b: usize)
    requires
        x < width,
        y < height,
        width as int * height as int * 4 <= usize::MAX,
    ensures
        b == (y as int * width as int + x as int) * 4,
        b + 4 <= width as int * height as int * 4,
{
    proof {
        lemma_pixel_index(width as int, height as int, x as int, y as int);
    }
    let w = width as usize;
    let row = (y as usize) * w;
    (row + x as usize) * 4
}

// ---------------------------------------------------------------------------
// Block averages.
// ---------------------------------------------------------------------------

/// What pixel (`x`, `y`) adds to sum `c`: its color channel weighted by
/// its alpha for `c` < 3, its alpha for `c` = 3.
pub open spec fn weight(img: RgbaImage, x: int, y: int, c: int) -> int {
    if c == 3 {
        img.channel(x, y, 3) as int
    } else {
        img.channel(x, y, c) as int * img.channel(x, y, 3) as int
    }
}

/// Sum `c` over pixels `x0..x1` of row `y`.
pub open spec fn row_sum(img: RgbaImage, y: int, x0: int, x1: int, c: int) -> int
    decreases x1 - x0,
{
    if x1 <= x0 { 0 } else { row_sum(img, y, x0, x1 - 1, c) + weight(img, x1 - 1, y, c) }
}

/// Sum `c` over rows `y0..y1`, columns `x0..x1`.
pub open spec fn block_sum(img: RgbaImage, x0: int, x1: int, y0: int, y1: int, c: int) -> int
    decreases y1 - y0,
{
    if y1 <= y0 { 0 } else { block_sum(img, x0, x1, y0, y1 - 1, c) + row_sum(img, y1 - 1, x0, x1, c) }
}

pub open spec fn min_int(a: int, b: int) -> int {
    if a <= b { a } else { b }
}

/// Alpha-weighted average color of the `w × h` block at (`x0`, `y0`),
/// clipped to the image; transparent pixels count proportionally less,
/// and a fully transparent (or empty) block is black.
pub open spec fn block_average(img: RgbaImage, x0: int, y0: int, w: int, h: int) -> (u8, u8, u8) {
    let x1 = min_int(x0 + w, img.width as int);
    let y1 = min_int(y0 + h, img.height as int);
    let a = block_sum(img, x0, x1, y0, y1, 3);
    if a == 0 {
        (0u8, 0u8, 0u8)
    } else {
        (
            (block_sum(img, x0, x1, y0, y1, 0) / a) as u8,
            (block_sum(img, x0, x1, y0, y1, 1) / a) as u8,
            (block_sum(img, x0, x1, y0, y1, 2) / a) as u8,
        )
    }
}

proof fn lemma_weight_bounds(img: RgbaImage, x: int, y: int, c: int)
    requires
        0 <= c < 3,
    ensures
        0 <= weight(img, x, y, c) <= 255 * weight(img, x, y, 3),
        0 <= weight(img, x, y, 3) <= 255,
{
    let p = img.channel(x, y, c) as int;
    let a = img.channel(x, y, 3) as int;
    assert(0 <= p * a <= 255 * a) by (nonlinear_arith)
        requires
            0 <= p <= 255,
            0 <= a <= 255,
    ;
}

/// Sums of one row: the three weighted channels and the alpha.
fn row_sums(img: &RgbaImage, y: u32, x0: u32, x1: u32) -> (s: (u128, u128, u128, u128))
    requires
        img.wf(),
        y < img.height,
        x0 < x1 <= img.width,
    ensures
        s.0 == row_sum(*img, y as int, x0 as int, x1 as int, 0),
        s.1 == row_sum(*img, y as int, x0 as int, x1 as int, 1),
        s.2 == row_sum(*img, y as int, x0 as int, x1 as int, 2),
        s.3 == row_sum(*img, y as int, x0 as int, x1 as int, 3),
        s.0 <= 255 * s.3,
        s.1 <= 255 * s.3,
        s.2 <= 255 * s.3,
        s.3 <= 255 * 0x1_0000_0000,
{
    let (mut r, mut g, mut b, mut a) = (0u128, 0u128, 0u128, 0u128);
    let mut x = x0;
    while x < x1
        invariant
            img.wf(),
            y < img.height,
            x0 <= x <= x1 <= img.width,
            r == row_sum(*img, y as int, x0 as int, x as int, 0),
            g == row_sum(*img, y as int, x0 as int, x as int, 1),
            b == row_sum(*img, y as int, x0 as int, x as int, 2),
            a == row_sum(*img, y as int, x0 as int, x as int, 3),
            r <= 255 * a,
            g <= 255 * a,
            b <= 255 * a,
            a <= 255 * (x - x0),
        decreases x1 - x,
    {
        let px = img.get_pixel(x, y);
        proof {
            lemma_weight_bounds(*img, x as int, y as int, 0);
            lemma_weight_bounds(*img, x as int, y as int, 1);
            lemma_weight_bounds(*img, x as int, y as int, 2);
            assert(px@[0] == img.channel(x as int, y as int, 0));
            assert(px@[1] == img.channel(x as int, y as int, 1));
            assert(px@[2] == img.channel(x as int, y as int, 2));
            assert(px@[3] == img.channel(x as int, y as int, 3));
        }
        let al = px[3] as u128;
        r = r + px[0] as u128 * al;
        g = g + px[1] as u128 * al;
        b = b + px[2] as u128 * al;
        a = a + al;
        x = x + 1;
    }
    (r, g, b, a)
}

/// Alpha-weighted average color of a block, clipped to the image.
fn average_block(img: &RgbaImage, x0: u64, y0: u64, w: u64, h: u64) -> (rgb: (u8, u8, u8))
    requires
        img.wf(),
    ensures
        rgb == block_average(*img, x0 as int, y0 as int, w as int, h as int),
{
    let iw = img.width as u64;
    let ih = img.height as u64;
    let xe = x0 as u128 + w as u128;
    let ye = y0 as u128 + h as u128;
    let x1 = if xe <= iw as u128 { xe as u64 } else { iw };
    let y1 = if ye <= ih as u128 { ye as u64 } else { ih };
    let ghost gx1 = min_int(x0 + w, img.width as int);
    let ghost gy1 = min_int(y0 + h, img.height as int);
    assert(x1 == gx1 && y1 == gy1);
    if x1 <= x0 || y1 <= y0 {
        proof {
            lemma_block_empty(*img, x0 as int, x1 as int, y0 as int, y1 as int, 3);
        }
        return (0, 0, 0);
    }
    let (mut r, mut g, mut b, mut a) = (0u128, 0u128, 0u128, 0u128);
    let mut y = y0;
    while y < y1
        invariant
            img.wf(),
            x0 < x1 <= img.width,
            y0 <= y <= y1 <= img.height,
            r == block_sum(*img, x0 as int, x1 as int, y0 as int, y as int, 0),
            g == block_sum(*img, x0 as int, x1 as int, y0 as int, y as int, 1),
            b == block_sum(*img, x0 as int, x1 as int, y0 as int, y as int, 2),
            a == block_sum(*img, x0 as int, x1 as int, y0 as int, y as int, 3),
            r <= 255 * a,
            g <= 255 * a,
            b <= 255 * a,
            a <= 0xff_0000_0000 * (y - y0),
        decreases y1 - y,
    {
        let s = row_sums(img, y as u32, x0 as u32, x1 as u32);
        assert(a + s.3 <= 0xff_0000_0000 * (y + 1 - y0));
        assert(y - y0 <= 0xffff_ffff);
        assert(a + s.3 <= 0xff_0000_0000 * 0x1_0000_0000);
        r = r + s.0;
        g = g + s.1;
        b = b + s.2;
        a = a + s.3;
        y = y + 1;
    }
    if a == 0 {
        return (0, 0, 0);
    }
    proof {
        lemma_div_bound(r as int, a as int);
        lemma_div_bound(g as int, a as int);
        lemma_div_bound(b as int, a as int);
    }
    ((r / a) as u8, (g / a) as u8, (b / a) as u8)
}

/// An empty block sums to nothing.
proof fn lemma_block_empty(img: RgbaImage, x0: int, x1: int, y0: int, y1: int, c: int)
    requires
        x1 <= x0 || y1 <= y0,
    ensures
        block_sum(img, x0, x1, y0, y1, c) == 0,
    decreases y1 - y0,
{
    if y1 > y0 {
        lemma_block_empty(img, x0, x1, y0, y1 - 1, c);
        assert(row_sum(img, y1 - 1, x0, x1, c) == 0);
    }
}

proof fn lemma_div_bound(v: int, a: int)
    requires
        0 <= v <= 255 * a,
        a > 0,
    ensures
        0 <= v / a <= 255,
{
    assert(v / a <= 255) by (nonlinear_arith)
        requires
            0 <= v <= 255 * a,
            a > 0,
    ;
    assert(0 <= v / a) by (nonlinear_arith)
        requires
            0 <= v,
            a > 0,
    ;
}

// ---------------------------------------------------------------------------
// Glyphs.
// ---------------------------------------------------------------------------

/// Rendering aesthetic.
#[derive(Debug, Clone, Copy, PartialEq, Eq, Structural)]
pub enum AsciiStyle {
    /// Luminance → character ramp, one source block per cell.
    Ramp,
    /// Unicode half-block (▀): fg = top sub-block, bg = bottom sub-block.
    Blocks,
}

/// Luminance ramp, darkest → brightest.
pub open spec fn ramp() -> Seq<char> {
    seq![' ', '.', ':', '-', '=', '+', '*', '#', '%', '@']
}

/// Block shades for `--blocks` without color, darkest → brightest.
pub open spec fn block_shades() -> Seq<char> {
    seq![' ', '\u{2591}', '\u{2592}', '\u{2593}', '\u{2588}']
}

/// Terminal cells are about twice as tall as wide.
pub const CELL_ASPECT: u32 = 2;

/// Luminance of an RGB pixel (BT.601), 0..=255.
pub open spec fn luminance_of(r: u8, g: u8, b: u8) -> u8 {
    ((77 * r + 150 * g + 29 * b) / 256) as u8
}

fn luminance(r: u8, g: u8, b: u8) -> (l: u8)
    ensures
        l == luminance_of(r, g, b),
{
    let v = 77 * (r as u32) + 150 * (g as u32) + 29 * (b as u32);
    (v / 256) as u8
}

fn ramp_char(lum: u8) -> (c: char)
    ensures
        c == ramp()[(lum as int * 9) / 255],
{
    let idx = (lum as usize * 9) / 255;
    let r = ['\u{20}', '.', ':', '-', '=', '+', '*', '#', '%', '@'];
    assert(r@ =~= ramp());
    r[idx]
}

fn block_shade_char(lum: u8) -> (c: char)
    ensures
        c == block_shades()[(lum as int * 4) / 255],
{
    let idx = (lum as usize * 4) / 255;
    let r = ['\u{20}', '\u{2591}', '\u{2592}', '\u{2593}', '\u{2588}'];
    assert(r@ =~= block_shades());
    r[idx]
}

/// A one-column glyph with an optional foreground.
pub open spec fn glyph(ch: char, fg: Option<Color>) -> Cell {
    Cell::Char { ch, width: 1, style: Style { fg, bg: None, ..plain_style() }, hyperlink: None }
}

fn cell_char(ch: char, fg: Option<Color>) -> (c: Cell)
    ensures
        c == glyph(ch, fg),
{
    Cell::Char { ch, width: 1, style: Style { fg, ..Style::default() }, hyperlink: None }
}

// ---------------------------------------------------------------------------
// Geometry.
// ---------------------------------------------------------------------------

pub open spec fn div_ceil(a: int, b: int) -> int {
    if a % b == 0 { a / b } else { a / b + 1 }
}

pub open spec fn max_int(a: int, b: int) -> int {
    if a >= b { a } else { b }
}

/// Source pixels across one cell.
pub open spec fn px_per_col(img_w: u32, cols: u16) -> int {
    max_int(div_ceil(max_int(img_w as int, 1), max_int(cols as int, 1)), 1)
}

/// Source pixel rows collapsed into one cell row.
pub open spec fn rows_per_cell(style: AsciiStyle, ppc: int) -> int {
    match style {
        AsciiStyle::Ramp => max_int(ppc * 2, 1),
        AsciiStyle::Blocks => max_int(ppc * 2, 2),
    }
}

/// Cell rows an image of the given size renders to at `cols` columns.
pub open spec fn rows_for(img_w: u32, img_h: u32, cols: u16, style: AsciiStyle) -> int {
    max_int(div_ceil(img_h as int, rows_per_cell(style, px_per_col(img_w, cols))), 1)
}

fn div_ceil_u32(a: u32, b: u32) -> (q: u32)
    requires
        b > 0,
    ensures
        q == div_ceil(a as int, b as int),
{
    proof {
        assert(a / b <= a) by (nonlinear_arith)
            requires
                b > 0,
        ;
        if a % b != 0 {
            assert(a / b < a) by (nonlinear_arith)
                requires
                    b > 0,
                    a % b != 0,
            ;
        }
    }
    if a % b == 0 { a / b } else { a / b + 1 }
}

fn cols_px(img_w: u32, cols: u16) -> (p: u32)
    ensures
        p == px_per_col(img_w, cols),
        p >= 1,
{
    let c: u32 = if cols == 0 { 1 } else { cols as u32 };
    let w: u32 = if img_w == 0 { 1 } else { img_w };
    let q = div_ceil_u32(w, c);
    if q == 0 { 1 } else { q }
}

/// Number of source-pixel rows collapsed into one cell row for `style`.
fn pixels_per_cell_row(style: AsciiStyle, px_per_col: u32) -> (r: u32)
    requires
        px_per_col as int * 2 <= u32::MAX,
    ensures
        r == rows_per_cell(style, px_per_col as int),
{
    match style {
        AsciiStyle::Ramp => {
            let v = px_per_col * CELL_ASPECT;
            if v < 1 { 1 } else { v }
        },
        AsciiStyle::Blocks => {
            let v = px_per_col * CELL_ASPECT;
            if v < 2 { 2 } else { v }
        },
    }
}

/// How many cell rows `render_image` produces for an image of the given
/// pixel size at `cols` columns.
pub fn output_rows(img_w: u32, img_h: u32, cols: u16, style: AsciiStyle) -> (rows: usize)
    requires
        px_per_col(img_w, cols) * 2 <= u32::MAX,
    ensures
        rows == rows_for(img_w, img_h, cols, style),
{
    let ppc = cols_px(img_w, cols);
    let ppr = pixels_per_cell_row(style, ppc);
    let q = div_ceil_u32(img_h, ppr);
    let r = if q == 0 { 1 } else { q };
    r as usize
}

// ---------------------------------------------------------------------------
// Rendering.
// ---------------------------------------------------------------------------

/// The cell at row `ry`, column `cx` in ramp style.
pub open spec fn ramp_cell(img: RgbaImage, ppc: int, ppr: int, ry: int, cx: int, color: bool) -> Cell {
    let (r, g, b) = block_average(img, cx * ppc, ry * ppr, ppc, ppr);
    glyph(ramp()[(luminance_of(r, g, b) as int * 9) / 255], if color { Some(Color::Rgb(r, g, b)) } else { None })
}

/// The cell at row `ry`, column `cx` in half-block style: the top half's
/// color in front, the bottom half's behind; without color, a shade of the
/// two halves' mean luminance.
pub open spec fn block_cell(img: RgbaImage, ppc: int, ppr: int, ry: int, cx: int, color: bool) -> Cell {
    let half = max_int(ppr / 2, 1);
    let (tr, tg, tb) = block_average(img, cx * ppc, ry * ppr, ppc, half);
    let (br, bg, bb) = block_average(img, cx * ppc, ry * ppr + half, ppc, half);
    if color {
        Cell::Char {
            ch: '\u{2580}',
            width: 1,
            style: Style { fg: Some(Color::Rgb(tr, tg, tb)), bg: Some(Color::Rgb(br, bg, bb)), ..plain_style() },
            hyperlink: None,
        }
    } else {
        let lum = luminance_of(
            ((tr as int + br as int) / 2) as u8,
            ((tg as int + bg as int) / 2) as u8,
            ((tb as int + bb as int) / 2) as u8,
        );
        glyph(block_shades()[(lum as int * 4) / 255], None)
    }
}

/// The cell at (`ry`, `cx`) of an image rendered at `cols` columns.
pub open spec fn image_cell(img: RgbaImage, cols: u16, style: AsciiStyle, color: bool, ry: int, cx: int) -> Cell {
    let ppc = px_per_col(img.width, cols);
    let ppr = rows_per_cell(style, ppc);
    match style {
        AsciiStyle::Ramp => ramp_cell(img, ppc, ppr, ry, cx, color),
        AsciiStyle::Blocks => block_cell(img, ppc, ppr, ry, cx, color),
    }
}

fn mul_u32(a: u32, b: u32) -> (p: u64)
    ensures
        p == a as int * b as int,
        p <= 0xffff_ffff * 0xffff_ffff,
{
    assert(a as int * b as int <= 0xffff_ffff * 0xffff_ffff) by (nonlinear_arith)
        requires
            a <= 0xffff_ffff,
            b <= 0xffff_ffff,
    ;
    a as u64 * b as u64
}

fn ramp_cell_of(img: &RgbaImage, ppc: u32, ppr: u32, ry: u32, cx: u32, color: bool) -> (c: Cell)
    requires
        img.wf(),
    ensures
        c == ramp_cell(*img, ppc as int, ppr as int, ry as int, cx as int, color),
{
    let x0 = mul_u32(cx, ppc);
    let y0 = mul_u32(ry, ppr);
    let (r, g, b) = average_block(img, x0, y0, ppc as u64, ppr as u64);
    let ch = ramp_char(luminance(r, g, b));
    let fg = if color { Some(Color::Rgb(r, g, b)) } else { None };
    cell_char(ch, fg)
}

fn block_cell_of(img: &RgbaImage, ppc: u32, ppr: u32, ry: u32, cx: u32, color: bool) -> (c: Cell)
    requires
        img.wf(),
    ensures
        c == block_cell(*img, ppc as int, ppr as int, ry as int, cx as int, color),
{
    let x0 = mul_u32(cx, ppc);
    let y_top = mul_u32(ry, ppr);
    let half: u32 = if ppr / 2 < 1 { 1 } else { ppr / 2 };
    let (tr, tg, tb) = average_block(img, x0, y_top, ppc as u64, half as u64);
    assert(y_top + half <= 0xffff_ffff * 0xffff_ffff + 0xffff_ffff);
    let (br, bg, bb) = average_block(img, x0, y_top + half as u64, ppc as u64, half as u64);
    if color {
        Cell::Char {
            ch: '\u{2580}',
            width: 1,
            style: Style { fg: Some(Color::Rgb(tr, tg, tb)), bg: Some(Color::Rgb(br, bg, bb)), ..Style::default() },
            hyperlink: None,
        }
    } else {
        let lum = luminance(
            ((tr as u16 + br as u16) / 2) as u8,
            ((tg as u16 + bg as u16) / 2) as u8,
            ((tb as u16 + bb as u16) / 2) as u8,
        );
        cell_char(block_shade_char(lum), None)
    }
}

fn render_cell(img: &RgbaImage, ppc: u32, ppr: u32, ry: u32, cx: u32, style: AsciiStyle, color: bool) -> (c: Cell)
    requires
        img.wf(),
    ensures
        style == AsciiStyle::Ramp ==> c == ramp_cell(*img, ppc as int, ppr as int, ry as int, cx as int, color),
        style == AsciiStyle::Blocks ==> c == block_cell(*img, ppc as int, ppr as int, ry as int, cx as int, color),
{
    match style {
        AsciiStyle::Ramp => ramp_cell_of(img, ppc, ppr, ry, cx, color),
        AsciiStyle::Blocks => block_cell_of(img, ppc, ppr, ry, cx, color),
    }
}

/// Render the image to a grid of cells `cols` wide (at least one); `color`
/// sets per-cell colors (off is `--no-color`).
pub fn render_image(img: &RgbaImage, cols: u16, style: AsciiStyle, color: bool) -> (grid: Vec<Vec<Cell>>)
    requires
        img.wf(),
        px_per_col(img.width, cols) * 2 <= u32::MAX,
    ensures
        grid@.len() == rows_for(img.width, img.height, cols, style),
        forall|ry: int| 0 <= ry < grid@.len() ==> #[trigger] grid@[ry]@.len() == max_int(cols as int, 1),
        forall|ry: int, cx: int| 0 <= ry < grid@.len() && 0 <= cx < grid@[ry]@.len()
            ==> #[trigger] grid@[ry]@[cx] == image_cell(*img, cols, style, color, ry, cx),
{
    let cols_u: u32 = if cols == 0 { 1 } else { cols as u32 };
    let ppc = cols_px(img.width, cols);
    let ppr = pixels_per_cell_row(style, ppc);
    let rows = output_rows(img.width, img.height, cols, style);
    proof {
        assert(rows <= u32::MAX) by {
            let q = div_ceil(img.height as int, ppr as int);
            assert((img.height as int) / (ppr as int) <= (img.height as int)) by (nonlinear_arith)
                requires
                    ppr >= 1,
            ;
            if (img.height as int) % (ppr as int) != 0 {
                assert((img.height as int) / (ppr as int) < (img.height as int)) by (nonlinear_arith)
                    requires
                        ppr >= 1,
                        (img.height as int) % (ppr as int) != 0,
                ;
            }
        }
    }
    let mut grid: Vec<Vec<Cell>> = Vec::new();
    let mut ry: usize = 0;
    while ry < rows
        invariant
            img.wf(),
            rows <= u32::MAX,
            rows == rows_for(img.width, img.height, cols, style),
            ppc == px_per_col(img.width, cols),
            ppr == rows_per_cell(style, ppc as int),
            cols_u == max_int(cols as int, 1),
            grid@.len() == ry,
            ry <= rows,
            forall|r: int| 0 <= r < ry ==> #[trigger] grid@[r]@.len() == cols_u,
            forall|r: int, c: int| 0 <= r < ry && 0 <= c < cols_u
                ==> #[trigger] grid@[r]@[c] == image_cell(*img, cols, style, color, r, c),
        decreases rows - ry,
    {
        let mut row: Vec<Cell> = Vec::new();
        let mut cx: u32 = 0;
        while cx < cols_u
            invariant
                img.wf(),
                ry < rows,
                rows <= u32::MAX,
                ppc == px_per_col(img.width, cols),
                ppr == rows_per_cell(style, ppc as int),
                cols_u == max_int(cols as int, 1),
                cols_u <= 0xffff,
                row@.len() == cx,
                cx <= cols_u,
                forall|c: int| 0 <= c < cx ==> #[trigger] row@[c] == image_cell(*img, cols, style, color, ry as int, c),
            decreases cols_u - cx,
        {
            let cell = render_cell(img, ppc, ppr, ry as u32, cx, style, color);
            row.push(cell);
            cx = cx + 1;
        }
        grid.push(row);
        ry = ry + 1;
    }
    grid
}

// ---------------------------------------------------------------------------
// Byte probes.
// ---------------------------------------------------------------------------

/// `needle` occurs in `bytes` at `i`.
pub open spec fn bytes_at(bytes: Seq<u8>, needle: Seq<u8>, i: int) -> bool {
    0 <= i && i + needle.len() <= bytes.len() && bytes.subrange(i, i + needle.len()) == needle
}

/// The first position, from `i` on, where `needle` occurs.
pub open spec fn find_bytes(bytes: Seq<u8>, needle: Seq<u8>, i: int) -> Option<int>
    decreases bytes.len() + 1 - i,
{
    if i < 0 || i + needle.len() > bytes.len() {
        None
    } else if bytes_at(bytes, needle, i) {
        Some(i)
    } else {
        find_bytes(bytes, needle, i + 1)
    }
}

fn bytes_match_at(bytes: &[u8], needle: &[u8], i: usize) -> (r: bool)
    requires
        i + needle@.len() <= bytes@.len(),
    ensures
        r == bytes_at(bytes@, needle@, i as int),
{
    let mut k: usize = 0;
    while k < needle.len()
        invariant
            k <= needle@.len(),
            i + needle@.len() <= bytes@.len(),
            bytes@.len() == bytes.len(),
            forall|m: int| 0 <= m < k ==> bytes@[i + m] == needle@[m],
        decreases needle@.len() - k,
    {
        if bytes[i + k] != needle[k] {
            assert(bytes@.subrange(i as int, i + needle@.len())[k as int] != needle@[k as int]);
            return false;
        }
        k = k + 1;
    }
    assert(bytes@.subrange(i as int, i + needle@.len()) =~= needle@);
    true
}

/// The first position where `needle` occurs in `bytes`.
fn locate_bytes(bytes: &[u8], needle: &[u8]) -> (r: Option<usize>)
    ensures
        match find_bytes(bytes@, needle@, 0) {
            Some(p) => r == Some(p as usize),
            None => r is None,
        },
{
    if needle.len() > bytes.len() {
        return None;
    }
    let last = bytes.len() - needle.len();
    let mut i: usize = 0;
    while i <= last
        invariant
            last + needle@.len() == bytes@.len(),
            i <= last + 1,
            find_bytes(bytes@, needle@, 0) == find_bytes(bytes@, needle@, i as int),
        decreases last + 1 - i,
    {
        if bytes_match_at(bytes, needle, i) {
            return Some(i);
        }
        if i == last {
            assert(find_bytes(bytes@, needle@, i + 1) is None);
            return None;
        }
        i = i + 1;
    }
    None
}

/// Whether the PNG holds an `acTL` (animation-control) chunk anywhere,
/// i.e. is an APNG.
pub fn png_has_actl(bytes: &[u8]) -> (r: bool)
    ensures
        r == (find_bytes(bytes@, seq![0x61u8, 0x63u8, 0x54u8, 0x4cu8], 0) is Some),
{
    let needle: [u8; 4] = [0x61, 0x63, 0x54, 0x4c];
    assert(needle@ =~= seq![0x61u8, 0x63u8, 0x54u8, 0x4cu8]);
    locate_bytes(bytes, needle.as_slice()).is_some()
}

/// The NETSCAPE2.0 application-extension header of a GIF.
pub open spec fn netscape_header() -> Seq<u8> {
    seq![0x21u8, 0xffu8, 0x0bu8, 0x4eu8, 0x45u8, 0x54u8, 0x53u8, 0x43u8, 0x41u8, 0x50u8, 0x45u8, 0x32u8, 0x2eu8, 0x30u8]
}

/// The loop count a GIF's first NETSCAPE2.0 extension gives: `Some(0)` for
/// infinite, `Some(n)` for a finite count, `None` without the extension or
/// when its loop sub-block (`03 01 lo hi`) does not follow.
pub open spec fn gif_loop_count(bytes: Seq<u8>) -> Option<u32> {
    match find_bytes(bytes, netscape_header(), 0) {
        None => None,
        Some(pos) => {
            let sub = pos + 14;
            if bytes.len() >= sub + 4 && bytes[sub] == 3 && bytes[sub + 1] == 1 {
                Some((bytes[sub + 2] as int + 256 * bytes[sub + 3] as int) as u32)
            } else {
                None
            }
        },
    }
}

/// Extract the loop count from a GIF's NETSCAPE2.0 extension.
pub fn parse_gif_loop_count(bytes: &[u8]) -> (r: Option<u32>)
    ensures
        r == gif_loop_count(bytes@),
{
    let needle: [u8; 14] = [0x21, 0xff, 0x0b, 0x4e, 0x45, 0x54, 0x53, 0x43, 0x41, 0x50, 0x45, 0x32, 0x2e, 0x30];
    assert(needle@ =~= netscape_header());
    let pos = match locate_bytes(bytes, needle.as_slice()) {
        Some(p) => p,
        None => { return None; },
    };
    proof {
        lemma_find_bytes_range(bytes@, netscape_header(), 0);
        assert(netscape_header().len() == 14);
        assert(bytes@.len() == bytes.len());
    }
    let sub = pos + 14;
    if bytes.len() - sub >= 4 && bytes[sub] == 0x03 && bytes[sub + 1] == 0x01 {
        let lo = bytes[sub + 2] as u32;
        let hi = bytes[sub + 3] as u32;
        return Some(lo + 256 * hi);
    }
    None
}

proof fn lemma_find_bytes_range(bytes: Seq<u8>, needle: Seq<u8>, i: int)
    requires
        0 <= i,
    ensures
        find_bytes(bytes, needle, i) matches Some(p) ==> i <= p && p + needle.len() <= bytes.len(),
    decreases bytes.len() + 1 - i,
{
    if i + needle.len() <= bytes.len() && !bytes_at(bytes, needle, i) {
        lemma_find_bytes_range(bytes, needle, i + 1);
    }
}

// ---------------------------------------------------------------------------
// Recognizing and decoding images (the `image` crate's work).
// ---------------------------------------------------------------------------

/// The image formats the pager names; `Other` for the rest the `image`
/// crate recognizes.
#[derive(Debug, Clone, Copy, PartialEq, Eq, Structural)]
pub enum ImageKind {
    Png,
    Jpeg,
    Gif,
    Bmp,
    WebP,
    Tiff,
    Tga,
    Ico,
    Pnm,
    Other,
}

/// What `image::guess_format` makes of the leading bytes `head`: `None`
/// when it recognizes no format.
pub uninterp spec fn guessed_format(head: Seq<u8>) -> Option<ImageKind>;

/// The PNG signature.
pub open spec fn png_signature() -> Seq<u8> {
    seq![0x89u8, 0x50u8, 0x4eu8, 0x47u8, 0x0du8, 0x0au8, 0x1au8, 0x0au8]
}

/// `image::guess_format`, its format told apart for the pager's names.
/// Besides naming the result, claims what its table of magic bytes shows:
/// the PNG signature and `GIF87a`/`GIF89a` are recognized, an empty buffer
/// is not.
#[verifier::external_body]
fn guess_format(head: &[u8]) -> (r: Option<ImageKind>)
    ensures
        r == guessed_format(head@),
        head@.len() >= 8 && head@.take(8) == png_signature() ==> r == Some(ImageKind::Png),
        head@.len() >= 6 && (head@.take(6) == seq![0x47u8, 0x49u8, 0x46u8, 0x38u8, 0x39u8, 0x61u8]
            || head@.take(6) == seq![0x47u8, 0x49u8, 0x46u8, 0x38u8, 0x37u8, 0x61u8]) ==> r == Some(ImageKind::Gif),
        head@.len() == 0 ==> r is None,
{
    match image::guess_format(head) {
        Ok(image::ImageFormat::Png) => Some(ImageKind::Png),
        Ok(image::ImageFormat::Jpeg) => Some(ImageKind::Jpeg),
        Ok(image::ImageFormat::Gif) => Some(ImageKind::Gif),
        Ok(image::ImageFormat::Bmp) => Some(ImageKind::Bmp),
        Ok(image::ImageFormat::WebP) => Some(ImageKind::WebP),
        Ok(image::ImageFormat::Tiff) => Some(ImageKind::Tiff),
        Ok(image::ImageFormat::Tga) => Some(ImageKind::Tga),
        Ok(image::ImageFormat::Ico) => Some(ImageKind::Ico),
        Ok(image::ImageFormat::Pnm) => Some(ImageKind::Pnm),
        Ok(_) => Some(ImageKind::Other),
        Err(_) => None,
    }
}

/// The short name the status line shows for a format.
pub open spec fn format_name(k: ImageKind) -> Option<Seq<char>> {
    match k {
        ImageKind::Png => Some("png"@),
        ImageKind::Jpeg => Some("jpeg"@),
        ImageKind::Gif => Some("gif"@),
        ImageKind::Bmp => Some("bmp"@),
        ImageKind::WebP => Some("webp"@),
        ImageKind::Tiff => Some("tiff"@),
        ImageKind::Tga => Some("tga"@),
        ImageKind::Ico => Some("ico"@),
        ImageKind::Pnm => Some("pnm"@),
        ImageKind::Other => None,
    }
}

/// The format of an image by its leading bytes, as a short name, or `None`
/// when the bytes are no supported image. Goes by content alone, never by
/// a file name.
pub fn sniff_image_format(head: &[u8]) -> (r: Option<&'static str>)
    ensures
        guessed_format(head@) is None ==> r is None,
        guessed_format(head@) matches Some(k) ==> (match format_name(k) {
            Some(n) => r matches Some(s) && s@ == n,
            None => r is None,
        }),
{
    match guess_format(head) {
        None => None,
        Some(k) => match k {
            ImageKind::Png => Some("png"),
            ImageKind::Jpeg => Some("jpeg"),
            ImageKind::Gif => Some("gif"),
            ImageKind::Bmp => Some("bmp"),
            ImageKind::WebP => Some("webp"),
            ImageKind::Tiff => Some("tiff"),
            ImageKind::Tga => Some("tga"),
            ImageKind::Ico => Some("ico"),
            ImageKind::Pnm => Some("pnm"),
            ImageKind::Other => None,
        },
    }
}

/// Width, height and pixel bytes of an image.
pub open spec fn image_parts(img: RgbaImage) -> (u32, u32, Seq<u8>) {
    (img.width, img.height, img.data@)
}

/// What `image::load_from_memory` followed by conversion to RGBA8 gives for
/// `bytes`: width, height and pixel bytes, or the error's text.
pub uninterp spec fn decoded_image(bytes: Seq<u8>) -> Result<(u32, u32, Seq<u8>), Seq<char>>;

/// Decode a whole image file to RGBA8 (an animated GIF gives its first
/// frame), or give the decoder's error text: `image::load_from_memory`,
/// `DynamicImage::to_rgba8`, and the error's display text. Claims that the
/// result depends on the bytes alone and that a decoded buffer holds
/// exactly its pixels.
#[verifier::external_body]
pub fn decode_image(bytes: &[u8]) -> (r: Result<RgbaImage, String>)
    ensures
        r matches Ok(img) ==> img.wf() && (decoded_image(bytes@) matches Ok(t) && t == image_parts(img)),
        r matches Err(m) ==> (decoded_image(bytes@) matches Err(d) && d == m@),
{
    match image::load_from_memory(bytes) {
        Ok(img) => {
            let rgba = img.to_rgba8();
            let (width, height) = rgba.dimensions();
            Ok(RgbaImage { width, height, data: rgba.into_raw() })
        },
        Err(e) => Err(e.to_string()),
    }
}

// ---------------------------------------------------------------------------
// Animations.
// ---------------------------------------------------------------------------

/// Frames as a decoder gave them: width, height and pixels of each, with
/// the delay before the next frame in nanoseconds.
pub type FrameParts = ((u32, u32, Seq<u8>), u128);

/// What decoding an animation's frames gave: `None` when no decoder could
/// open the bytes, else the frames or the error's text.
pub type FramesView = Option<Result<Seq<FrameParts>, Seq<char>>>;

/// The frames of a decoder, each with its delay in nanoseconds.
pub enum FrameDecode {
    /// No decoder of the format opens the bytes.
    NoDecoder,
    Frames(Vec<(RgbaImage, u128)>),
    /// The decoder opened them but failed on the frames.
    Failed(String),
}

/// The plain view of decoded frames.
pub open spec fn frames_parts(fs: Seq<(RgbaImage, u128)>) -> Seq<FrameParts> {
    fs.map_values(|f: (RgbaImage, u128)| (image_parts(f.0), f.1))
}

/// The plain view of a decoding outcome.
pub open spec fn frame_decode_view(d: FrameDecode) -> FramesView {
    match d {
        FrameDecode::NoDecoder => None,
        FrameDecode::Frames(fs) => Some(Ok(frames_parts(fs@))),
        FrameDecode::Failed(e) => Some(Err(e@)),
    }
}

/// Every frame's buffer holds exactly its pixels and its delay is a
/// duration (at most `Duration::MAX`).
pub open spec fn frames_sound(d: FrameDecode) -> bool {
    d matches FrameDecode::Frames(fs) ==> forall|i: int| 0 <= i < fs@.len()
        ==> (#[trigger] fs@[i]).0.wf() && fs@[i].1 <= crate::anim::DURATION_MAX_NANOS
}

/// What `GifDecoder::new`, `into_frames` and `collect_frames` give for `bytes`.
pub uninterp spec fn gif_frames_of(bytes: Seq<u8>) -> FramesView;

/// What `WebPDecoder::new`, `into_frames` and `collect_frames` give for `bytes`.
pub uninterp spec fn webp_frames_of(bytes: Seq<u8>) -> FramesView;

/// What `PngDecoder::new`, `apng`, `into_frames` and `collect_frames` give
/// for `bytes`.
pub uninterp spec fn apng_frames_of(bytes: Seq<u8>) -> FramesView;

/// The `image` crate's GIF decoder over `bytes`, all frames collected, each
/// frame's buffer and delay (`Duration::from(Delay)`, in nanoseconds).
/// Claims the outcome depends on the bytes alone and frames are sound.
#[verifier::external_body]
fn gif_frames(bytes: &[u8]) -> (d: FrameDecode)
    ensures
        frame_decode_view(d) == gif_frames_of(bytes@),
        frames_sound(d),
{
    match image::codecs::gif::GifDecoder::new(std::io::Cursor::new(bytes)) {
        Err(_) => FrameDecode::NoDecoder,
        Ok(d) => match d.into_frames().collect_frames() {
            Ok(fs) => FrameDecode::Frames(fs.into_iter().map(|f| {
                let delay = std::time::Duration::from(f.delay()).as_nanos();
                let b = f.into_buffer();
                (RgbaImage { width: b.width(), height: b.height(), data: b.into_raw() }, delay)
            }).collect()),
            Err(e) => FrameDecode::Failed(e.to_string()),
        },
    }
}

/// The `image` crate's WebP decoder over `bytes`, all frames collected, as
/// for GIF. Claims the outcome depends on the bytes alone and frames are
/// sound.
#[verifier::external_body]
fn webp_frames(bytes: &[u8]) -> (d: FrameDecode)
    ensures
        frame_decode_view(d) == webp_frames_of(bytes@),
        frames_sound(d),
{
    match image::codecs::webp::WebPDecoder::new(std::io::Cursor::new(bytes)) {
        Err(_) => FrameDecode::NoDecoder,
        Ok(d) => match d.into_frames().collect_frames() {
            Ok(fs) => FrameDecode::Frames(fs.into_iter().map(|f| {
                let delay = std::time::Duration::from(f.delay()).as_nanos();
                let b = f.into_buffer();
                (RgbaImage { width: b.width(), height: b.height(), data: b.into_raw() }, delay)
            }).collect()),
            Err(e) => FrameDecode::Failed(e.to_string()),
        },
    }
}

/// The `image` crate's PNG decoder over `bytes` as an APNG, all frames
/// collected; a failure of `apng` or of the frames is a failed decode.
/// Claims the outcome depends on the bytes alone and frames are sound.
/// The frame compositor's `unwrap`s, `expect` and `unreachable!` arms are
/// guarded in the source: `png` refuses sub-frames out of the image's
/// bounds, the dispose region is set before it is read, and 16-bit color
/// types are refused by `animatable_color_type` first.
#[verifier::external_body]
fn apng_frames(bytes: &[u8]) -> (d: FrameDecode)
    ensures
        frame_decode_view(d) == apng_frames_of(bytes@),
        frames_sound(d),
{
    match image::codecs::png::PngDecoder::new(std::io::Cursor::new(bytes)) {
        Err(_) => FrameDecode::NoDecoder,
        Ok(d) => match d.apng().and_then(|a| a.into_frames().collect_frames()) {
            Ok(fs) => FrameDecode::Frames(fs.into_iter().map(|f| {
                let delay = std::time::Duration::from(f.delay()).as_nanos();
                let b = f.into_buffer();
                (RgbaImage { width: b.width(), height: b.height(), data: b.into_raw() }, delay)
            }).collect()),
            Err(e) => FrameDecode::Failed(e.to_string()),
        },
    }
}

/// A decoded multi-frame animation: each frame with the delay before the
/// next, and the loop count (`None` loops forever).
pub struct Animation {
    pub frames: Vec<(RgbaImage, u128)>,
    pub loop_count: Option<u32>,
}

/// What `decode_animation` found.
pub enum AnimationDecode {
    /// Not an animation (one frame, or no animated format): show it as a
    /// still image.
    Static,
    /// An animation to play.
    Animated(Animation),
    /// An animation whose frames could not be decoded; carries the reason.
    Unsupported(String),
}

/// The plain view of a decoding's result.
pub enum AnimationView {
    Static,
    Animated(Seq<FrameParts>, Option<u32>),
    Unsupported(Seq<char>),
}

pub open spec fn animation_view(a: AnimationDecode) -> AnimationView {
    match a {
        AnimationDecode::Static => AnimationView::Static,
        AnimationDecode::Animated(an) => AnimationView::Animated(frames_parts(an.frames@), an.loop_count),
        AnimationDecode::Unsupported(m) => AnimationView::Unsupported(m@),
    }
}

/// How the frames of an animated format were decoded, with the prefix its
/// errors carry: none for formats that cannot animate and for a PNG
/// without an `acTL` chunk.
pub open spec fn animation_frames(bytes: Seq<u8>) -> Option<(FramesView, Seq<char>)> {
    match guessed_format(bytes) {
        Some(ImageKind::Gif) => Some((gif_frames_of(bytes), "GIF: "@)),
        Some(ImageKind::WebP) => Some((webp_frames_of(bytes), "WebP: "@)),
        Some(ImageKind::Png) => if find_bytes(bytes, seq![0x61u8, 0x63u8, 0x54u8, 0x4cu8], 0) is Some {
            Some((apng_frames_of(bytes), "APNG: "@))
        } else {
            None
        },
        _ => None,
    }
}

/// What decoding `bytes` as an animation gives: static unless an animated
/// format decodes to more than one frame; a failed frame decode is
/// unsupported, with the format's prefix; a GIF's loop count comes from
/// its NETSCAPE2.0 extension, other formats loop forever.
pub open spec fn animation_outcome(bytes: Seq<u8>) -> AnimationView {
    match animation_frames(bytes) {
        None => AnimationView::Static,
        Some((None, _)) => AnimationView::Static,
        Some((Some(Err(e)), prefix)) => AnimationView::Unsupported(prefix + e),
        Some((Some(Ok(fs)), _)) => if fs.len() <= 1 {
            AnimationView::Static
        } else {
            AnimationView::Animated(fs, if guessed_format(bytes) == Some(ImageKind::Gif) { gif_loop_count(bytes) } else { None })
        },
    }
}

/// Decode an animated image (GIF, APNG, animated WebP): `Static` for a
/// still image (the caller decodes it with `decode_image`), `Animated` for
/// a playable animation, `Unsupported` when the source is animated but its
/// frames cannot be decoded (so that the caller can show the first frame
/// and a hint). Each frame's buffer is sound and its delay a duration.
pub fn decode_animation(bytes: &[u8]) -> (r: AnimationDecode)
    ensures
        animation_view(r) == animation_outcome(bytes@),
        r matches AnimationDecode::Animated(a) ==> forall|i: int| 0 <= i < a.frames@.len()
            ==> (#[trigger] a.frames@[i]).0.wf() && a.frames@[i].1 <= crate::anim::DURATION_MAX_NANOS,
{
    let kind = guess_format(bytes);
    let (decoded, prefix) = match kind {
        Some(ImageKind::Gif) => (gif_frames(bytes), "GIF: "),
        Some(ImageKind::WebP) => (webp_frames(bytes), "WebP: "),
        Some(ImageKind::Png) => {
            if !png_has_actl(bytes) {
                return AnimationDecode::Static;
            }
            (apng_frames(bytes), "APNG: ")
        },
        _ => {
            return AnimationDecode::Static;
        },
    };
    let frames = match decoded {
        FrameDecode::NoDecoder => {
            return AnimationDecode::Static;
        },
        FrameDecode::Failed(e) => {
            let mut msg: Vec<char> = Vec::new();
            crate::text::push_str(&mut msg, prefix);
            let ec = crate::text::chars_of(e.as_str());
            crate::text::push_chars(&mut msg, ec.as_slice());
            return AnimationDecode::Unsupported(crate::text::string_of(msg.as_slice()));
        },
        FrameDecode::Frames(fs) => fs,
    };
    if frames.len() <= 1 {
        return AnimationDecode::Static;
    }
    let loop_count = match kind {
        Some(ImageKind::Gif) => parse_gif_loop_count(bytes),
        _ => None,
    };
    AnimationDecode::Animated(Animation { frames, loop_count })
}

} // verus!
