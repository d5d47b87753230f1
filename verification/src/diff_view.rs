//! The diff-mode aligned view: from the rendered rows of each line pair and
//! a `(pair, sub-row)` scroll position, stitch the full-width body rows:
//! left side, a divider column, right side, gutter signs on the first row
//! of a pair, class colors, and blank filler rows at the bottom. Rendering
//! each line into rows is the caller's part.

use vstd::prelude::*;
use crate::ansi::{plain_style, Color, Style};
use crate::diff::{DiffClass, DiffPair};
use crate::render::Cell;

verus! {

/// Width of the divider column between the two sides.
pub const DIVIDER: usize = 1;

/// The gutter sign of a class.
pub open spec fn sign_of(class: DiffClass) -> char {
    match class {
        DiffClass::Equal => ' ',
        DiffClass::Changed => '~',
        DiffClass::Added => '+',
        DiffClass::Removed => '-',
    }
}

/// The foreground color of a class: yellow for changed, green for added,
/// red for removed (ANSI 3, 2, 1), none for equal.
pub open spec fn class_fg(class: DiffClass) -> Option<Color> {
    match class {
        DiffClass::Equal => None,
        DiffClass::Changed => Some(Color::Ansi(3)),
        DiffClass::Added => Some(Color::Ansi(2)),
        DiffClass::Removed => Some(Color::Ansi(1)),
    }
}

/// The gutter sign of a pair's class.
pub fn gutter_sign(class: DiffClass) -> (c: char)
    ensures
        c == sign_of(class),
{
    match class {
        DiffClass::Equal => ' ',
        DiffClass::Changed => '~',
        DiffClass::Added => '+',
        DiffClass::Removed => '-',
    }
}

/// The style of a class: its color as foreground, nothing else.
pub fn class_style(class: DiffClass) -> (s: Style)
    ensures
        s == (Style { fg: class_fg(class), ..plain_style() }),
{
    let mut s = Style::default();
    match class {
        DiffClass::Equal => {},
        DiffClass::Changed => s.fg = Some(Color::Ansi(3)),
        DiffClass::Added => s.fg = Some(Color::Ansi(2)),
        DiffClass::Removed => s.fg = Some(Color::Ansi(1)),
    }
    s
}

/// The divider cell: a dim vertical bar.
pub open spec fn divider_spec() -> Cell {
    Cell::Char { ch: '\u{2502}', width: 1, style: Style { dim: true, ..plain_style() }, hyperlink: None }
}

/// The cell between the two sides.
pub fn divider_cell() -> (c: Cell)
    ensures
        c == divider_spec(),
{
    Cell::Char { ch: '\u{2502}', width: 1, style: Style { dim: true, ..Style::default() }, hyperlink: None }
}

/// A gutter sign in its class's style.
pub open spec fn sign_spec(sign: char, class: DiffClass) -> Cell {
    Cell::Char { ch: sign, width: 1, style: Style { fg: class_fg(class), ..plain_style() }, hyperlink: None }
}

/// The cell that shows `sign` in `class`'s style.
pub fn sign_cell(sign: char, class: DiffClass) -> (c: Cell)
    ensures
        c == sign_spec(sign, class),
{
    Cell::Char { ch: sign, width: 1, style: class_style(class), hyperlink: None }
}

// ---------------------------------------------------------------------------
// Coloring a side.
// ---------------------------------------------------------------------------

/// A cell with the class color as foreground where it has none.
pub open spec fn tint(c: Cell, fg: Option<Color>) -> Cell {
    match c {
        Cell::Char { ch, width, style, hyperlink } => Cell::Char {
            ch,
            width,
            style: if style.fg is None { Style { fg: fg, ..style } } else { style },
            hyperlink,
        },
        other => other,
    }
}

/// A side's rows with the class color filled in, and at least one row.
pub open spec fn tinted_rows(rows: Seq<Seq<Cell>>, class: DiffClass) -> Seq<Seq<Cell>> {
    let t = Seq::new(rows.len(), |i: int| Seq::new(rows[i].len(), |j: int| if class_fg(class) is None {
        rows[i][j]
    } else {
        tint(rows[i][j], class_fg(class))
    }));
    if t.len() == 0 { seq![Seq::empty()] } else { t }
}

/// The views of rows.
pub open spec fn rows_view(rows: Seq<Vec<Cell>>) -> Seq<Seq<Cell>> {
    rows.map_values(|r: Vec<Cell>| r@)
}

/// Color a present side's rendered rows by the pair's class (cells that
/// set their own foreground keep it), with an empty row for an empty line.
pub fn tint_side_rows(rows: Vec<Vec<Cell>>, class: DiffClass) -> (out: Vec<Vec<Cell>>)
    ensures
        rows_view(out@) == tinted_rows(rows_view(rows@), class),
{
    let fg = class_style(class).fg;
    let ghost orig = rows_view(rows@);
    let mut rows = rows;
    let mut out: Vec<Vec<Cell>> = Vec::new();
    let n = rows.len();
    let mut i: usize = 0;
    while i < n
        invariant
            i <= n,
            n == orig.len(),
            rows@.len() == n - i,
            forall|k: int| 0 <= k < n - i ==> (#[trigger] rows@[k])@ == orig[i + k],
            out@.len() == i,
            fg == class_fg(class),
            forall|k: int| 0 <= k < i ==> (#[trigger] out@[k])@ == Seq::new(orig[k].len(), |j: int| if fg is None {
                orig[k][j]
            } else {
                tint(orig[k][j], fg)
            }),
        decreases n - i,
    {
        let row = rows.remove(0);
        let ghost rv = row@;
        assert(rv == orig[i as int]);
        let mut cells = row;
        let mut new_row: Vec<Cell> = Vec::new();
        let m = cells.len();
        let mut j: usize = 0;
        while j < m
            invariant
                j <= m,
                m == rv.len(),
                cells@.len() == m - j,
                forall|k: int| 0 <= k < m - j ==> #[trigger] cells@[k] == rv[j + k],
                new_row@.len() == j,
                forall|k: int| 0 <= k < j ==> #[trigger] new_row@[k] == (if fg is None { rv[k] } else { tint(rv[k], fg) }),
            decreases m - j,
        {
            let c = cells.remove(0);
            let t = match fg {
                None => c,
                Some(color) => match c {
                    Cell::Char { ch, width, style, hyperlink } => {
                        let st = if style.fg.is_none() { Style { fg: Some(color), ..style } } else { style };
                        Cell::Char { ch, width, style: st, hyperlink }
                    },
                    other => other,
                },
            };
            new_row.push(t);
            j = j + 1;
        }
        assert(new_row@ =~= Seq::new(rv.len(), |k: int| if fg is None { rv[k] } else { tint(rv[k], fg) }));
        out.push(new_row);
        i = i + 1;
    }
    if out.len() == 0 {
        out.push(Vec::new());
        assert(rows_view(out@) =~= seq![Seq::<Cell>::empty()]);
        assert(tinted_rows(orig, class).len() == 1);
    } else {
        assert(rows_view(out@) =~= tinted_rows(orig, class));
    }
    out
}

/// How many rows a pair takes: the taller side, at least one.
pub fn pair_height(left_rows: usize, right_rows: usize) -> (h: usize)
    ensures
        h == (if left_rows >= right_rows { left_rows } else { right_rows }) || (left_rows == 0 && right_rows == 0 && h == 1),
        h >= 1,
        h >= left_rows,
        h >= right_rows,
{
    let m = if left_rows >= right_rows { left_rows } else { right_rows };
    if m < 1 { 1 } else { m }
}

// ---------------------------------------------------------------------------
// Stitching the body.
// ---------------------------------------------------------------------------

/// A row resized to `w` cells: cut, or filled with empty cells.
pub open spec fn pad_row(cells: Seq<Cell>, w: int) -> Seq<Cell> {
    if cells.len() >= w {
        cells.take(w)
    } else {
        cells + Seq::new((w - cells.len()) as nat, |i: int| Cell::Empty)
    }
}

/// Row `k` of a side, or nothing past its rows.
pub open spec fn side_row(rows: Seq<Seq<Cell>>, k: int) -> Seq<Cell> {
    if 0 <= k < rows.len() { rows[k] } else { Seq::empty() }
}

/// On a pair's first row, a present side shows the gutter sign in its
/// first cell (unless the sign is blank).
pub open spec fn mark(cells: Seq<Cell>, present: bool, k: int, class: DiffClass) -> Seq<Cell> {
    if k == 0 && sign_of(class) != ' ' && present && cells.len() > 0 {
        cells.update(0, sign_spec(sign_of(class), class))
    } else {
        cells
    }
}

/// The height of a pair with these rows.
pub open spec fn height_of(l: Seq<Seq<Cell>>, r: Seq<Seq<Cell>>) -> int {
    let m = if l.len() >= r.len() { l.len() as int } else { r.len() as int };
    if m < 1 { 1 } else { m }
}

/// Body row `k` of a pair.
pub open spec fn pair_row(pair: DiffPair, l: Seq<Seq<Cell>>, r: Seq<Seq<Cell>>, k: int, lw: int, rw: int) -> Seq<Cell> {
    mark(pad_row(side_row(l, k), lw), pair.left is Some, k, pair.class)
        + seq![divider_spec()]
        + mark(pad_row(side_row(r, k), rw), pair.right is Some, k, pair.class)
}

/// The body rows of a pair from its row `from` on.
pub open spec fn pair_body(pair: DiffPair, l: Seq<Seq<Cell>>, r: Seq<Seq<Cell>>, from: int, lw: int, rw: int) -> Seq<Seq<Cell>> {
    let h = height_of(l, r);
    Seq::new(if h > from { (h - from) as nat } else { 0nat }, |i: int| pair_row(pair, l, r, from + i, lw, rw))
}

/// One pair with the rendered rows of its two sides.
pub type PairParts = (DiffPair, Vec<Vec<Cell>>, Vec<Vec<Cell>>);

/// The view of one pair's parts.
pub open spec fn parts_view(p: PairParts) -> (DiffPair, Seq<Seq<Cell>>, Seq<Seq<Cell>>) {
    (p.0, rows_view(p.1@), rows_view(p.2@))
}

/// The body rows of pairs `[p0, p)`, starting at row `sub` of pair `p0`.
pub open spec fn rows_from(parts: Seq<(DiffPair, Seq<Seq<Cell>>, Seq<Seq<Cell>>)>, p0: int, sub: int, p: int, lw: int, rw: int) -> Seq<Seq<Cell>>
    decreases p - p0,
{
    if p <= p0 {
        Seq::empty()
    } else {
        let q = parts[p - 1];
        rows_from(parts, p0, sub, p - 1, lw, rw) + pair_body(q.0, q.1, q.2, if p - 1 == p0 { sub } else { 0 }, lw, rw)
    }
}

/// An empty body row: blank sides around the divider.
pub open spec fn filler_row(lw: int, rw: int) -> Seq<Cell> {
    pad_row(Seq::empty(), lw) + seq![divider_spec()] + pad_row(Seq::empty(), rw)
}

/// The body: the rows from the scroll position on, cut to `body_rows`,
/// then filler rows up to `body_rows`.
pub open spec fn body_spec(parts: Seq<(DiffPair, Seq<Seq<Cell>>, Seq<Seq<Cell>>)>, pos: (int, int), lw: int, rw: int, body_rows: int) -> Seq<Seq<Cell>> {
    let all = rows_from(parts, pos.0, pos.1, parts.len() as int, lw, rw);
    let shown = if all.len() > body_rows { all.take(body_rows) } else { all };
    shown + Seq::new((body_rows - shown.len()) as nat, |i: int| filler_row(lw, rw))
}

/// A row resized to `w` cells.
fn pad(cells: Vec<Cell>, w: usize) -> (out: Vec<Cell>)
    ensures
        out@ == pad_row(cells@, w as int),
{
    let mut out = cells;
    if out.len() >= w {
        out.truncate(w);
        assert(out@ =~= pad_row(cells@, w as int));
        return out;
    }
    let ghost c = cells@;
    while out.len() < w
        invariant
            c.len() <= out@.len() <= w,
            out@ == c + Seq::new((out@.len() - c.len()) as nat, |i: int| Cell::Empty),
        decreases w - out.len(),
    {
        out.push(Cell::Empty);
        assert(out@ =~= c + Seq::new((out@.len() - c.len()) as nat, |i: int| Cell::Empty));
    }
    out
}

/// Take the next row of a side (its rows are consumed front first), or an
/// empty row once they run out.
fn next_row(rows: &mut Vec<Vec<Cell>>) -> (row: Vec<Cell>)
    ensures
        old(rows)@.len() > 0 ==> row@ == old(rows)@[0]@ && final(rows)@ == old(rows)@.drop_first(),
        old(rows)@.len() == 0 ==> row@ == Seq::<Cell>::empty() && final(rows)@ == old(rows)@,
{
    if rows.len() > 0 {
        let r = rows.remove(0);
        assert(old(rows)@.remove(0) =~= old(rows)@.drop_first());
        r
    } else {
        Vec::new()
    }
}

/// Show the gutter sign in a present side's first cell.
fn mark_row(cells: &mut Vec<Cell>, present: bool, k: usize, class: DiffClass)
    ensures
        final(cells)@ == mark(old(cells)@, present, k as int, class),
{
    let sign = gutter_sign(class);
    if k == 0 && sign != ' ' && present && cells.len() > 0 {
        cells.set(0, sign_cell(sign, class));
    }
}

/// Stitch the body: walk the pairs from the scroll position `pos` (pair,
/// row within it), each row its left side cut or padded to `lw` cells, the
/// divider, its right side to `rw` cells, with gutter signs on a pair's
/// first row; stop at `body_rows` rows and fill up with blank rows. The
/// rows of each pair are its sides' rendered (and tinted) rows.
pub fn compose_body(parts: Vec<PairParts>, pos: (usize, usize), lw: usize, rw: usize, body_rows: usize) -> (body: Vec<Vec<Cell>>)
    ensures
        rows_view(body@) == body_spec(parts@.map_values(|p: PairParts| parts_view(p)), (pos.0 as int, pos.1 as int), lw as int, rw as int, body_rows as int),
{
    let ghost pv = parts@.map_values(|p: PairParts| parts_view(p));
    let mut parts = parts;
    let mut body: Vec<Vec<Cell>> = Vec::new();
    let n = parts.len();
    let (p0, sub0) = pos;
    // Pairs before the scroll position are not shown.
    let mut skip: usize = 0;
    while skip < p0 && skip < n
        invariant
            skip <= n,
            skip <= p0,
            parts@.len() == n - skip,
            forall|k: int| 0 <= k < n - skip ==> parts_view(#[trigger] parts@[k]) == pv[skip + k],
            pv.len() == n,
        decreases p0 - skip,
    {
        let _dropped = parts.remove(0);
        skip = skip + 1;
    }
    let mut pi = skip;
    let mut sub = sub0;
    proof {
        assert(rows_view(body@) =~= rows_from(pv, p0 as int, sub0 as int, pi as int, lw as int, rw as int));
        assert(rows_from(pv, p0 as int, sub0 as int, pi as int, lw as int, rw as int).take(0) =~= rows_view(body@));
    }
    while body.len() < body_rows && pi < n
        invariant
            p0 <= pi || pi == n,
            pi <= n,
            pv.len() == n,
            parts@.len() == n - pi,
            forall|k: int| 0 <= k < n - pi ==> parts_view(#[trigger] parts@[k]) == pv[pi + k],
            pi < n ==> sub == (if pi == p0 { sub0 } else { 0 }),
            body@.len() <= body_rows,
            body@.len() <= rows_from(pv, p0 as int, sub0 as int, pi as int, lw as int, rw as int).len(),
            rows_view(body@) == rows_from(pv, p0 as int, sub0 as int, pi as int, lw as int, rw as int).take(body@.len() as int),
            body@.len() < body_rows ==> rows_view(body@) == rows_from(pv, p0 as int, sub0 as int, pi as int, lw as int, rw as int),
        decreases n - pi,
    {
        let ghost whole = rows_from(pv, p0 as int, sub0 as int, pi as int, lw as int, rw as int);
        let ghost first = parts_view(parts@[0]);
        assert(first == pv[pi as int]);
        let (pair, mut l, mut r) = parts.remove(0);
        let ghost lv = rows_view(l@);
        let ghost rv = rows_view(r@);
        assert((pair, lv, rv) == pv[pi as int]);
        let height = pair_height(l.len(), r.len());
        let ghost start: int = if sub < height { sub as int } else { height as int };
        let ghost pb = pair_body(pair, lv, rv, sub as int, lw as int, rw as int);
        assert(height as int == height_of(lv, rv));
        assert(pb.len() == height - start);
        // Drop the rows above the scroll position.
        let mut k: usize = 0;
        while k < sub && k < height
            invariant
                k <= height,
                k <= sub,
                l@.len() == if lv.len() > k { lv.len() - k } else { 0 },
                r@.len() == if rv.len() > k { rv.len() - k } else { 0 },
                forall|j: int| 0 <= j < l@.len() ==> (#[trigger] l@[j])@ == lv[k + j],
                forall|j: int| 0 <= j < r@.len() ==> (#[trigger] r@[j])@ == rv[k + j],
            decreases height - k,
        {
            let _a = next_row(&mut l);
            let _b = next_row(&mut r);
            k = k + 1;
        }
        assert(k == start);
        let ghost before = rows_view(body@);
        assert(before == whole);
        proof {
            assert(pb.take(0) =~= Seq::<Seq<Cell>>::empty());
            assert(rows_view(body@) =~= before + pb.take(0));
        }
        while k < height && body.len() < body_rows
            invariant
                k <= height,
                height == height_of(lv, rv),
                start <= k,
                l@.len() == if lv.len() > k { lv.len() - k } else { 0 },
                r@.len() == if rv.len() > k { rv.len() - k } else { 0 },
                forall|j: int| 0 <= j < l@.len() ==> (#[trigger] l@[j])@ == lv[k + j],
                forall|j: int| 0 <= j < r@.len() ==> (#[trigger] r@[j])@ == rv[k + j],
                body@.len() <= body_rows,
                before.len() <= body@.len(),
                k == start + (body@.len() - before.len()),
                pb == pair_body(pair, lv, rv, sub as int, lw as int, rw as int),
                pb.len() == height - start,
                start == (if sub < height { sub as int } else { height as int }),
                rows_view(body@) == before + pb.take(body@.len() - before.len()),
            decreases height - k,
        {
            let ghost bl = rows_view(body@);
            let lrow = next_row(&mut l);
            let rrow = next_row(&mut r);
            assert(lrow@ == side_row(lv, k as int));
            assert(rrow@ == side_row(rv, k as int));
            let mut lcells = pad(lrow, lw);
            let mut rcells = pad(rrow, rw);
            mark_row(&mut lcells, pair.left.is_some(), k, pair.class);
            mark_row(&mut rcells, pair.right.is_some(), k, pair.class);
            let mut row = lcells;
            row.push(divider_cell());
            row.append(&mut rcells);
            proof {
                assert(row@ =~= pair_row(pair, lv, rv, k as int, lw as int, rw as int));
                assert(pb[k - start] == pair_row(pair, lv, rv, k as int, lw as int, rw as int));
            }
            body.push(row);
            proof {
                let m = body@.len() - before.len();
                assert(pb.take(m) =~= pb.take(m - 1).push(pb[m - 1]));
                assert(rows_view(body@) =~= bl.push(row@));
                assert(rows_view(body@) =~= before + pb.take(m));
            }
            k = k + 1;
        }
        proof {
            let next_whole = rows_from(pv, p0 as int, sub0 as int, pi + 1, lw as int, rw as int);
            assert(next_whole == whole + pb);
            let m = body@.len() - before.len();
            if body@.len() < body_rows {
                assert(k == height);
                assert(pb.take(m) =~= pb);
                assert(rows_view(body@) =~= next_whole);
                assert(next_whole.take(body@.len() as int) =~= next_whole);
            } else {
                assert(next_whole.take(body@.len() as int) =~= before + pb.take(m));
            }
        }
        pi = pi + 1;
        sub = 0;
    }
    let ghost shown = rows_view(body@);
    proof {
        let all = rows_from(pv, p0 as int, sub0 as int, n as int, lw as int, rw as int);
        if body@.len() < body_rows {
            assert(pi == n);
            assert(shown == all);
        } else {
            assert(body@.len() == body_rows);
            let upto = rows_from(pv, p0 as int, sub0 as int, pi as int, lw as int, rw as int);
            lemma_rows_from_prefix(pv, p0 as int, sub0 as int, pi as int, n as int, lw as int, rw as int);
            assert(all.take(body_rows as int) =~= upto.take(body_rows as int)) by {
                assert(all.take(upto.len() as int) == upto);
                assert forall|i: int| 0 <= i < body_rows implies all.take(body_rows as int)[i] == upto.take(body_rows as int)[i] by {
                    assert(all.take(upto.len() as int)[i] == all[i]);
                }
            }
            assert(shown == all.take(body_rows as int));
        }
    }
    let ghost filled = shown.len();
    while body.len() < body_rows
        invariant
            filled <= body@.len() <= body_rows,
            rows_view(body@) == shown + Seq::new((body@.len() - filled) as nat, |i: int| filler_row(lw as int, rw as int)),
        decreases body_rows - body.len(),
    {
        let ghost bl = rows_view(body@);
        let mut row = pad(Vec::new(), lw);
        row.push(divider_cell());
        let mut right = pad(Vec::new(), rw);
        row.append(&mut right);
        proof {
            assert(row@ =~= filler_row(lw as int, rw as int));
        }
        body.push(row);
        proof {
            assert(rows_view(body@) =~= bl.push(row@));
            assert(rows_view(body@) =~= shown + Seq::new((body@.len() - filled) as nat, |i: int| filler_row(lw as int, rw as int)));
        }
    }
    proof {
        let all = rows_from(pv, p0 as int, sub0 as int, n as int, lw as int, rw as int);
        let sh = if all.len() > body_rows { all.take(body_rows as int) } else { all };
        if filled < body_rows {
            assert(shown == all);
        } else if all.len() <= body_rows {
            assert(all.len() == body_rows);
            assert(all.take(body_rows as int) =~= all);
        }
        assert(sh == shown);
        assert(rows_view(body@) =~= body_spec(pv, (p0 as int, sub0 as int), lw as int, rw as int, body_rows as int));
    }
    body
}

/// The rows up to a pair are a prefix of the rows up to a later pair.
proof fn lemma_rows_from_prefix(parts: Seq<(DiffPair, Seq<Seq<Cell>>, Seq<Seq<Cell>>)>, p0: int, sub: int, p: int, q: int, lw: int, rw: int)
    requires
        p <= q,
    ensures
        rows_from(parts, p0, sub, p, lw, rw).len() <= rows_from(parts, p0, sub, q, lw, rw).len(),
        rows_from(parts, p0, sub, q, lw, rw).take(rows_from(parts, p0, sub, p, lw, rw).len() as int)
            == rows_from(parts, p0, sub, p, lw, rw),
    decreases q - p,
{
    if q > p {
        lemma_rows_from_prefix(parts, p0, sub, p, q - 1, lw, rw);
        let a = rows_from(parts, p0, sub, p, lw, rw);
        let b = rows_from(parts, p0, sub, q - 1, lw, rw);
        let c = rows_from(parts, p0, sub, q, lw, rw);
        if q - 1 >= p0 {
            assert(c.take(a.len() as int) =~= b.take(a.len() as int));
        } else {
            assert(c =~= b);
        }
    } else {
        assert(rows_from(parts, p0, sub, q, lw, rw).take(rows_from(parts, p0, sub, p, lw, rw).len() as int)
            =~= rows_from(parts, p0, sub, p, lw, rw));
    }
}

// ---------------------------------------------------------------------------
// Scrolling.
// ---------------------------------------------------------------------------

/// The rows taken by the first `k` pairs.
pub open spec fn rows_before(heights: Seq<usize>, k: int) -> int
    decreases k,
{
    if k <= 0 { 0 } else { rows_before(heights, k - 1) + heights[k - 1] as int }
}

/// Every pair takes at least one row (as `pair_height` gives).
pub open spec fn heights_ok(heights: Seq<usize>) -> bool {
    forall|k: int| 0 <= k < heights.len() ==> #[trigger] heights[k] >= 1
}

/// `pos` names a row that exists: a pair and a sub-row inside it.
pub open spec fn pos_valid(heights: Seq<usize>, pos: (usize, usize)) -> bool {
    pos.0 < heights.len() && pos.1 < heights[pos.0 as int]
}

/// The body row, counted from the top of the diff, that `pos` names.
pub open spec fn row_of(heights: Seq<usize>, pos: (usize, usize)) -> int {
    rows_before(heights, pos.0 as int) + pos.1
}

/// Where a forward scroll counts from: a sub-row past the end of its pair
/// counts as the start of the next pair.
pub open spec fn forward_base(heights: Seq<usize>, pos: (usize, usize)) -> int {
    rows_before(heights, pos.0 as int)
        + if pos.1 < heights[pos.0 as int] { pos.1 as int } else { heights[pos.0 as int] as int }
}

/// The position that names `row`, for a row that exists.
pub open spec fn locate(heights: Seq<usize>, row: int) -> (usize, usize) {
    choose|p: (usize, usize)| pos_valid(heights, p) && row_of(heights, p) == row
}

/// Where a scroll by `delta` rows (down when positive) ends, clamped at
/// both ends. Forward it counts from `forward_base`. Backward, a scroll
/// that stays inside the current pair only moves the sub-row.
pub open spec fn scroll_result(heights: Seq<usize>, pos: (usize, usize), delta: int) -> (usize, usize) {
    let total = rows_before(heights, heights.len() as int);
    if heights.len() == 0 || delta == 0 {
        pos
    } else if delta > 0 {
        locate(heights, if forward_base(heights, pos) + delta < total { forward_base(heights, pos) + delta } else { total - 1 })
    } else if -delta <= pos.1 {
        (pos.0, (pos.1 + delta) as usize)
    } else {
        locate(heights, if row_of(heights, pos) + delta > 0 { row_of(heights, pos) + delta } else { 0 })
    }
}

/// Scroll the diff body by `delta` rows (down when positive), clamping at
/// both ends. `heights[k]` is how many rows pair `k` takes. Forward, the
/// new position is the row `delta` further on, or the last row. Backward,
/// a scroll that stays inside the current pair only moves the sub-row;
/// otherwise the new position is the row `delta` back, or the first row.
pub fn diff_scroll(heights: &[usize], pos: (usize, usize), delta: isize) -> (r: (usize, usize))
    requires
        heights_ok(heights@),
        heights@.len() == 0 || pos.0 < heights@.len(),
    ensures
        r == scroll_result(heights@, pos, delta as int),
        heights@.len() > 0 && (delta > 0 || -delta > pos.1) ==> pos_valid(heights@, r),
{
    let n = heights.len();
    if n == 0 || delta == 0 {
        return pos;
    }
    let ghost hs = heights@;
    let ghost total = rows_before(hs, n as int);
    proof {
        lemma_rows_before_step(hs, n as int);
    }
    let mut i = pos.0;
    let mut j = pos.1;
    if delta > 0 {
        let ghost target = forward_base(hs, pos) + delta;
        let mut rem: usize = delta as usize;
        loop
            invariant_except_break
                heights@ == hs,
                n == hs.len(),
                heights_ok(hs),
                i < n,
                rows_before(hs, i as int) + (if j < hs[i as int] { j as int } else { hs[i as int] as int }) + rem == target,
                total == rows_before(hs, n as int),
            ensures
                pos_valid(hs, (i, j)),
                row_of(hs, (i, j)) == (if target < total { target } else { total - 1 }),
            decreases n - i,
        {
            proof {
                lemma_rows_before_step(hs, i as int + 1);
                lemma_rows_before_mono(hs, i as int + 1, n as int);
            }
            let h = heights[i];
            let rows_left = if h > j { h - j } else { 0 };
            if rem < rows_left {
                j = j + rem;
                break;
            }
            rem = rem - rows_left;
            i = i + 1;
            j = 0;
            if i >= n {
                i = n - 1;
                j = heights[i] - 1;
                proof {
                    lemma_rows_before_step(hs, n as int);
                }
                break;
            }
        }
        proof {
            let t = if target < total { target } else { total - 1 };
            lemma_locate_is(hs, (i, j), t);
        }
    } else {
        let ghost target = row_of(hs, pos) + delta;
        let mut rem: usize = if delta == isize::MIN { (isize::MAX as usize) + 1 } else { (-delta) as usize };
        assert(rem == -delta);
        let ghost first = true;
        loop
            invariant_except_break
                heights@ == hs,
                n == hs.len(),
                heights_ok(hs),
                i < n,
                rows_before(hs, i as int) + j - rem == target,
                !first ==> j < hs[i as int],
                first ==> i == pos.0 && j == pos.1 && rem == -delta,
                !first ==> -delta > pos.1,
            ensures
                !first ==> -delta > pos.1,
                first ==> i == pos.0 && j == pos.1 + delta,
                !first ==> pos_valid(hs, (i, j)) && row_of(hs, (i, j)) == (if target > 0 { target } else { 0 }),
                first ==> rem <= pos.1,
            decreases i,
        {
            proof {
                lemma_rows_before_mono(hs, 0, i as int);
            }
            if rem <= j {
                j = j - rem;
                break;
            }
            let ghost before = rows_before(hs, i as int) + j - rem;
            rem = rem - (j + 1);
            if i == 0 {
                assert(hs[0] >= 1);
                assert(before < 0);
                i = 0;
                j = 0;
                proof {
                    first = false;
                }
                break;
            }
            i = i - 1;
            proof {
                lemma_rows_before_step(hs, i as int + 1);
            }
            j = heights[i] - 1;
            proof {
                first = false;
            }
        }
        proof {
            if !first {
                let t = if target > 0 { target } else { 0 };
                lemma_locate_is(hs, (i, j), t);
            }
        }
    }
    (i, j)
}

/// One more pair adds its rows.
proof fn lemma_rows_before_step(hs: Seq<usize>, k: int)
    requires
        0 < k <= hs.len(),
    ensures
        rows_before(hs, k) == rows_before(hs, k - 1) + hs[k - 1],
{
}

/// More pairs, no fewer rows; strictly more when every pair has a row.
proof fn lemma_rows_before_mono(hs: Seq<usize>, a: int, b: int)
    requires
        0 <= a <= b <= hs.len(),
        heights_ok(hs),
    ensures
        rows_before(hs, a) + (b - a) <= rows_before(hs, b),
    decreases b - a,
{
    if a < b {
        lemma_rows_before_mono(hs, a, b - 1);
    }
}

/// A position that names `row` is the one `locate` picks.
proof fn lemma_locate_is(hs: Seq<usize>, p: (usize, usize), row: int)
    requires
        heights_ok(hs),
        pos_valid(hs, p),
        row_of(hs, p) == row,
    ensures
        locate(hs, row) == p,
{
    let c = locate(hs, row);
    assert(pos_valid(hs, c) && row_of(hs, c) == row);
    lemma_row_names_one_position(hs, c, p);
}

/// Some pair at or after `k` holds `row`.
proof fn lemma_row_in_some_pair(hs: Seq<usize>, k: int, row: int)
    requires
        heights_ok(hs),
        hs.len() <= usize::MAX,
        0 <= k < hs.len(),
        rows_before(hs, k) <= row < rows_before(hs, hs.len() as int),
    ensures
        exists|p: (usize, usize)| pos_valid(hs, p) && row_of(hs, p) == row,
    decreases hs.len() - k,
{
    lemma_rows_before_step(hs, k + 1);
    if row < rows_before(hs, k + 1) {
        let p = (k as usize, (row - rows_before(hs, k)) as usize);
        assert(pos_valid(hs, p) && row_of(hs, p) == row);
    } else {
        if k + 1 == hs.len() {
            assert(false);
        }
        lemma_row_in_some_pair(hs, k + 1, row);
    }
}

/// Every row of the diff has a position.
proof fn lemma_locate_exists(hs: Seq<usize>, row: int)
    requires
        heights_ok(hs),
        hs.len() <= usize::MAX,
        0 <= row < rows_before(hs, hs.len() as int),
    ensures
        pos_valid(hs, locate(hs, row)),
        row_of(hs, locate(hs, row)) == row,
{
    if hs.len() == 0 {
        assert(false);
    }
    lemma_row_in_some_pair(hs, 0, row);
}

/// Scrolling down `d` rows and then up `d` rows comes back to the same
/// position, when the way down stopped short of the last row.
pub proof fn lemma_scroll_down_then_up(heights: Seq<usize>, pos: (usize, usize), d: int)
    requires
        heights_ok(heights),
        heights.len() <= usize::MAX,
        pos_valid(heights, pos),
        d > 0,
        row_of(heights, pos) + d < rows_before(heights, heights.len() as int),
    ensures
        scroll_result(heights, scroll_result(heights, pos, d), -d) == pos,
{
    let t = row_of(heights, pos) + d;
    lemma_rows_before_mono(heights, 0, pos.0 as int);
    lemma_locate_exists(heights, t);
    let q = scroll_result(heights, pos, d);
    assert(q == locate(heights, t));
    if d <= q.1 {
        let back = (q.0, (q.1 - d) as usize);
        lemma_row_names_one_position(heights, back, pos);
    } else {
        lemma_locate_is(heights, pos, row_of(heights, pos));
    }
}

/// For positions that exist, the row order is the order of positions
/// (pair first, then sub-row).
pub proof fn lemma_row_order_is_position_order(heights: Seq<usize>, p: (usize, usize), q: (usize, usize))
    requires
        heights_ok(heights),
        pos_valid(heights, p),
        pos_valid(heights, q),
        row_of(heights, p) <= row_of(heights, q),
    ensures
        p.0 < q.0 || (p.0 == q.0 && p.1 <= q.1),
{
    if p.0 > q.0 {
        lemma_rows_before_mono(heights, q.0 as int + 1, p.0 as int);
        lemma_rows_before_step(heights, q.0 as int + 1);
    }
}

/// A scroll moves in its own direction: down (or not at all) for a
/// positive `delta`, up (or not at all) for a negative one, and stays on a
/// row that exists.
pub proof fn lemma_scroll_monotonic(heights: Seq<usize>, pos: (usize, usize), delta: int)
    requires
        heights_ok(heights),
        heights.len() <= usize::MAX,
        pos_valid(heights, pos),
    ensures
        pos_valid(heights, scroll_result(heights, pos, delta)),
        delta == 0 ==> scroll_result(heights, pos, delta) == pos,
        delta > 0 ==> (pos.0 < scroll_result(heights, pos, delta).0
            || (pos.0 == scroll_result(heights, pos, delta).0 && pos.1 <= scroll_result(heights, pos, delta).1)),
        delta < 0 ==> (scroll_result(heights, pos, delta).0 < pos.0
            || (scroll_result(heights, pos, delta).0 == pos.0 && scroll_result(heights, pos, delta).1 <= pos.1)),
{
    let total = rows_before(heights, heights.len() as int);
    let row = row_of(heights, pos);
    lemma_rows_before_mono(heights, 0, pos.0 as int);
    lemma_rows_before_step(heights, pos.0 as int + 1);
    lemma_rows_before_mono(heights, pos.0 as int + 1, heights.len() as int);
    assert(row < total);
    let r = scroll_result(heights, pos, delta);
    if delta > 0 {
        let t = if row + delta < total { row + delta } else { total - 1 };
        lemma_locate_exists(heights, t);
        lemma_row_order_is_position_order(heights, pos, r);
    } else if delta < 0 {
        if -delta <= pos.1 {
        } else {
            let t = if row + delta > 0 { row + delta } else { 0 };
            lemma_locate_exists(heights, t);
            lemma_row_order_is_position_order(heights, r, pos);
        }
    }
}

/// A body row is `lw` cells, the divider, then `rw` cells.
pub open spec fn row_shaped(row: Seq<Cell>, lw: int, rw: int) -> bool {
    row.len() == lw + 1 + rw && row[lw] == divider_spec()
}

proof fn lemma_pair_row_shape(pair: DiffPair, l: Seq<Seq<Cell>>, r: Seq<Seq<Cell>>, k: int, lw: int, rw: int)
    requires
        lw >= 0,
        rw >= 0,
    ensures
        row_shaped(pair_row(pair, l, r, k, lw, rw), lw, rw),
{
    let a = mark(pad_row(side_row(l, k), lw), pair.left is Some, k, pair.class);
    let b = mark(pad_row(side_row(r, k), rw), pair.right is Some, k, pair.class);
    assert(pad_row(side_row(l, k), lw).len() == lw);
    assert(pad_row(side_row(r, k), rw).len() == rw);
    assert(a.len() == lw);
    assert(b.len() == rw);
    assert((a + seq![divider_spec()] + b)[lw] == divider_spec());
}

proof fn lemma_rows_from_shape(parts: Seq<(DiffPair, Seq<Seq<Cell>>, Seq<Seq<Cell>>)>, p0: int, sub: int, p: int, lw: int, rw: int)
    requires
        lw >= 0,
        rw >= 0,
    ensures
        forall|i: int| 0 <= i < rows_from(parts, p0, sub, p, lw, rw).len()
            ==> row_shaped(#[trigger] rows_from(parts, p0, sub, p, lw, rw)[i], lw, rw),
    decreases p - p0,
{
    if p > p0 {
        lemma_rows_from_shape(parts, p0, sub, p - 1, lw, rw);
        let q = parts[p - 1];
        let from = if p - 1 == p0 { sub } else { 0 };
        let prev = rows_from(parts, p0, sub, p - 1, lw, rw);
        let body = pair_body(q.0, q.1, q.2, from, lw, rw);
        assert forall|i: int| 0 <= i < body.len() implies row_shaped(#[trigger] body[i], lw, rw) by {
            lemma_pair_row_shape(q.0, q.1, q.2, from + i, lw, rw);
        }
        let all = prev + body;
        assert forall|i: int| 0 <= i < all.len() implies row_shaped(#[trigger] all[i], lw, rw) by {
            if i < prev.len() {
                assert(all[i] == prev[i]);
            } else {
                assert(all[i] == body[i - prev.len()]);
            }
        }
    }
}

/// The body has exactly `body_rows` rows, each `lw` cells, the divider and
/// `rw` cells, whatever the pairs and the scroll position.
pub proof fn lemma_body_shape(parts: Seq<(DiffPair, Seq<Seq<Cell>>, Seq<Seq<Cell>>)>, pos: (int, int), lw: int, rw: int, body_rows: int)
    requires
        lw >= 0,
        rw >= 0,
        body_rows >= 0,
    ensures
        body_spec(parts, pos, lw, rw, body_rows).len() == body_rows,
        forall|i: int| 0 <= i < body_rows ==> row_shaped(#[trigger] body_spec(parts, pos, lw, rw, body_rows)[i], lw, rw),
{
    let all = rows_from(parts, pos.0, pos.1, parts.len() as int, lw, rw);
    lemma_rows_from_shape(parts, pos.0, pos.1, parts.len() as int, lw, rw);
    let shown = if all.len() > body_rows { all.take(body_rows) } else { all };
    let fill = Seq::new((body_rows - shown.len()) as nat, |i: int| filler_row(lw, rw));
    let b = body_spec(parts, pos, lw, rw, body_rows);
    assert(b == shown + fill);
    let f = filler_row(lw, rw);
    assert(pad_row(Seq::<Cell>::empty(), lw).len() == lw);
    assert(pad_row(Seq::<Cell>::empty(), rw).len() == rw);
    assert(row_shaped(f, lw, rw));
    assert forall|i: int| 0 <= i < body_rows implies row_shaped(#[trigger] b[i], lw, rw) by {
        if i < shown.len() {
            assert(b[i] == shown[i]);
            assert(shown[i] == all[i]);
        } else {
            assert(b[i] == fill[i - shown.len()]);
        }
    }
}

/// A row of the diff is named by one position only.
pub proof fn lemma_row_names_one_position(heights: Seq<usize>, p: (usize, usize), q: (usize, usize))
    requires
        heights_ok(heights),
        pos_valid(heights, p),
        pos_valid(heights, q),
        row_of(heights, p) == row_of(heights, q),
    ensures
        p == q,
{
    if p.0 < q.0 {
        lemma_rows_before_mono(heights, p.0 as int + 1, q.0 as int);
    } else if q.0 < p.0 {
        lemma_rows_before_mono(heights, q.0 as int + 1, p.0 as int);
    }
}


} // verus!
