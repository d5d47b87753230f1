//! xxd-style hex dump rendering. One row = 16 bytes, with offset prefix
//! and ASCII gutter.

use vstd::prelude::*;
use crate::text::{hex_digit, hex_of, pad_left, radix_chars, string_of, hex_digit_char};

verus! {

/// Group sizes (in bytes) a hex row can be split into.
pub open spec fn valid_group(bytes_per_group: nat) -> bool {
    bytes_per_group == 1 || bytes_per_group == 2 || bytes_per_group == 4
        || bytes_per_group == 8 || bytes_per_group == 16
}

/// Two lower-case hex digits of a byte (`{:02x}`).
pub open spec fn byte_hex(b: u8) -> Seq<char> {
    seq![hex_digit((b / 16) as nat), hex_digit((b % 16) as nat)]
}

/// The hex-column text contributed by byte slot `i` of a row: a group
/// separator space before each group but the first, then the byte's two hex
/// digits, or two spaces past the end of a short row.
pub open spec fn hex_cell(bytes: Seq<u8>, bytes_per_group: nat, i: nat) -> Seq<char> {
    let sep: Seq<char> = if i > 0 && i % bytes_per_group == 0 { seq![' '] } else { seq![] };
    sep + if i < bytes.len() { byte_hex(bytes[i as int]) } else { seq![' ', ' '] }
}

/// Hex-column text of the first `n` byte slots.
pub open spec fn hex_cells(bytes: Seq<u8>, bytes_per_group: nat, n: nat) -> Seq<char>
    decreases n,
{
    if n == 0 {
        seq![]
    } else {
        hex_cells(bytes, bytes_per_group, (n - 1) as nat) + hex_cell(bytes, bytes_per_group, (n - 1) as nat)
    }
}

/// How a byte shows in the ASCII gutter: printable ASCII as itself, else `.`.
pub open spec fn gutter_char(b: u8) -> char {
    if 0x20 <= b && b <= 0x7e { b as char } else { '.' }
}

pub open spec fn gutter(bytes: Seq<u8>) -> Seq<char> {
    bytes.map_values(|b: u8| gutter_char(b))
}

/// The full row: 8+ hex digit offset, `": "`, the 16 hex slots, two spaces,
/// then the ASCII gutter.
pub open spec fn hex_row(offset: nat, bytes: Seq<u8>, bytes_per_group: nat) -> Seq<char> {
    pad_left(hex_of(offset), 8, '0') + seq![':', ' '] + hex_cells(bytes, bytes_per_group, 16)
        + seq![' ', ' '] + gutter(bytes)
}

/// Format one row of a hex dump.
///
/// Layout: `<8-hex-digit offset>: <hex bytes grouped by bytes_per_group> <ASCII gutter>`.
/// `bytes_per_group` must be one of 1, 2, 4, 8, 16; a row holds at most 16
/// bytes. Short rows are padded so the gutter stays column-aligned; offsets
/// wider than 8 hex digits print in full; non-printable bytes show as `.`.
pub fn format_hex_row(offset: usize, bytes: &[u8], bytes_per_group: usize) -> (row: String)
    requires
        bytes@.len() <= 16,
        valid_group(bytes_per_group as nat),
    ensures
        row@ == hex_row(offset as nat, bytes@, bytes_per_group as nat),
{
    let mut out: Vec<char> = radix_chars(offset as u64, 16, 8);
    out.push(':');
    out.push(' ');
    let ghost head = out@;
    let mut i: usize = 0;
    while i < 16
        invariant
            i <= 16,
            bytes@.len() <= 16,
            valid_group(bytes_per_group as nat),
            out@ == head + hex_cells(bytes@, bytes_per_group as nat, i as nat),
        decreases 16 - i,
    {
        let ghost before = out@;
        if i > 0 && i % bytes_per_group == 0 {
            out.push(' ');
        }
        if i < bytes.len() {
            let b = bytes[i];
            out.push(hex_digit_char(b / 16));
            out.push(hex_digit_char(b % 16));
        } else {
            out.push(' ');
            out.push(' ');
        }
        assert(out@ =~= before + hex_cell(bytes@, bytes_per_group as nat, i as nat));
        i = i + 1;
    }
    out.push(' ');
    out.push(' ');
    let ghost mid = out@;
    let mut j: usize = 0;
    while j < bytes.len()
        invariant
            j <= bytes@.len(),
            out@ == mid + gutter(bytes@.take(j as int)),
        decreases bytes@.len() - j,
    {
        let b = bytes[j];
        let c = if 0x20 <= b && b <= 0x7e { b as char } else { '.' };
        out.push(c);
        assert(gutter(bytes@.take(j + 1)) =~= gutter(bytes@.take(j as int)).push(c));
        j = j + 1;
    }
    assert(bytes@.take(bytes@.len() as int) =~= bytes@);
    string_of(out.as_slice())
}

/// Translate a user-facing "hex chars per group" value (2/4/8/16/32) to the
/// internal bytes-per-group unit (1/2/4/8/16). `None` for any other input.
pub fn hex_chars_to_bytes_per_group(hex_chars: usize) -> (r: Option<usize>)
    ensures
        r == (if hex_chars == 2 || hex_chars == 4 || hex_chars == 8 || hex_chars == 16
            || hex_chars == 32 {
            Some(hex_chars / 2)
        } else {
            None::<usize>
        }),
        r matches Some(g) ==> valid_group(g as nat),
{
    match hex_chars {
        2 => Some(1),
        4 => Some(2),
        8 => Some(4),
        16 => Some(8),
        32 => Some(16),
        _ => None,
    }
}

proof fn lemma_hex_cells_len(a: Seq<u8>, b: Seq<u8>, g: nat, n: nat)
    ensures
        hex_cells(a, g, n).len() == hex_cells(b, g, n).len(),
    decreases n,
{
    if n > 0 {
        lemma_hex_cells_len(a, b, g, (n - 1) as nat);
    }
}

/// The ASCII gutter of every row printed at the same offset width starts at
/// the same column, however many bytes the row holds: short rows line up
/// with full ones.
pub proof fn lemma_gutter_column_aligned(
    offset_a: nat,
    bytes_a: Seq<u8>,
    offset_b: nat,
    bytes_b: Seq<u8>,
    bytes_per_group: nat,
)
    requires
        hex_of(offset_a).len() <= 8,
        hex_of(offset_b).len() <= 8,
    ensures
        hex_row(offset_a, bytes_a, bytes_per_group).len() - bytes_a.len()
            == hex_row(offset_b, bytes_b, bytes_per_group).len() - bytes_b.len(),
        hex_row(offset_a, bytes_a, bytes_per_group).subrange(
            hex_row(offset_a, bytes_a, bytes_per_group).len() - bytes_a.len(),
            hex_row(offset_a, bytes_a, bytes_per_group).len() as int,
        ) == gutter(bytes_a),
{
    lemma_hex_cells_len(bytes_a, bytes_b, bytes_per_group, 16);
    let ra = hex_row(offset_a, bytes_a, bytes_per_group);
    assert(ra.subrange(ra.len() - bytes_a.len(), ra.len() as int) =~= gutter(bytes_a));
}

/// The group separators among the first `n` byte slots.
spec fn separators(g: nat, n: nat) -> nat
    decreases n,
{
    if n == 0 {
        0
    } else {
        separators(g, (n - 1) as nat) + if n - 1 > 0 && (n - 1) as nat % g == 0 { 1nat } else { 0nat }
    }
}

proof fn lemma_hex_cells_count(b: Seq<u8>, g: nat, n: nat)
    ensures
        hex_cells(b, g, n).len() == 2 * n + separators(g, n),
    decreases n,
{
    if n > 0 {
        lemma_hex_cells_count(b, g, (n - 1) as nat);
    }
}

/// The layout of a row: its length, the two spaces before the ASCII
/// gutter, and the gutter itself at column `43 + 16 / bytes_per_group`,
/// which depends on the group size only.
pub proof fn lemma_hex_row_layout(offset: nat, bytes: Seq<u8>, bytes_per_group: nat)
    requires
        valid_group(bytes_per_group),
        hex_of(offset).len() <= 8,
    ensures
        ({
            let row = hex_row(offset, bytes, bytes_per_group);
            let g: int = (43 + 16nat / bytes_per_group) as int;
            &&& row.len() == g + bytes.len()
            &&& row.take(10) == pad_left(hex_of(offset), 8, '0') + seq![':', ' ']
            &&& row.subrange(g - 2, g as int) == seq![' ', ' ']
            &&& row.skip(g as int) == gutter(bytes)
        }),
{
    lemma_hex_cells_count(bytes, bytes_per_group, 16);
    let g = bytes_per_group;
    assert(separators(g, 16) + 1 == 16nat / g) by {
        reveal_with_fuel(separators, 17);
        if g == 1 {
            assert(separators(1, 16) == 15);
        } else if g == 2 {
            assert(separators(2, 16) == 7);
        } else if g == 4 {
            assert(separators(4, 16) == 3);
        } else if g == 8 {
            assert(separators(8, 16) == 1);
        } else {
            assert(separators(16, 16) == 0);
        }
    }
    let head = pad_left(hex_of(offset), 8, '0');
    assert(head.len() == 8);
    let row = hex_row(offset, bytes, bytes_per_group);
    let col: int = (43 + 16nat / g) as int;
    assert(row.take(10) =~= head + seq![':', ' ']);
    assert(row.subrange(col - 2, col as int) =~= seq![' ', ' ']);
    assert(row.skip(col as int) =~= gutter(bytes));
}

} // verus!
