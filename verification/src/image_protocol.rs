//! Terminal-graphics encoding of an RGBA raster: base64, the Kitty
//! graphics protocol's chunked "transmit and display" command, and Sixel.

use vstd::prelude::*;
use crate::image_render::RgbaImage;
use crate::text::{decimal_chars, decimal_of, push_chars, string_of, utf8_of};

verus! {

/// The base64 alphabet (RFC 4648).
pub open spec fn b64_char(v: int) -> char {
    if v < 26 {
        ('A' as int + v) as char
    } else if v < 52 {
        ('a' as int + v - 26) as char
    } else if v < 62 {
        ('0' as int + v - 52) as char
    } else if v == 62 {
        '+'
    } else {
        '/'
    }
}

/// The four characters of one group of up to three bytes, `=`-padded.
pub open spec fn b64_group(b: Seq<u8>) -> Seq<char> {
    let b0 = b[0] as int;
    let b1 = if b.len() > 1 { b[1] as int } else { 0 };
    let b2 = if b.len() > 2 { b[2] as int } else { 0 };
    let n = b0 * 65536 + b1 * 256 + b2;
    seq![
        b64_char((n / 262144) % 64),
        b64_char((n / 4096) % 64),
        if b.len() > 1 { b64_char((n / 64) % 64) } else { '=' },
        if b.len() > 2 { b64_char(n % 64) } else { '=' },
    ]
}

/// Standard base64 with `=` padding.
pub open spec fn base64(b: Seq<u8>) -> Seq<char>
    decreases b.len(),
{
    if b.len() == 0 {
        seq![]
    } else if b.len() <= 3 {
        b64_group(b)
    } else {
        b64_group(b.take(3)) + base64(b.skip(3))
    }
}

fn b64_digit(v: u32) -> (c: char)
    requires
        v < 64,
    ensures
        c == b64_char(v as int),
{
    let u: u8 = if v < 26 {
        65 + v as u8
    } else if v < 52 {
        97 + (v - 26) as u8
    } else if v < 62 {
        48 + (v - 52) as u8
    } else if v == 62 {
        43
    } else {
        47
    };
    u as char
}

/// Standard base64 (RFC 4648) with `=` padding.
pub fn base64_encode(bytes: &[u8]) -> (s: String)
    ensures
        s@ == base64(bytes@),
{
    let mut out: Vec<char> = Vec::new();
    let mut i: usize = 0;
    let n = bytes.len();
    assert(bytes@.skip(0) =~= bytes@);
    while i < n
        invariant
            n == bytes@.len(),
            i <= n,
            base64(bytes@) == out@ + base64(bytes@.skip(i as int)),
        decreases n - i,
    {
        let ghost rest = bytes@.skip(i as int);
        let left = n - i;
        let b0 = bytes[i] as u32;
        let b1 = if left > 1 { bytes[i + 1] as u32 } else { 0 };
        let b2 = if left > 2 { bytes[i + 2] as u32 } else { 0 };
        let v = b0 * 65536 + b1 * 256 + b2;
        let ghost o = out@;
        out.push(b64_digit((v / 262144) % 64));
        out.push(b64_digit((v / 4096) % 64));
        out.push(if left > 1 { b64_digit((v / 64) % 64) } else { '=' });
        out.push(if left > 2 { b64_digit(v % 64) } else { '=' });
        proof {
            let g = if rest.len() <= 3 { rest } else { rest.take(3) };
            assert(g[0] == bytes@[i as int]);
            if left > 1 { assert(g[1] == bytes@[i + 1]); }
            if left > 2 { assert(g[2] == bytes@[i + 2]); }
            assert(out@ =~= o + b64_group(g));
            if left <= 3 {
                assert(base64(rest) == b64_group(rest));
                assert(bytes@.skip(n as int) =~= seq![]);
            } else {
                assert(rest.skip(3) =~= bytes@.skip(i + 3));
            }
        }
        if left <= 3 {
            i = n;
        } else {
            i = i + 3;
        }
    }
    assert(bytes@.skip(n as int) =~= seq![]);
    assert(out@ + seq![] =~= out@);
    string_of(out.as_slice())
}

/// The bytes of ASCII text.
pub open spec fn ascii_bytes(s: Seq<char>) -> Seq<u8> {
    Seq::new(s.len(), |i: int| s[i] as u8)
}

/// The keys of chunk `k`: the first carries `a=T,f=32,s=W,v=H`, and every
/// one says whether more chunks follow.
pub open spec fn kitty_keys(k: nat, w: u32, h: u32, more: nat) -> Seq<char> {
    if k == 0 {
        "a=T,f=32,s="@ + decimal_of(w as nat) + ",v="@ + decimal_of(h as nat) + ",m="@ + decimal_of(more)
    } else {
        "m="@ + decimal_of(more)
    }
}

/// End of chunk `k` of a payload of `len` characters (4096 per chunk).
pub open spec fn chunk_end(len: int, k: nat) -> int {
    if k * 4096 + 4096 <= len { (k * 4096 + 4096) as int } else { len }
}

/// Chunk `k` of the payload as one command: `ESC _ G keys ; chunk ESC \`.
pub open spec fn kitty_chunk(payload: Seq<u8>, w: u32, h: u32, k: nat) -> Seq<u8> {
    let end = chunk_end(payload.len() as int, k);
    let more: nat = if end < payload.len() { 1 } else { 0 };
    seq![0x1bu8, 0x5fu8, 0x47u8] + ascii_bytes(kitty_keys(k, w, h, more)) + seq![0x3bu8]
        + payload.subrange((k * 4096) as int, end) + seq![0x1bu8, 0x5cu8]
}

/// The commands for a base64 payload, from chunk `k` on.
pub open spec fn kitty_chunks(payload: Seq<u8>, w: u32, h: u32, k: nat) -> Seq<u8>
    decreases payload.len() + 4096 - k * 4096,
{
    if k * 4096 >= payload.len() {
        seq![]
    } else {
        kitty_chunk(payload, w, h, k) + kitty_chunks(payload, w, h, k + 1)
    }
}

/// The Kitty graphics-protocol "transmit and display" command for an image
/// (format 32, RGBA), its base64 payload chunked at 4096 characters.
pub open spec fn kitty_command(img: RgbaImage) -> Seq<u8> {
    kitty_chunks(ascii_bytes(base64(img.data@)), img.width, img.height, 0)
}

pub open spec fn is_ascii_text(s: Seq<char>) -> bool {
    forall|i: int| 0 <= i < s.len() ==> (#[trigger] s[i] as u32) < 128
}

proof fn lemma_decimal_ascii(n: nat)
    ensures
        is_ascii_text(decimal_of(n)),
    decreases n,
{
    if n >= 10 {
        lemma_decimal_ascii(n / 10);
        assert(decimal_of(n) == decimal_of(n / 10).push(crate::text::hex_digit(n % 10)));
    }
}

fn push_ascii(out: &mut Vec<u8>, s: &[char])
    requires
        is_ascii_text(s@),
    ensures
        final(out)@ == old(out)@ + ascii_bytes(s@),
{
    let ghost o = out@;
    let mut i: usize = 0;
    while i < s.len()
        invariant
            i <= s@.len(),
            is_ascii_text(s@),
            out@ == o + ascii_bytes(s@.take(i as int)),
        decreases s@.len() - i,
    {
        let c = s[i];
        assert((c as u32) < 128);
        out.push(c as u8);
        assert(ascii_bytes(s@.take(i + 1)) =~= ascii_bytes(s@.take(i as int)).push(c as u8));
        i = i + 1;
    }
    assert(s@.take(s@.len() as int) =~= s@);
}

fn push_number(out: &mut Vec<u8>, n: u64)
    ensures
        final(out)@ == old(out)@ + ascii_bytes(decimal_of(n as nat)),
{
    let d = decimal_chars(n);
    proof {
        lemma_decimal_ascii(n as nat);
    }
    push_ascii(out, d.as_slice());
}

fn push_kitty_keys(out: &mut Vec<u8>, k: usize, w: u32, h: u32, more: u64)
    requires
        more <= 1,
    ensures
        final(out)@ == old(out)@ + ascii_bytes(kitty_keys(k as nat, w, h, more as nat)),
{
    let ghost o1 = out@;
    if k == 0 {
        let lead = ['a', '=', 'T', ',', 'f', '=', '3', '2', ',', 's', '='];
        push_ascii(out, lead.as_slice());
        push_number(out, w as u64);
        let v = [',', 'v', '='];
        push_ascii(out, v.as_slice());
        push_number(out, h as u64);
        let m = [',', 'm', '='];
        push_ascii(out, m.as_slice());
        push_number(out, more);
        proof {
            reveal_strlit("a=T,f=32,s=");
            reveal_strlit(",v=");
            reveal_strlit(",m=");
            assert(lead@ =~= "a=T,f=32,s="@);
            assert(v@ =~= ",v="@);
            assert(m@ =~= ",m="@);
            let keys = kitty_keys(k as nat, w, h, more as nat);
            assert(ascii_bytes(keys) =~= ascii_bytes("a=T,f=32,s="@) + ascii_bytes(decimal_of(w as nat))
                + ascii_bytes(",v="@) + ascii_bytes(decimal_of(h as nat)) + ascii_bytes(",m="@)
                + ascii_bytes(decimal_of(more as nat)));
            assert(out@ =~= o1 + ascii_bytes(keys));
        }
    } else {
        let m = ['m', '='];
        push_ascii(out, m.as_slice());
        push_number(out, more);
        proof {
            reveal_strlit("m=");
            assert(m@ =~= "m="@);
            let keys = kitty_keys(k as nat, w, h, more as nat);
            assert(ascii_bytes(keys) =~= ascii_bytes("m="@) + ascii_bytes(decimal_of(more as nat)));
            assert(out@ =~= o1 + ascii_bytes(keys));
        }
    }
}

fn push_kitty_chunk(out: &mut Vec<u8>, payload: &Vec<u8>, k: usize, w: u32, h: u32)
    requires
        k * 4096 < payload@.len(),
    ensures
        final(out)@ == old(out)@ + kitty_chunk(payload@, w, h, k as nat),
{
    let n = payload.len();
    let start = k * 4096;
    let end = if n - start >= 4096 { start + 4096 } else { n };
    assert(end == chunk_end(n as int, k as nat));
    let more: u64 = if end < n { 1 } else { 0 };
    let ghost o = out@;
    out.push(0x1b);
    out.push(0x5f);
    out.push(0x47);
    push_kitty_keys(out, k, w, h, more);
    out.push(0x3b);
    let ghost o2 = out@;
    let mut j = start;
    while j < end
        invariant
            start <= j <= end <= n,
            n == payload@.len(),
            out@ == o2 + payload@.subrange(start as int, j as int),
        decreases end - j,
    {
        out.push(payload[j]);
        assert(payload@.subrange(start as int, j + 1) =~= payload@.subrange(start as int, j as int).push(payload@[j as int]));
        j = j + 1;
    }
    out.push(0x1b);
    out.push(0x5c);
    assert(out@ =~= o + kitty_chunk(payload@, w, h, k as nat));
}

/// Encode an image as a Kitty graphics-protocol "transmit and display"
/// command.
pub fn encode_kitty(img: &RgbaImage) -> (out: Vec<u8>)
    ensures
        out@ == kitty_command(*img),
{
    let payload = base64_encode(img.as_raw());
    let pc = crate::text::chars_of(payload.as_str());
    proof {
        lemma_base64_ascii(img.data@);
    }
    let mut bytes: Vec<u8> = Vec::new();
    push_ascii(&mut bytes, pc.as_slice());
    let ghost pb = bytes@;
    let mut out: Vec<u8> = Vec::new();
    let n = bytes.len();
    let mut k: usize = 0;
    assert(out@ + kitty_chunks(pb, img.width, img.height, 0) =~= kitty_chunks(pb, img.width, img.height, 0));
    while k < n / 4096 + 1 && k * 4096 < n
        invariant
            n == pb.len(),
            bytes@ == pb,
            k <= n / 4096 + 1,
            kitty_command(*img) == out@ + kitty_chunks(pb, img.width, img.height, k as nat),
        decreases n / 4096 + 1 - k,
    {
        let ghost o = out@;
        push_kitty_chunk(&mut out, &bytes, k, img.width, img.height);
        assert(o + kitty_chunks(pb, img.width, img.height, k as nat)
            =~= o + kitty_chunk(pb, img.width, img.height, k as nat) + kitty_chunks(pb, img.width, img.height, (k + 1) as nat));
        k = k + 1;
    }
    assert(k * 4096 >= n) by (nonlinear_arith)
        requires
            !(k < n / 4096 + 1 && k * 4096 < n),
            k <= n / 4096 + 1,
    ;
    assert(out@ + Seq::<u8>::empty() =~= out@);
    out
}

proof fn lemma_base64_ascii(b: Seq<u8>)
    ensures
        is_ascii_text(base64(b)),
    decreases b.len(),
{
    if b.len() > 3 {
        lemma_base64_ascii(b.skip(3));
    }
}

// ---------------------------------------------------------------------------
// Sixel.
// ---------------------------------------------------------------------------

/// Each palette index's number in the stream: indices are numbered in the
/// order they first occur among the pixels (`None` for unused ones),
/// with the count of numbers given.
pub open spec fn rank_scan(q: Seq<u8>) -> (Seq<Option<nat>>, nat)
    decreases q.len(),
{
    if q.len() == 0 {
        (Seq::new(256, |i: int| None::<nat>), 0nat)
    } else {
        let (m, c) = rank_scan(q.drop_last());
        let v = q.last() as int;
        if m[v] is None { (m.update(v, Some(c)), c + 1) } else { (m, c) }
    }
}

/// A color channel in percent, rounded down.
pub open spec fn percent(v: u8) -> nat {
    (v as nat * 100) / 255
}

/// The palette definitions of indices `[0, k)`, in index order: for each
/// used index, `#n;2;r;g;b` with its number and its color in percent.
pub open spec fn palette_text(ranks: Seq<Option<nat>>, palette: Seq<(u8, u8, u8)>, k: int) -> Seq<char>
    decreases k,
{
    if k <= 0 {
        seq![]
    } else {
        palette_text(ranks, palette, k - 1) + match ranks[k - 1] {
            None => seq![],
            Some(p) => seq!['#'] + decimal_of(p) + seq![';', '2', ';'] + decimal_of(percent(palette[k - 1].0))
                + seq![';'] + decimal_of(percent(palette[k - 1].1)) + seq![';'] + decimal_of(percent(palette[k - 1].2)),
        }
    }
}

/// The value of bit `k` of a six-bit mask.
pub open spec fn bit_weight(k: int) -> nat {
    if k == 0 { 1 } else if k == 1 { 2 } else if k == 2 { 4 } else if k == 3 { 8 } else if k == 4 { 16 } else { 32 }
}

/// The six-row column mask of color `idx` at column `x` of band `band`:
/// bit `r` set when row `6 * band + r` exists and holds `idx` (the first
/// `k` bits).
pub open spec fn column_bits(w: int, h: int, q: Seq<u8>, band: int, x: int, idx: int, k: int) -> nat
    decreases k,
{
    if k <= 0 {
        0
    } else {
        let y = 6 * band + (k - 1);
        column_bits(w, h, q, band, x, idx, k - 1) + if y < h && q[y * w + x] as int == idx { bit_weight(k - 1) } else { 0 }
    }
}

/// The column masks of color `idx` across band `band`.
pub open spec fn band_values(w: int, h: int, q: Seq<u8>, band: int, idx: int) -> Seq<nat> {
    Seq::new(w as nat, |x: int| column_bits(w, h, q, band, x, idx, 6))
}

/// How far the run of `v` goes from position `k`.
pub open spec fn run_end(s: Seq<nat>, v: nat, k: int) -> int
    decreases s.len() - k,
{
    if k < s.len() && s[k] == v { run_end(s, v, k + 1) } else { k }
}

/// The sixel character of a mask: `0x3F` plus the mask.
pub open spec fn sixel_char(v: nat) -> char {
    (0x3F + v) as char
}

/// Run-length coded masks: a run of three or more as `!n` and the
/// character, shorter runs spelled out.
pub open spec fn rle(s: Seq<nat>) -> Seq<char>
    decreases s.len(),
{
    if s.len() == 0 {
        seq![]
    } else {
        let n = run_end(s, s[0], 1);
        let piece = if n >= 3 {
            seq!['!'] + decimal_of(n as nat) + seq![sixel_char(s[0])]
        } else {
            Seq::new(n as nat, |i: int| sixel_char(s[0]))
        };
        if 1 <= n <= s.len() { piece + rle(s.skip(n)) } else { seq![] }
    }
}

/// The color passes of band `band` for indices `[0, k)`, and whether any
/// was written: each used color with a set bit in the band, `$` between
/// passes, `#n` and its coded masks.
pub open spec fn band_passes(w: int, h: int, q: Seq<u8>, ranks: Seq<Option<nat>>, band: int, k: int) -> (Seq<char>, bool)
    decreases k,
{
    if k <= 0 {
        (seq![], false)
    } else {
        let (t, any) = band_passes(w, h, q, ranks, band, k - 1);
        let vals = band_values(w, h, q, band, k - 1);
        match ranks[k - 1] {
            Some(p) => if exists|x: int| 0 <= x < vals.len() && vals[x] != 0 {
                (t + (if any { seq!['$'] } else { seq![] }) + seq!['#'] + decimal_of(p) + rle(vals), true)
            } else {
                (t, any)
            },
            None => (t, any),
        }
    }
}

/// Bands `[0, b)` of `bands` in all, `-` between them.
pub open spec fn bands_text(w: int, h: int, q: Seq<u8>, ranks: Seq<Option<nat>>, bands: int, b: int) -> Seq<char>
    decreases b,
{
    if b <= 0 {
        seq![]
    } else {
        bands_text(w, h, q, ranks, bands, b - 1) + band_passes(w, h, q, ranks, b - 1, 256).0
            + if b < bands { seq!['-'] } else { seq![] }
    }
}

/// The Sixel stream of a `w` by `h` image given as palette indices: the
/// DCS intro, the palette, the bands, the string terminator.
pub open spec fn sixel_text(w: int, h: int, q: Seq<u8>, palette: Seq<(u8, u8, u8)>) -> Seq<char> {
    if w == 0 || h == 0 {
        seq!['\x1b', 'P', 'q', '\x1b', '\\']
    } else {
        let ranks = rank_scan(q).0;
        seq!['\x1b', 'P', 'q'] + palette_text(ranks, palette, 256)
            + bands_text(w, h, q, ranks, (h + 5) / 6, (h + 5) / 6) + seq!['\x1b', '\\']
    }
}

/// The masks of a band as values.
pub open spec fn masks_view(v: Seq<u8>) -> Seq<nat> {
    v.map_values(|b: u8| b as nat)
}

/// The ranks as values.
pub open spec fn ranks_view(v: Seq<Option<usize>>) -> Seq<Option<nat>> {
    v.map_values(|o: Option<usize>| match o { Some(p) => Some(p as nat), None => None::<nat> })
}

proof fn lemma_column_bits_bound(w: int, h: int, q: Seq<u8>, band: int, x: int, idx: int, k: int)
    requires
        0 <= k <= 6,
    ensures
        k < 6 ==> column_bits(w, h, q, band, x, idx, k) < bit_weight(k),
        column_bits(w, h, q, band, x, idx, k) <= 63,
    decreases k,
{
    if k > 0 {
        lemma_column_bits_bound(w, h, q, band, x, idx, k - 1);
    }
}

/// Positions of a row-major `w` by `h` grid lie inside it.
proof fn lemma_grid_index(w: int, h: int, x: int, y: int)
    requires
        0 <= x < w,
        0 <= y < h,
    ensures
        0 <= y * w + x < w * h,
{
    assert(y * w + x < w * h) by (nonlinear_arith)
        requires 0 <= x < w, 0 <= y < h;
    assert(0 <= y * w) by (nonlinear_arith)
        requires 0 <= x < w, 0 <= y < h;
}

/// The rank of each palette index in order of first occurrence.
fn sixel_ranks(q: &[u8]) -> (r: Vec<Option<usize>>)
    ensures
        ranks_view(r@) == rank_scan(q@).0,
        r@.len() == 256,
{
    let mut ranks: Vec<Option<usize>> = Vec::new();
    let mut k: usize = 0;
    while k < 256
        invariant
            k <= 256,
            ranks@.len() == k,
            forall|j: int| 0 <= j < k ==> ranks@[j] is None,
        decreases 256 - k,
    {
        ranks.push(None);
        k = k + 1;
    }
    assert(ranks_view(ranks@) =~= rank_scan(q@.take(0)).0);
    let mut count: usize = 0;
    let mut i: usize = 0;
    while i < q.len()
        invariant
            i <= q@.len(),
            ranks@.len() == 256,
            count <= i,
            ranks_view(ranks@) == rank_scan(q@.take(i as int)).0,
            count as nat == rank_scan(q@.take(i as int)).1,
        decreases q@.len() - i,
    {
        let ghost before = ranks@;
        assert(q@.take(i + 1).drop_last() =~= q@.take(i as int));
        assert(q@.take(i + 1).last() == q@[i as int]);
        let v = q[i] as usize;
        if ranks[v].is_none() {
            assert(ranks_view(ranks@)[v as int] is None);
            ranks.set(v, Some(count));
            assert(ranks_view(ranks@) =~= ranks_view(before).update(v as int, Some(count as nat)));
            count = count + 1;
        } else {
            assert(ranks_view(ranks@)[v as int] is Some);
        }
        i = i + 1;
    }
    assert(q@.take(q@.len() as int) =~= q@);
    ranks
}

/// `n` in decimal, appended.
fn push_decimal(out: &mut Vec<char>, n: u64)
    ensures
        final(out)@ == old(out)@ + decimal_of(n as nat),
{
    let d = decimal_chars(n);
    push_chars(out, d.as_slice());
}

/// The coded masks, appended.
fn push_rle(out: &mut Vec<char>, vals: &Vec<u8>)
    requires
        forall|k: int| 0 <= k < vals@.len() ==> #[trigger] vals@[k] <= 63,
    ensures
        final(out)@ == old(out)@ + rle(masks_view(vals@)),
{
    let ghost sv = masks_view(vals@);
    let ghost start = out@;
    let n = vals.len();
    let mut x: usize = 0;
    assert(sv.skip(0) =~= sv);
    while x < n
        invariant
            n == vals@.len(),
            sv == masks_view(vals@),
            forall|k: int| 0 <= k < vals@.len() ==> #[trigger] vals@[k] <= 63,
            x <= n,
            out@ + rle(sv.skip(x as int)) == start + rle(sv),
        decreases n - x,
    {
        let ghost t = sv.skip(x as int);
        let v = vals[x];
        assert(t[0] == v as nat);
        let mut run: usize = 1;
        while x + run < n && vals[x + run] == v
            invariant
                n == vals@.len(),
                sv == masks_view(vals@),
                t == sv.skip(x as int),
                x < n,
                1 <= run <= n - x,
                t[0] == v as nat,
                run_end(t, t[0], 1) == run_end(t, t[0], run as int),
            decreases n - x - run,
        {
            assert(t[run as int] == vals@[x + run] as nat);
            run = run + 1;
        }
        assert(run_end(t, t[0], run as int) == run as int) by {
            if (run as int) < t.len() {
                assert(t[run as int] == vals@[x + run] as nat);
            }
        }
        let ghost before = out@;
        let c = (0x3Fu8 + v) as char;
        assert(c == sixel_char(t[0]));
        if run >= 3 {
            out.push('!');
            push_decimal(out, run as u64);
            out.push(c);
            assert(out@ =~= before + (seq!['!'] + decimal_of(run as nat) + seq![sixel_char(t[0])]));
        } else {
            let mut k: usize = 0;
            while k < run
                invariant
                    k <= run,
                    out@ == before + Seq::new(k as nat, |i: int| c),
                decreases run - k,
            {
                out.push(c);
                assert(out@ =~= before + Seq::new((k + 1) as nat, |i: int| c));
                k = k + 1;
            }
        }
        assert(t.skip(run as int) =~= sv.skip(x + run));
        x = x + run;
    }
    assert(sv.skip(n as int) =~= seq![]);
}

/// The column masks of color `idx` across band `band`.
fn band_masks(w: usize, h: usize, q: &[u8], band: usize, idx: u8) -> (v: Vec<u8>)
    requires
        q@.len() == w * h,
        6 * band < h,
    ensures
        masks_view(v@) == band_values(w as int, h as int, q@, band as int, idx as int),
        forall|k: int| 0 <= k < v@.len() ==> #[trigger] v@[k] <= 63,
{
    let base = 6 * band;
    let qn = q.len();
    let mut v: Vec<u8> = Vec::new();
    let mut x: usize = 0;
    while x < w
        invariant
            q@.len() == w * h,
            qn == q@.len(),
            base == 6 * band,
            base < h,
            x <= w,
            v@.len() == x,
            forall|k: int| 0 <= k < x ==> #[trigger] masks_view(v@)[k] == column_bits(w as int, h as int, q@, band as int, k, idx as int, 6),
            forall|k: int| 0 <= k < v@.len() ==> #[trigger] v@[k] <= 63,
        decreases w - x,
    {
        let mut m: u8 = 0;
        let mut r: usize = 0;
        while r < 6
            invariant
                q@.len() == w * h,
                qn == q@.len(),
                base == 6 * band,
                base < h,
                x < w,
                r <= 6,
                m as nat == column_bits(w as int, h as int, q@, band as int, x as int, idx as int, r as int),
            decreases 6 - r,
        {
            proof {
                lemma_column_bits_bound(w as int, h as int, q@, band as int, x as int, idx as int, r as int);
            }
            if r < h - base {
                let y = base + r;
                proof {
                    lemma_grid_index(w as int, h as int, x as int, y as int);
                }
                if q[y * w + x] == idx {
                    let weight: u8 = if r == 0 { 1 } else if r == 1 { 2 } else if r == 2 { 4 } else if r == 3 { 8 } else if r == 4 { 16 } else { 32 };
                    m = m + weight;
                }
            }
            r = r + 1;
        }
        proof {
            lemma_column_bits_bound(w as int, h as int, q@, band as int, x as int, idx as int, 6);
        }
        let ghost before = v@;
        v.push(m);
        assert(masks_view(v@) =~= masks_view(before).push(m as nat));
        x = x + 1;
    }
    assert(masks_view(v@) =~= band_values(w as int, h as int, q@, band as int, idx as int));
    v
}

/// The color passes of band `band`, appended.
fn push_band(out: &mut Vec<char>, w: usize, h: usize, q: &[u8], ranks: &Vec<Option<usize>>, band: usize)
    requires
        q@.len() == w * h,
        6 * band < h,
        ranks@.len() == 256,
    ensures
        final(out)@ == old(out)@ + band_passes(w as int, h as int, q@, ranks_view(ranks@), band as int, 256).0,
{
    let ghost rv = ranks_view(ranks@);
    let ghost start = out@;
    let mut any = false;
    let mut idx: usize = 0;
    while idx < 256
        invariant
            q@.len() == w * h,
            6 * band < h,
            ranks@.len() == 256,
            rv == ranks_view(ranks@),
            idx <= 256,
            out@ == start + band_passes(w as int, h as int, q@, rv, band as int, idx as int).0,
            any == band_passes(w as int, h as int, q@, rv, band as int, idx as int).1,
        decreases 256 - idx,
    {
        let ghost vals_spec = band_values(w as int, h as int, q@, band as int, idx as int);
        match ranks[idx] {
            None => {
                assert(rv[idx as int] is None);
            },
            Some(p) => {
                assert(rv[idx as int] == Some(p as nat));
                let vals = band_masks(w, h, q, band, idx as u8);
                let mut has = false;
                let mut x: usize = 0;
                while x < vals.len()
                    invariant
                        x <= vals@.len(),
                        masks_view(vals@) == vals_spec,
                        has <==> exists|k: int| 0 <= k < x && vals_spec[k] != 0,
                    decreases vals@.len() - x,
                {
                    assert(vals_spec[x as int] == vals@[x as int] as nat);
                    if vals[x] != 0 {
                        has = true;
                    }
                    x = x + 1;
                }
                if has {
                    let ghost before = out@;
                    if any {
                        out.push('$');
                    }
                    out.push('#');
                    push_decimal(out, p as u64);
                    push_rle(out, &vals);
                    assert(out@ =~= before + (if any { seq!['$'] } else { seq![] }) + seq!['#'] + decimal_of(p as nat) + rle(vals_spec));
                    any = true;
                }
            },
        }
        idx = idx + 1;
    }
}

/// Encode an image as a Sixel data stream, given each pixel (row by row)
/// as an index into the 256-color `palette`: the DCS intro, a definition
/// `#n;2;r;g;b` (in percent) for each index used, numbered in order of
/// first use and listed by index, then per six-row band a pass per used
/// color (`$` between passes) with run-length coded column masks, `-`
/// between bands, and the string terminator.
pub fn encode_sixel(width: usize, height: usize, quant: &[u8], palette: &[(u8, u8, u8)]) -> (out: Vec<u8>)
    requires
        quant@.len() == width * height,
        palette@.len() == 256,
    ensures
        out@ == vstd::utf8::encode_utf8(sixel_text(width as int, height as int, quant@, palette@)),
{
    let mut text: Vec<char> = Vec::new();
    text.push('\x1b');
    text.push('P');
    text.push('q');
    if width == 0 || height == 0 {
        text.push('\x1b');
        text.push('\\');
        assert(text@ =~= sixel_text(width as int, height as int, quant@, palette@));
        return utf8_of(text.as_slice());
    }
    let ranks = sixel_ranks(quant);
    let ghost rv = ranks_view(ranks@);
    let ghost head = text@;
    let mut idx: usize = 0;
    while idx < 256
        invariant
            ranks@.len() == 256,
            rv == ranks_view(ranks@),
            palette@.len() == 256,
            idx <= 256,
            text@ == head + palette_text(rv, palette@, idx as int),
        decreases 256 - idx,
    {
        match ranks[idx] {
            None => {
                assert(rv[idx as int] is None);
            },
            Some(p) => {
                assert(rv[idx as int] == Some(p as nat));
                let ghost before = text@;
                let (r, g, b) = palette[idx];
                text.push('#');
                push_decimal(&mut text, p as u64);
                text.push(';');
                text.push('2');
                text.push(';');
                push_decimal(&mut text, (r as u64 * 100) / 255);
                text.push(';');
                push_decimal(&mut text, (g as u64 * 100) / 255);
                text.push(';');
                push_decimal(&mut text, (b as u64 * 100) / 255);
                assert(text@ =~= before + (seq!['#'] + decimal_of(p as nat) + seq![';', '2', ';'] + decimal_of(percent(palette@[idx as int].0))
                    + seq![';'] + decimal_of(percent(palette@[idx as int].1)) + seq![';'] + decimal_of(percent(palette@[idx as int].2))));
            },
        }
        idx = idx + 1;
    }
    let bands = height / 6 + if height % 6 != 0 { 1 } else { 0 };
    assert(bands as int == (height as int + 5) / 6);
    let ghost mid = text@;
    let mut b: usize = 0;
    while b < bands
        invariant
            quant@.len() == width * height,
            ranks@.len() == 256,
            rv == ranks_view(ranks@),
            bands as int == (height as int + 5) / 6,
            b <= bands,
            text@ == mid + bands_text(width as int, height as int, quant@, rv, bands as int, b as int),
        decreases bands - b,
    {
        let ghost before = text@;
        push_band(&mut text, width, height, quant, &ranks, b);
        if b + 1 < bands {
            text.push('-');
        }
        assert(text@ =~= before + band_passes(width as int, height as int, quant@, rv, b as int, 256).0
            + if b + 1 < bands { seq!['-'] } else { seq![] });
        b = b + 1;
    }
    text.push('\x1b');
    text.push('\\');
    assert(text@ =~= sixel_text(width as int, height as int, quant@, palette@));
    utf8_of(text.as_slice())
}

} // verus!
