//! Character-level text helpers shared by the parsers: decimal and hex
//! rendering, decimal parsing, Unicode whitespace, trimming and splitting.

use vstd::prelude::*;

verus! {

// ---------------------------------------------------------------------------
// Conversions between `str`/`String` and character vectors.
// ---------------------------------------------------------------------------

/// The characters of `s`, in order (std's `str::chars` collected).
#[verifier::external_body]
pub(crate) fn chars_of(s: &str) -> (v: Vec<char>)
    ensures
        v@ == s@,
{
    s.chars().collect()
}

/// A `String` holding exactly the characters of `v` (std's `FromIterator<char>`).
#[verifier::external_body]
pub(crate) fn string_of(v: &[char]) -> (s: String)
    ensures
        s@ == v@,
{
    v.iter().collect()
}

/// Whether `b` is well-formed UTF-8 (std's `str::from_utf8` succeeding).
#[verifier::external_body]
pub(crate) fn is_valid_utf8(b: &[u8]) -> (r: bool)
    ensures
        r == vstd::utf8::valid_utf8(b@),
{
    std::str::from_utf8(b).is_ok()
}

/// The text that well-formed UTF-8 bytes encode (std's `String::from_utf8`).
#[verifier::external_body]
pub(crate) fn string_from_utf8(b: &[u8]) -> (s: String)
    requires
        vstd::utf8::valid_utf8(b@),
    ensures
        s@ == vstd::utf8::decode_utf8(b@),
{
    String::from_utf8(b.to_vec()).unwrap_or_default()
}

/// The UTF-8 encoding of the characters of `v` (std's `char::encode_utf8`,
/// via `String`).
#[verifier::external_body]
pub(crate) fn utf8_of(v: &[char]) -> (b: Vec<u8>)
    ensures
        b@ == vstd::utf8::encode_utf8(v@),
{
    let s: String = v.iter().collect();
    s.into_bytes()
}

// ---------------------------------------------------------------------------
// Decimal and hexadecimal digits.
// ---------------------------------------------------------------------------

pub open spec fn is_digit(c: char) -> bool {
    '0' <= c && c <= '9'
}

pub open spec fn digit_value(c: char) -> nat {
    (c as int - '0' as int) as nat
}

/// Every character is an ASCII decimal digit.
pub open spec fn all_digits(s: Seq<char>) -> bool {
    forall|i: int| 0 <= i < s.len() ==> #[trigger] is_digit(s[i])
}

/// The number a run of decimal digits spells, most significant first.
pub open spec fn digits_value(s: Seq<char>) -> nat
    decreases s.len(),
{
    if s.len() == 0 {
        0
    } else {
        digits_value(s.drop_last()) * 10 + digit_value(s.last())
    }
}

/// The digits part of an unsigned literal: `s` without a leading `+`.
pub open spec fn unsigned_body(s: Seq<char>) -> Seq<char> {
    if s.len() > 0 && s[0] == '+' { s.drop_first() } else { s }
}

/// What std's unsigned `from_str` accepts: an optional `+`, then one or more
/// decimal digits. `None` for anything else; the caller bounds the value.
pub open spec fn parse_unsigned(s: Seq<char>) -> Option<nat> {
    let body = unsigned_body(s);
    if body.len() > 0 && all_digits(body) {
        Some(digits_value(body))
    } else {
        None
    }
}

/// `parse_unsigned`, restricted to values that fit in `usize`.
pub open spec fn parse_usize_spec(s: Seq<char>) -> Option<usize> {
    match parse_unsigned(s) {
        Some(n) => if n <= usize::MAX { Some(n as usize) } else { None },
        None => None,
    }
}

proof fn lemma_digits_value_take(s: Seq<char>, i: int)
    requires
        0 <= i < s.len(),
    ensures
        digits_value(s.take(i + 1)) == digits_value(s.take(i)) * 10 + digit_value(s[i]),
{
    assert(s.take(i + 1).drop_last() =~= s.take(i));
}

proof fn lemma_digits_value_grows(s: Seq<char>, i: int, j: int)
    requires
        0 <= i <= j <= s.len(),
    ensures
        digits_value(s.take(i)) <= digits_value(s.take(j)),
    decreases j - i,
{
    if i < j {
        lemma_digits_value_grows(s, i, j - 1);
        lemma_digits_value_take(s, j - 1);
    }
}

/// Parse a decimal `usize` the way std's `str::parse::<usize>` does.
pub fn parse_usize(s: &[char]) -> (r: Option<usize>)
    ensures
        r == parse_usize_spec(s@),
{
    let mut start: usize = 0;
    if s.len() > 0 && s[0] == '+' {
        start = 1;
    }
    let ghost body = unsigned_body(s@);
    assert(body =~= s@.subrange(start as int, s@.len() as int));
    if start >= s.len() {
        return None;
    }
    let mut value: usize = 0;
    let mut i: usize = start;
    while i < s.len()
        invariant
            start <= i <= s.len(),
            body == unsigned_body(s@),
            body =~= s@.subrange(start as int, s@.len() as int),
            all_digits(body.take(i - start)),
            value == digits_value(body.take(i - start)),
        decreases s.len() - i,
    {
        let c = s[i];
        if !('0' <= c && c <= '9') {
            assert(body[i - start] == c);
            assert(!is_digit(body[i - start]));
            assert(!all_digits(body));
            return None;
        }
        assert(body[i - start] == c);
        let d = (c as u32 - 48) as usize;
        proof {
            lemma_digits_value_take(body, i - start);
            assert(digit_value(c) == d);
            assert(body.take(i - start + 1) =~= body.take(i - start).push(c));
        }
        if value > (usize::MAX - d) / 10 {
            proof {
                lemma_digits_value_grows(body, i - start + 1, body.len() as int);
                assert(body.take(body.len() as int) =~= body);
                assert(digits_value(body.take(i - start + 1)) > usize::MAX) by (nonlinear_arith)
                    requires
                        digits_value(body.take(i - start + 1)) == value * 10 + d,
                        value > (usize::MAX - d) / 10,
                        d <= 9,
                ;
                assert(digits_value(body) > usize::MAX);
                assert(parse_unsigned(s@) is None || parse_unsigned(s@) == Some(digits_value(body)));
            }
            return None;
        }
        value = value * 10 + d;
        i = i + 1;
    }
    assert(body.take(i - start) =~= body);
    Some(value)
}

pub open spec fn hex_digit(d: nat) -> char {
    if d < 10 {
        (d + 48) as char
    } else {
        (d - 10 + 97) as char
    }
}

/// Digits of `n` in base `b` (2..=16, lower-case), most significant first,
/// without leading zeros (`"0"` for 0).
pub open spec fn radix_of(n: nat, b: nat) -> Seq<char>
    decreases n,
{
    if b < 2 || n < b {
        seq![hex_digit(n)]
    } else {
        proof {
            assert(n / b < n) by (nonlinear_arith)
                requires
                    b >= 2,
                    n >= b,
            ;
        }
        radix_of(n / b, b).push(hex_digit(n % b))
    }
}

/// Lower-case hexadecimal digits of `n` (std's `{:x}`).
pub open spec fn hex_of(n: nat) -> Seq<char> {
    radix_of(n, 16)
}

/// Decimal digits of `n` (std's `{}` for unsigned integers).
pub open spec fn decimal_of(n: nat) -> Seq<char> {
    radix_of(n, 10)
}

/// `s` left-padded with `c` to at least `width` characters.
pub open spec fn pad_left(s: Seq<char>, width: nat, c: char) -> Seq<char> {
    if s.len() >= width {
        s
    } else {
        Seq::new((width - s.len()) as nat, |_i: int| c) + s
    }
}

/// The lower-case hex digit for `d` (`d < 16`).
pub fn hex_digit_char(d: u8) -> (c: char)
    requires
        d < 16,
    ensures
        c == hex_digit(d as nat),
{
    if d < 10 {
        (d + 48) as char
    } else {
        (d - 10 + 97) as char
    }
}

/// Digits of `n` in base `b`, left-padded with zeros to `width`.
pub fn radix_chars(n: u64, b: u64, width: usize) -> (v: Vec<char>)
    requires
        2 <= b <= 16,
    ensures
        v@ == pad_left(radix_of(n as nat, b as nat), width as nat, '0'),
{
    let mut digits: Vec<char> = Vec::new();
    let mut m: u64 = n;
    // `digits` holds the low-order digits, least significant first.
    loop
        invariant_except_break
            radix_of(n as nat, b as nat) == radix_of(m as nat, b as nat) + digits@.reverse(),
        invariant
            2 <= b <= 16,
        ensures
            radix_of(n as nat, b as nat) == digits@.reverse(),
        decreases m,
    {
        if m < b {
            let c = hex_digit_char(m as u8);
            proof {
                assert(radix_of(m as nat, b as nat) =~= seq![c]);
                assert(digits@.push(c).reverse() =~= seq![c] + digits@.reverse());
            }
            digits.push(c);
            break;
        }
        let c = hex_digit_char((m % b) as u8);
        proof {
            assert(radix_of(m as nat, b as nat)
                == radix_of((m / b) as nat, b as nat).push(hex_digit((m % b) as nat)));
            assert(digits@.push(c).reverse() =~= seq![c] + digits@.reverse());
            assert(radix_of(n as nat, b as nat)
                =~= radix_of((m / b) as nat, b as nat) + digits@.push(c).reverse());
        }
        digits.push(c);
        m = m / b;
    }
    let len = digits.len();
    let pad_count: usize = if len < width { width - len } else { 0 };
    let mut out: Vec<char> = Vec::new();
    while out.len() < pad_count
        invariant
            out@ == Seq::new(out@.len(), |_i: int| '0'),
            out@.len() <= pad_count,
        decreases pad_count - out.len(),
    {
        out.push('0');
        assert(out@ =~= Seq::new(out@.len(), |_i: int| '0'));
    }
    let ghost pad = out@;
    let mut k: usize = len;
    while k > 0
        invariant
            k <= len,
            len == digits@.len(),
            out@ == pad + digits@.reverse().take((len - k) as int),
        decreases k,
    {
        k = k - 1;
        out.push(digits[k]);
        assert(out@ =~= pad + digits@.reverse().take((len - k) as int));
    }
    assert(digits@.reverse().take(len as int) =~= digits@.reverse());
    assert(out@ =~= pad_left(radix_of(n as nat, b as nat), width as nat, '0'));
    out
}

/// Decimal rendering of `n` (std's `{}`).
pub fn decimal_chars(n: u64) -> (v: Vec<char>)
    ensures
        v@ == decimal_of(n as nat),
{
    radix_chars(n, 10, 0)
}


// ---------------------------------------------------------------------------
// Splitting.
// ---------------------------------------------------------------------------

/// The pieces of `s` between occurrences of `sep` (std's `str::split`):
/// always at least one piece; `n` separators give `n + 1` pieces.
pub open spec fn split_on(s: Seq<char>, sep: char) -> Seq<Seq<char>>
    decreases s.len(),
{
    if s.len() == 0 {
        seq![seq![]]
    } else {
        let prev = split_on(s.drop_last(), sep);
        if s.last() == sep {
            prev.push(seq![])
        } else {
            prev.update(prev.len() - 1, prev.last().push(s.last()))
        }
    }
}

pub proof fn lemma_split_on_nonempty(s: Seq<char>, sep: char)
    ensures
        split_on(s, sep).len() >= 1,
    decreases s.len(),
{
    if s.len() > 0 {
        lemma_split_on_nonempty(s.drop_last(), sep);
    }
}

pub open spec fn views_of(v: Seq<Vec<char>>) -> Seq<Seq<char>> {
    v.map_values(|x: Vec<char>| x@)
}

/// Split `s` at every `sep`, as std's `str::split` does.
pub fn split_chars(s: &[char], sep: char) -> (parts: Vec<Vec<char>>)
    ensures
        views_of(parts@) == split_on(s@, sep),
{
    let mut parts: Vec<Vec<char>> = Vec::new();
    let mut cur: Vec<char> = Vec::new();
    let mut i: usize = 0;
    assert(s@.take(0) =~= Seq::<char>::empty());
    while i < s.len()
        invariant
            i <= s@.len(),
            split_on(s@.take(i as int), sep) == views_of(parts@).push(cur@),
        decreases s@.len() - i,
    {
        let c = s[i];
        proof {
            assert(s@.take(i + 1).drop_last() =~= s@.take(i as int));
            assert(s@.take(i + 1).last() == c);
        }
        if c == sep {
            let ghost before_parts = parts@;
            let done = cur;
            parts.push(done);
            cur = Vec::new();
            proof {
                assert(views_of(parts@).push(cur@)
                    =~= views_of(before_parts).push(done@).push(seq![]));
            }
        } else {
            let ghost before = cur@;
            cur.push(c);
            proof {
                let prev = views_of(parts@).push(before);
                assert(prev.update(prev.len() - 1, prev.last().push(c)) =~= views_of(parts@).push(cur@));
            }
        }
        i = i + 1;
    }
    assert(s@.take(s@.len() as int) =~= s@);
    let ghost before_parts = parts@;
    let last = cur;
    parts.push(last);
    assert(views_of(parts@) =~= views_of(before_parts).push(last@));
    parts
}

/// Total length of a list of pieces.
pub open spec fn sum_lens(ps: Seq<Seq<char>>) -> int
    decreases ps.len(),
{
    if ps.len() == 0 { 0 } else { sum_lens(ps.drop_last()) + ps.last().len() }
}

/// The pieces plus one separator between each pair make up the whole text.
pub proof fn lemma_split_total(s: Seq<char>, sep: char)
    ensures
        sum_lens(split_on(s, sep)) + split_on(s, sep).len() - 1 == s.len(),
    decreases s.len(),
{
    if s.len() > 0 {
        lemma_split_total(s.drop_last(), sep);
        lemma_split_on_nonempty(s.drop_last(), sep);
        let prev = split_on(s.drop_last(), sep);
        if s.last() != sep {
            let upd = prev.update(prev.len() - 1, prev.last().push(s.last()));
            assert(upd.drop_last() =~= prev.drop_last());
            assert(sum_lens(upd) == sum_lens(upd.drop_last()) + upd.last().len());
            assert(sum_lens(prev) == sum_lens(prev.drop_last()) + prev.last().len());
            assert(split_on(s, sep) == upd);
            assert(upd.len() == prev.len());
            assert(upd.last().len() == prev.last().len() + 1);
        } else {
            let pushed = prev.push(seq![]);
            assert(pushed.drop_last() =~= prev);
            assert(sum_lens(pushed) == sum_lens(pushed.drop_last()) + pushed.last().len());
            assert(split_on(s, sep) == pushed);
        }
    } else {
        let one: Seq<Seq<char>> = seq![seq![]];
        assert(one.drop_last() =~= Seq::<Seq<char>>::empty());
        assert(sum_lens(one) == sum_lens(one.drop_last()) + one.last().len());
    }
}

proof fn lemma_sum_lens_first_two(ps: Seq<Seq<char>>)
    requires
        ps.len() >= 2,
    ensures
        sum_lens(ps) >= ps[0].len() + ps[1].len(),
    decreases ps.len(),
{
    let d = ps.drop_last();
    assert(sum_lens(ps) == sum_lens(d) + ps.last().len());
    if ps.len() > 2 {
        lemma_sum_lens_first_two(d);
        assert(d[0] == ps[0] && d[1] == ps[1]);
    } else {
        assert(d.drop_last() =~= Seq::<Seq<char>>::empty());
        assert(sum_lens(d) == sum_lens(d.drop_last()) + d.last().len());
        assert(d.last() == ps[0]);
    }
}

/// With at least three pieces, the first two and their separators fit.
pub proof fn lemma_split_first_two(s: Seq<char>, sep: char)
    ensures
        split_on(s, sep).len() >= 3 ==> split_on(s, sep)[0].len() + split_on(s, sep)[1].len() + 2
            <= s.len(),
{
    lemma_split_total(s, sep);
    if split_on(s, sep).len() >= 3 {
        lemma_sum_lens_first_two(split_on(s, sep));
    }
}

// ---------------------------------------------------------------------------
// Unicode whitespace, trimming, words.
// ---------------------------------------------------------------------------

/// The Unicode `White_Space` property (std's `char::is_whitespace`).
pub open spec fn is_ws(c: char) -> bool {
    let u = c as u32;
    (0x09 <= u && u <= 0x0d) || u == 0x20 || u == 0x85 || u == 0xa0 || u == 0x1680
        || (0x2000 <= u && u <= 0x200a) || u == 0x2028 || u == 0x2029 || u == 0x202f
        || u == 0x205f || u == 0x3000
}

pub fn is_whitespace(c: char) -> (r: bool)
    ensures
        r == is_ws(c),
{
    let u = c as u32;
    (0x09 <= u && u <= 0x0d) || u == 0x20 || u == 0x85 || u == 0xa0 || u == 0x1680
        || (0x2000 <= u && u <= 0x200a) || u == 0x2028 || u == 0x2029 || u == 0x202f
        || u == 0x205f || u == 0x3000
}

/// `s` without leading whitespace.
pub open spec fn trim_start(s: Seq<char>) -> Seq<char>
    decreases s.len(),
{
    if s.len() > 0 && is_ws(s[0]) { trim_start(s.drop_first()) } else { s }
}

/// `s` without trailing whitespace.
pub open spec fn trim_end(s: Seq<char>) -> Seq<char>
    decreases s.len(),
{
    if s.len() > 0 && is_ws(s.last()) { trim_end(s.drop_last()) } else { s }
}

/// `s` without leading and trailing whitespace (std's `str::trim`).
pub open spec fn trim(s: Seq<char>) -> Seq<char> {
    trim_end(trim_start(s))
}

proof fn lemma_trim_start_shape(s: Seq<char>)
    ensures
        trim_start(s).len() == 0 || !is_ws(trim_start(s)[0]),
    decreases s.len(),
{
    if s.len() > 0 && is_ws(s[0]) {
        lemma_trim_start_shape(s.drop_first());
    }
}

proof fn lemma_trim_end_shape(s: Seq<char>)
    ensures
        trim_end(s) =~= s.take(trim_end(s).len() as int),
        trim_end(s).len() <= s.len(),
        trim_end(s).len() == 0 || !is_ws(trim_end(s).last()),
    decreases s.len(),
{
    if s.len() > 0 && is_ws(s.last()) {
        lemma_trim_end_shape(s.drop_last());
        assert(s.drop_last().take(trim_end(s).len() as int) =~= s.take(trim_end(s).len() as int));
    }
}

/// Trimming trimmed text changes nothing.
pub proof fn lemma_trim_idempotent(s: Seq<char>)
    ensures
        trim(trim(s)) == trim(s),
{
    let y = trim_start(s);
    lemma_trim_start_shape(s);
    let z = trim_end(y);
    lemma_trim_end_shape(y);
    if z.len() > 0 {
        assert(z[0] == y[0]);
    }
    assert(trim_start(z) == z);
    lemma_trim_end_shape(z);
    assert(trim_end(z) == z);
}

/// Bounds `[start, end)` of `trim(s[lo..hi])` inside `s`.
pub fn trim_bounds(s: &[char], lo: usize, hi: usize) -> (r: (usize, usize))
    requires
        lo <= hi <= s@.len(),
    ensures
        lo <= r.0 <= r.1 <= hi,
        s@.subrange(r.0 as int, r.1 as int) == trim(s@.subrange(lo as int, hi as int)),
{
    let mut a = lo;
    while a < hi && is_whitespace(s[a])
        invariant
            lo <= a <= hi <= s@.len(),
            trim_start(s@.subrange(lo as int, hi as int)) == trim_start(s@.subrange(a as int, hi as int)),
        decreases hi - a,
    {
        assert(s@.subrange(a as int, hi as int).drop_first() =~= s@.subrange(a + 1, hi as int));
        a = a + 1;
    }
    let mut b = hi;
    while b > a && is_whitespace(s[b - 1])
        invariant
            a <= b <= hi <= s@.len(),
            trim_end(s@.subrange(a as int, hi as int)) == trim_end(s@.subrange(a as int, b as int)),
        decreases b - a,
    {
        assert(s@.subrange(a as int, b as int).drop_last() =~= s@.subrange(a as int, b - 1));
        b = b - 1;
    }
    (a, b)
}

/// Index of the first whitespace character of `s`, or its length.
pub open spec fn first_ws(s: Seq<char>) -> int
    decreases s.len(),
{
    if s.len() == 0 {
        0
    } else if is_ws(s[0]) {
        0
    } else {
        1 + first_ws(s.drop_first())
    }
}

pub proof fn lemma_first_ws_bounds(s: Seq<char>)
    ensures
        0 <= first_ws(s) <= s.len(),
        forall|i: int| 0 <= i < first_ws(s) ==> !is_ws(#[trigger] s[i]),
        first_ws(s) < s.len() ==> is_ws(s[first_ws(s)]),
    decreases s.len(),
{
    if s.len() > 0 && !is_ws(s[0]) {
        lemma_first_ws_bounds(s.drop_first());
        assert forall|i: int| 0 <= i < first_ws(s) implies !is_ws(#[trigger] s[i]) by {
            if i > 0 {
                assert(s[i] == s.drop_first()[i - 1]);
            }
        }
    }
}

/// Position of the first whitespace character in `s[lo..hi]`, or `hi`.
pub fn find_ws(s: &[char], lo: usize, hi: usize) -> (r: usize)
    requires
        lo <= hi <= s@.len(),
    ensures
        lo <= r <= hi,
        r - lo == first_ws(s@.subrange(lo as int, hi as int)),
{
    let mut k = lo;
    while k < hi && !is_whitespace(s[k])
        invariant
            lo <= k <= hi <= s@.len(),
            first_ws(s@.subrange(lo as int, hi as int)) == (k - lo) + first_ws(s@.subrange(k as int, hi as int)),
        decreases hi - k,
    {
        assert(s@.subrange(k as int, hi as int).drop_first() =~= s@.subrange(k + 1, hi as int));
        k = k + 1;
    }
    k
}

/// Whitespace-separated words (std's `str::split_whitespace`).
pub open spec fn words(s: Seq<char>) -> Seq<Seq<char>>
    decreases s.len(),
{
    if s.len() == 0 {
        seq![]
    } else {
        let w = words(s.drop_last());
        let c = s.last();
        if is_ws(c) {
            w
        } else if s.len() >= 2 && !is_ws(s[s.len() - 2]) {
            w.update(w.len() - 1, w.last().push(c))
        } else {
            w.push(seq![c])
        }
    }
}

proof fn lemma_words_nonempty_after_word_char(s: Seq<char>)
    requires
        s.len() > 0,
        !is_ws(s.last()),
    ensures
        words(s).len() >= 1,
    decreases s.len(),
{
    if s.len() >= 2 && !is_ws(s[s.len() - 2]) {
        assert(s.drop_last().last() == s[s.len() - 2]);
        lemma_words_nonempty_after_word_char(s.drop_last());
    }
}

/// Split into whitespace-separated words.
pub fn split_words(s: &[char]) -> (ws: Vec<Vec<char>>)
    ensures
        views_of(ws@) == words(s@),
{
    let mut out: Vec<Vec<char>> = Vec::new();
    let mut cur: Vec<char> = Vec::new();
    let mut i: usize = 0;
    assert(s@.take(0) =~= Seq::<char>::empty());
    while i < s.len()
        invariant
            i <= s@.len(),
            cur@.len() == 0 ==> views_of(out@) == words(s@.take(i as int)),
            cur@.len() > 0 ==> views_of(out@).push(cur@) == words(s@.take(i as int)),
            cur@.len() > 0 ==> i > 0 && !is_ws(s@[i - 1]),
            cur@.len() == 0 ==> (i == 0 || is_ws(s@[i - 1])),
        decreases s@.len() - i,
    {
        let c = s[i];
        let ghost t = s@.take(i + 1);
        proof {
            assert(t.drop_last() =~= s@.take(i as int));
            assert(t.last() == c);
            if i >= 1 {
                assert(t[t.len() - 2] == s@[i - 1]);
            }
        }
        if is_whitespace(c) {
            if cur.len() > 0 {
                let ghost before = out@;
                let w = cur;
                out.push(w);
                cur = Vec::new();
                assert(views_of(out@) =~= views_of(before).push(w@));
            }
        } else {
            let ghost before_cur = cur@;
            cur.push(c);
            proof {
                if before_cur.len() > 0 {
                    let w = views_of(out@).push(before_cur);
                    assert(w.update(w.len() - 1, w.last().push(c)) =~= views_of(out@).push(cur@));
                } else {
                    assert(seq![c] =~= cur@);
                }
            }
        }
        i = i + 1;
    }
    assert(s@.take(s@.len() as int) =~= s@);
    if cur.len() > 0 {
        let ghost before = out@;
        let w = cur;
        out.push(w);
        assert(views_of(out@) =~= views_of(before).push(w@));
    }
    out
}

/// Whether `v` spells exactly `lit`.
pub fn eq_lit(v: &[char], lit: &str) -> (r: bool)
    ensures
        r == (v@ == lit@),
{
    let l = chars_of(lit);
    if v.len() != l.len() {
        assert(v@.len() != l@.len());
        return false;
    }
    let mut i: usize = 0;
    while i < v.len()
        invariant
            i <= v@.len(),
            v@.len() == l@.len(),
            l@ == lit@,
            v@.take(i as int) == l@.take(i as int),
        decreases v@.len() - i,
    {
        if v[i] != l[i] {
            assert(v@[i as int] != l@[i as int]);
            assert(v@ != l@) by {
                if v@ == l@ {
                    assert(v@[i as int] == l@[i as int]);
                }
            }
            return false;
        }
        assert(v@.take(i + 1) =~= v@.take(i as int).push(v@[i as int]));
        assert(l@.take(i + 1) =~= l@.take(i as int).push(l@[i as int]));
        i = i + 1;
    }
    assert(v@.take(v@.len() as int) =~= v@);
    assert(l@.take(l@.len() as int) =~= l@);
    true
}

/// Copy of `s[lo..hi]`.
pub fn slice_vec(s: &[char], lo: usize, hi: usize) -> (v: Vec<char>)
    requires
        lo <= hi <= s@.len(),
    ensures
        v@ == s@.subrange(lo as int, hi as int),
{
    let mut v: Vec<char> = Vec::new();
    let mut k = lo;
    while k < hi
        invariant
            lo <= k <= hi <= s@.len(),
            v@ == s@.subrange(lo as int, k as int),
        decreases hi - k,
    {
        v.push(s[k]);
        assert(v@ =~= s@.subrange(lo as int, k + 1));
        k = k + 1;
    }
    v
}

/// Append the characters of `s` to `out`.
pub fn push_str(out: &mut Vec<char>, s: &str)
    ensures
        final(out)@ == old(out)@ + s@,
{
    let mut c = chars_of(s);
    out.append(&mut c);
}

/// Append a copy of `s` to `out`.
pub fn push_chars(out: &mut Vec<char>, s: &[char])
    ensures
        final(out)@ == old(out)@ + s@,
{
    let mut k: usize = 0;
    let ghost o = out@;
    while k < s.len()
        invariant
            k <= s@.len(),
            out@ == o + s@.take(k as int),
        decreases s@.len() - k,
    {
        out.push(s[k]);
        assert(s@.take(k + 1) =~= s@.take(k as int).push(s@[k as int]));
        k = k + 1;
    }
    assert(s@.take(s@.len() as int) =~= s@);
}

/// The pieces of `items` with `sep` between neighbours (std's `join`).
pub open spec fn join(items: Seq<Seq<char>>, sep: Seq<char>) -> Seq<char>
    decreases items.len(),
{
    if items.len() == 0 {
        seq![]
    } else if items.len() == 1 {
        items[0]
    } else {
        join(items.drop_last(), sep) + sep + items.last()
    }
}

pub open spec fn string_views(items: Seq<String>) -> Seq<Seq<char>> {
    Seq::new(items.len(), |i: int| items[i]@)
}

/// `items` joined with `sep` between neighbours.
pub fn join_strings(items: &[String], sep: &str) -> (r: String)
    ensures
        r@ == join(string_views(items@), sep@),
{
    let ghost v = string_views(items@);
    let mut out: Vec<char> = Vec::new();
    let mut i: usize = 0;
    while i < items.len()
        invariant
            i <= items@.len(),
            v == string_views(items@),
            out@ == join(v.take(i as int), sep@),
        decreases items@.len() - i,
    {
        let ghost before = out@;
        if i > 0 {
            push_str(&mut out, sep);
        }
        push_str(&mut out, items[i].as_str());
        proof {
            let t = v.take(i + 1);
            assert(t.drop_last() =~= v.take(i as int));
            assert(t.last() == items@[i as int]@);
            if i == 0 {
                assert(out@ =~= t[0]);
            } else {
                assert(out@ =~= before + sep@ + items@[i as int]@);
            }
        }
        i = i + 1;
    }
    assert(v.take(items@.len() as int) =~= v);
    string_of(out.as_slice())
}

// ---------------------------------------------------------------------------
// Letter case.
// ---------------------------------------------------------------------------

/// What std's `str::to_lowercase` gives for a text (Unicode lowercase
/// mapping, independent of locale).
pub uninterp spec fn unicode_lowercase(s: Seq<char>) -> Seq<char>;

pub open spec fn is_ascii_upper(c: char) -> bool {
    'A' <= c && c <= 'Z'
}

pub open spec fn is_ascii_lower(c: char) -> bool {
    'a' <= c && c <= 'z'
}

pub open spec fn ascii_lower_char(c: char) -> char {
    if is_ascii_upper(c) { ((c as u32) + 32) as char } else { c }
}

pub open spec fn ascii_upper_char(c: char) -> char {
    if is_ascii_lower(c) { ((c as u32) - 32) as char } else { c }
}

pub open spec fn all_ascii(s: Seq<char>) -> bool {
    forall|i: int| 0 <= i < s.len() ==> (#[trigger] s[i] as u32) < 128
}

/// std's `str::to_lowercase`. Its documentation: every character maps to
/// its lowercase form (one or more characters), and ASCII characters map
/// as `to_ascii_lowercase` does. What it does to other characters is the
/// Unicode tables', left unstated here.
#[verifier::external_body]
pub(crate) fn to_lowercase(s: &str) -> (r: String)
    ensures
        r@ == unicode_lowercase(s@),
        r@.len() == 0 <==> s@.len() == 0,
        all_ascii(s@) ==> r@ == Seq::new(s@.len(), |i: int| ascii_lower_char(s@[i])),
{
    s.to_lowercase()
}

// ---------------------------------------------------------------------------
// Substrings.
// ---------------------------------------------------------------------------

/// `sub` occurs in `s` starting at `i`.
pub open spec fn occurs_at(s: Seq<char>, sub: Seq<char>, i: int) -> bool {
    0 <= i && i + sub.len() <= s.len() && s.subrange(i, i + sub.len()) == sub
}

/// `sub` occurs somewhere in `s` (std's `str::contains`).
pub open spec fn contains_sub(s: Seq<char>, sub: Seq<char>) -> bool {
    exists|i: int| occurs_at(s, sub, i)
}

fn matches_at(s: &[char], sub: &[char], i: usize) -> (r: bool)
    requires
        i + sub@.len() <= s@.len(),
    ensures
        r == occurs_at(s@, sub@, i as int),
{
    let mut k: usize = 0;
    while k < sub.len()
        invariant
            k <= sub@.len(),
            i + sub@.len() <= s@.len(),
            s@.len() == s.len(),
            forall|m: int| 0 <= m < k ==> s@[i + m] == sub@[m],
        decreases sub@.len() - k,
    {
        if s[i + k] != sub[k] {
            assert(s@.subrange(i as int, i + sub@.len())[k as int] != sub@[k as int]);
            return false;
        }
        k = k + 1;
    }
    assert(s@.subrange(i as int, i + sub@.len()) =~= sub@);
    true
}

/// Whether `sub` occurs in `s`.
pub fn contains_chars(s: &[char], sub: &[char]) -> (r: bool)
    ensures
        r == contains_sub(s@, sub@),
{
    if sub.len() > s.len() {
        assert forall|i: int| !occurs_at(s@, sub@, i) by {}
        return false;
    }
    let last = s.len() - sub.len();
    let mut i: usize = 0;
    while i <= last
        invariant
            last + sub@.len() == s@.len(),
            forall|j: int| 0 <= j < i ==> !occurs_at(s@, sub@, j),
        decreases last + 1 - i,
    {
        if matches_at(s, sub, i) {
            return true;
        }
        if i == last {
            assert forall|j: int| !occurs_at(s@, sub@, j) by {
                if 0 <= j && j + sub@.len() <= s@.len() {
                    assert(j <= last);
                }
            }
            return false;
        }
        i = i + 1;
    }
    false
}

/// Whether the literal `lit` occurs in `s`.
pub fn contains_lit(s: &[char], lit: &str) -> (r: bool)
    ensures
        r == contains_sub(s@, lit@),
{
    let l = chars_of(lit);
    contains_chars(s, l.as_slice())
}

/// Where `sub` first occurs in `s` (std's `str::find`, by character).
pub open spec fn first_occurrence(s: Seq<char>, sub: Seq<char>) -> Option<int> {
    if contains_sub(s, sub) {
        Some(choose|i: int| occurs_at(s, sub, i) && forall|j: int| 0 <= j < i ==> !occurs_at(s, sub, j))
    } else {
        None
    }
}

/// The first position where `sub` occurs in `s`, if any.
pub fn find_chars(s: &[char], sub: &[char]) -> (r: Option<usize>)
    ensures
        r matches Some(i) ==> occurs_at(s@, sub@, i as int) && forall|j: int| 0 <= j < i ==> !occurs_at(s@, sub@, j),
        r is None ==> !contains_sub(s@, sub@),
        r matches Some(i) ==> first_occurrence(s@, sub@) == Some(i as int),
        r is None ==> first_occurrence(s@, sub@) is None,
{
    if sub.len() > s.len() {
        assert forall|i: int| !occurs_at(s@, sub@, i) by {}
        return None;
    }
    let last = s.len() - sub.len();
    let mut i: usize = 0;
    while i <= last
        invariant
            last + sub@.len() == s@.len(),
            forall|j: int| 0 <= j < i ==> !occurs_at(s@, sub@, j),
        decreases last + 1 - i,
    {
        if matches_at(s, sub, i) {
            proof {
                let c = choose|k: int| occurs_at(s@, sub@, k) && forall|j: int| 0 <= j < k ==> !occurs_at(s@, sub@, j);
                assert(occurs_at(s@, sub@, c) && forall|j: int| 0 <= j < c ==> !occurs_at(s@, sub@, j));
                assert(c == i) by {
                    if c < i {
                        assert(!occurs_at(s@, sub@, c));
                    }
                    if c > i {
                        assert(!occurs_at(s@, sub@, i as int));
                    }
                }
            }
            return Some(i);
        }
        if i == last {
            assert forall|j: int| !occurs_at(s@, sub@, j) by {
                if 0 <= j && j + sub@.len() <= s@.len() {
                    assert(j <= last);
                }
            }
            return None;
        }
        i = i + 1;
    }
    None
}

} // verus!
