//! Line and record index over a byte source that may still be growing.
//!
//! Lines are found by scanning for `\n`; a line break at the very end of
//! the bytes seen so far leaves the next line start pending until more bytes
//! arrive. In records mode a regex decides which lines begin a record; the
//! lines before the first such line form a record of their own. The source
//! is handed in as the bytes it holds at the time of each call.

use std::borrow::Cow;
use std::ops::Range;
use vstd::prelude::*;
use crate::ansi::{strip_sgr, strip_spec};
use crate::pattern::{bytes_regex_is_match, ByteRegex};

verus! {

// ---------------------------------------------------------------------------
// The model.
// ---------------------------------------------------------------------------

/// Every element is smaller than the ones after it.
pub open spec fn strictly_increasing(v: Seq<usize>) -> bool {
    forall|i: int, j: int| 0 <= i < j < v.len() ==> v[i] < v[j]
}

/// How many elements of `v` are at most `x`.
pub open spec fn count_le(v: Seq<usize>, x: int) -> nat
    decreases v.len(),
{
    if v.len() == 0 {
        0
    } else {
        count_le(v.drop_last(), x) + (if v.last() <= x { 1nat } else { 0nat })
    }
}

/// Position of the first newline at or after `q`, or the end of `s`.
pub open spec fn line_end(s: Seq<u8>, q: int) -> int
    decreases s.len() - q,
{
    if q < 0 || q >= s.len() {
        s.len() as int
    } else if s[q] == 10 {
        q
    } else {
        line_end(s, q + 1)
    }
}

/// Whether the line that starts at `q` begins a record: always without a
/// record pattern, else when the pattern matches the line's bytes.
pub open spec fn starts_record(s: Seq<u8>, q: int, re: Option<Seq<char>>) -> bool {
    match re {
        None => true,
        Some(p) => bytes_regex_is_match(p, s.subrange(q, line_end(s, q))),
    }
}

/// The line starts of `qs` that begin records, in order.
pub open spec fn record_filter(s: Seq<u8>, qs: Seq<usize>, re: Option<Seq<char>>) -> Seq<usize>
    decreases qs.len(),
{
    if qs.len() == 0 {
        Seq::empty()
    } else {
        let rest = record_filter(s, qs.drop_last(), re);
        if starts_record(s, qs.last() as int, re) {
            rest.push(qs.last())
        } else {
            rest
        }
    }
}

/// The positions `q` in `[lo, hi)` that follow a newline and have a byte
/// after them: the line starts a scan finds there.
pub open spec fn found_starts(s: Seq<u8>, lo: int, hi: int) -> Seq<usize>
    decreases hi - lo,
{
    if hi <= lo {
        Seq::empty()
    } else {
        let prev = found_starts(s, lo, hi - 1);
        let q = hi - 1;
        if 1 <= q < s.len() && s[q - 1] == 10 {
            prev.push(q as usize)
        } else {
            prev
        }
    }
}

/// Where a scan that reads byte `a` onward stops when asked to reach
/// `stop`: just past the first newline at or beyond `stop`, or at the end.
pub open spec fn scan_end(s: Seq<u8>, a: int, stop: int) -> int
    decreases s.len() - a,
{
    if a < 0 || a >= s.len() {
        s.len() as int
    } else if a + 1 >= stop && s[a] == 10 {
        a + 1
    } else {
        scan_end(s, a + 1, stop)
    }
}

/// The part of the index that scanning changes.
pub struct ScanState {
    pub starts: Seq<usize>,
    pub record_starts: Seq<usize>,
    pub scanned: int,
    pub pending: bool,
}

/// The state after scanning `s` toward byte `target`: the line starts up
/// to where the scan stops are added (the pending one first), and those that
/// begin records; with a cap of `c` lines, scanning stops once `c + 1` line
/// starts are known (the last marks where line `c - 1` ends).
pub open spec fn scan_to(st: ScanState, s: Seq<u8>, target: int, cap: Option<usize>, re: Option<Seq<char>>) -> ScanState {
    let stop = if target < s.len() { target } else { s.len() as int };
    let a = st.scanned;
    if (cap matches Some(c) && st.starts.len() > c) || a >= stop {
        st
    } else {
        let e = scan_end(s, a, stop);
        let found = (if st.pending { seq![a as usize] } else { Seq::<usize>::empty() }) + found_starts(s, a + 1, e + 1);
        let capped = cap matches Some(c) && found.len() + st.starts.len() > c;
        let pushed = if capped { found.take(cap.unwrap() + 1 - st.starts.len()) } else { found };
        ScanState {
            starts: st.starts + pushed,
            record_starts: st.record_starts + record_filter(s, pushed, re),
            scanned: if capped { pushed.last() as int } else { e },
            pending: !capped && e == s.len() && s[s.len() - 1] == 10,
        }
    }
}

/// End of the last known line or record starting at `start`: what has been
/// scanned of `s`, without a final newline.
pub open spec fn tail_end(s: Seq<u8>, scanned: int, start: int) -> int {
    let m = if scanned >= start { scanned } else { start };
    let t = if s.len() <= m { s.len() as int } else { m };
    if t > start && s[t - 1] == 10 { t - 1 } else { t }
}

/// Byte span of line `n`: from its start to just before the next line's
/// start (its newline), the last line to the end of what was scanned.
pub open spec fn line_span(st: ScanState, n: int, s: Seq<u8>) -> (int, int) {
    let start = st.starts[n] as int;
    (start, if n + 1 < st.starts.len() { st.starts[n + 1] - 1 } else { tail_end(s, st.scanned, start) })
}

/// Byte span of record `n`, its embedded newlines included.
pub open spec fn record_span(st: ScanState, n: int, s: Seq<u8>) -> (int, int) {
    let start = st.record_starts[n] as int;
    (start, if n + 1 < st.record_starts.len() { st.record_starts[n + 1] - 1 } else { tail_end(s, st.scanned, start) })
}

/// The record that line `n` belongs to.
pub open spec fn record_of_line(st: ScanState, n: int) -> int {
    count_le(st.record_starts, st.starts[n] as int) - 1
}

/// Number of records known, within the cap of lines.
pub open spec fn records_known(st: ScanState, start: int, cap: Option<usize>) -> int {
    let raw = if st.scanned == start && st.record_starts.len() == 1 { 0 } else { st.record_starts.len() as int };
    match cap {
        Some(c) => if c == 0 {
            0
        } else {
            let v1 = if raw <= st.starts.len() { raw } else { st.starts.len() as int };
            let visible = if v1 <= c { v1 } else { c as int };
            let ln = if visible == 0 { 0 } else { visible - 1 };
            count_le(st.record_starts, st.starts[ln] as int) as int
        },
        None => raw,
    }
}

/// Number of lines known, within the cap.
pub open spec fn lines_known(st: ScanState, start: int, cap: Option<usize>) -> int {
    let raw = if st.scanned == start && st.starts.len() == 1 { 0 } else { st.starts.len() as int };
    match cap {
        Some(c) => if raw <= c { raw } else { c as int },
        None => raw,
    }
}

// ---------------------------------------------------------------------------
// The index.
// ---------------------------------------------------------------------------

/// Line starts and record starts of a source, found so far.
pub struct LineIndex {
    starts: Vec<usize>,
    record_starts: Vec<usize>,
    record_start_regex: Option<ByteRegex>,
    scanned_through: usize,
    start_byte: usize,
    pending_line_start: bool,
    head_cap: Option<usize>,
    /// Whether record 0 is settled: always without a record pattern, else
    /// once a line has matched.
    record_zero_committed: bool,
}

impl LineIndex {
    pub closed spec fn state(&self) -> ScanState {
        ScanState {
            starts: self.starts@,
            record_starts: self.record_starts@,
            scanned: self.scanned_through as int,
            pending: self.pending_line_start,
        }
    }

    /// The byte offset the index begins at.
    pub closed spec fn start(&self) -> int {
        self.start_byte as int
    }

    /// The cap on lines, if any.
    pub closed spec fn cap(&self) -> Option<usize> {
        self.head_cap
    }

    /// The record pattern, if records mode is on.
    pub closed spec fn regex(&self) -> Option<Seq<char>> {
        match self.record_start_regex {
            Some(r) => Some(r@),
            None => None,
        }
    }

    /// The index is consistent: sorted line starts beginning at the start
    /// byte, record starts among them, nothing past what was scanned.
    pub closed spec fn wf(&self) -> bool {
        &&& self.starts@.len() >= 1
        &&& self.starts@[0] == self.start_byte
        &&& strictly_increasing(self.starts@)
        &&& self.record_starts@.len() >= 1
        &&& self.record_starts@[0] == self.start_byte
        &&& strictly_increasing(self.record_starts@)
        &&& forall|k: int| 0 <= k < self.record_starts@.len() ==> #[trigger] self.starts@.contains(self.record_starts@[k])
        &&& self.start_byte <= self.scanned_through
        &&& self.starts@.last() <= self.scanned_through
        &&& self.pending_line_start ==> self.starts@.last() < self.scanned_through
        &&& self.record_zero_committed == (self.record_start_regex is None || self.record_starts@.len() > 1)
        &&& self.record_start_regex is None ==> self.record_starts@ == self.starts@
    }

    /// An index of a source from its first byte.
    pub fn new() -> (ix: Self)
        ensures
            ix.wf(),
            ix.start() == 0,
            ix.state() == (ScanState { starts: seq![0usize], record_starts: seq![0usize], scanned: 0, pending: false }),
            ix.cap() is None,
            ix.regex() is None,
    {
        Self::new_starting_at(0)
    }

    /// An index that begins at byte `start_byte`: bytes before it are never
    /// scanned and belong to no line.
    pub fn new_starting_at(start_byte: usize) -> (ix: Self)
        ensures
            ix.wf(),
            ix.start() == start_byte,
            ix.state() == (ScanState { starts: seq![start_byte], record_starts: seq![start_byte], scanned: start_byte as int, pending: false }),
            ix.cap() is None,
            ix.regex() is None,
    {
        let ix = LineIndex {
            starts: vec![start_byte],
            record_starts: vec![start_byte],
            record_start_regex: None,
            scanned_through: start_byte,
            start_byte,
            pending_line_start: false,
            head_cap: None,
            record_zero_committed: true,
        };
        assert(ix.starts@ =~= seq![start_byte]);
        assert(ix.record_starts@ =~= seq![start_byte]);
        ix
    }

    /// Keep to the first `cap` lines from the start.
    pub fn set_head_cap(&mut self, cap: usize)
        requires
            old(self).wf(),
        ensures
            final(self).wf(),
            final(self).cap() == Some(cap),
            final(self).state() == old(self).state(),
            final(self).start() == old(self).start(),
            final(self).regex() == old(self).regex(),
    {
        self.head_cap = Some(cap);
    }

    /// Turn records mode on with `re`; only before any scanning.
    pub fn set_record_start(&mut self, re: ByteRegex)
        requires
            old(self).wf(),
            old(self).state().scanned == old(self).start(),
            old(self).state().starts.len() == 1,
        ensures
            final(self).wf(),
            final(self).regex() == Some(re@),
            final(self).state() == old(self).state(),
            final(self).start() == old(self).start(),
            final(self).cap() == old(self).cap(),
    {
        assert(self.record_starts@.len() == 1) by {
            if self.record_starts@.len() > 1 {
                let x = self.record_starts@[1];
                assert(self.starts@.contains(x));
                assert(self.record_starts@[0] < x);
            }
        }
        self.record_start_regex = Some(re);
        self.record_zero_committed = false;
    }

    /// Leave records mode and start the index afresh from the start byte.
    pub fn clear_record_start(&mut self)
        requires
            old(self).wf(),
        ensures
            final(self).wf(),
            final(self).regex() is None,
            final(self).state() == (ScanState {
                starts: seq![old(self).start() as usize],
                record_starts: seq![old(self).start() as usize],
                scanned: old(self).start(),
                pending: false,
            }),
            final(self).start() == old(self).start(),
            final(self).cap() == old(self).cap(),
    {
        self.reset_record_start_opt(None);
    }

    /// Start the index afresh from the start byte, in records mode with `re`
    /// if given.
    pub fn reset_record_start_opt(&mut self, re: Option<ByteRegex>)
        requires
            old(self).wf(),
        ensures
            final(self).wf(),
            final(self).regex() == (match re {
                Some(r) => Some(r@),
                None => None::<Seq<char>>,
            }),
            final(self).state() == (ScanState {
                starts: seq![old(self).start() as usize],
                record_starts: seq![old(self).start() as usize],
                scanned: old(self).start(),
                pending: false,
            }),
            final(self).start() == old(self).start(),
            final(self).cap() == old(self).cap(),
    {
        let none = re.is_none();
        self.record_start_regex = re;
        self.starts = vec![self.start_byte];
        self.record_starts = vec![self.start_byte];
        self.scanned_through = self.start_byte;
        self.pending_line_start = false;
        self.record_zero_committed = none;
        assert(self.starts@ =~= seq![self.start_byte]);
        assert(self.record_starts@ =~= seq![self.start_byte]);
    }

    /// Whether records mode is on.
    pub fn records_mode(&self) -> (r: bool)
        ensures
            r == (self.regex() is Some),
    {
        self.record_start_regex.is_some()
    }

    /// Number of lines known, within the cap. Nothing scanned yet counts as
    /// no lines.
    pub fn line_count(&self) -> (n: usize)
        ensures
            n == lines_known(self.state(), self.start(), self.cap()),
    {
        let raw = if self.scanned_through == self.start_byte && self.starts.len() == 1 {
            0
        } else {
            self.starts.len()
        };
        match self.head_cap {
            Some(cap) => if raw <= cap { raw } else { cap },
            None => raw,
        }
    }

    /// Scanning has found one line start past the cap (the one that ends the
    /// last visible line).
    fn at_scan_cap(&self) -> (r: bool)
        ensures
            r == (self.head_cap matches Some(c) && self.starts@.len() > c),
    {
        match self.head_cap {
            Some(cap) => self.starts.len() > cap,
            None => false,
        }
    }

    /// The end of the line that starts at `line_start`.
    fn find_line_end(&self, line_start: usize, src: &[u8]) -> (e: usize)
        requires
            line_start <= src@.len(),
        ensures
            e == line_end(src@, line_start as int),
    {
        let total = src.len();
        let mut i = line_start;
        while i < total
            invariant
                line_start <= i <= total,
                total == src@.len(),
                line_end(src@, line_start as int) == line_end(src@, i as int),
            decreases total - i,
        {
            if src[i] == 10u8 {
                return i;
            }
            i = i + 1;
        }
        total
    }

    /// Record the newly found line start `line_start` as a record start
    /// too, when it begins one.
    fn maybe_push_record_start(&mut self, line_start: usize, src: &[u8])
        requires
            old(self).start_byte < line_start <= src@.len(),
            old(self).record_starts@.len() >= 1,
            old(self).record_zero_committed == (old(self).record_start_regex is None || old(self).record_starts@.len() > 1),
        ensures
            final(self).record_starts@ == old(self).record_starts@ + (if starts_record(src@, line_start as int, old(self).regex()) {
                seq![line_start]
            } else {
                Seq::<usize>::empty()
            }),
            final(self).record_zero_committed == (final(self).record_start_regex is None || final(self).record_starts@.len() > 1),
            final(self).starts == old(self).starts,
            final(self).record_start_regex == old(self).record_start_regex,
            final(self).scanned_through == old(self).scanned_through,
            final(self).start_byte == old(self).start_byte,
            final(self).pending_line_start == old(self).pending_line_start,
            final(self).head_cap == old(self).head_cap,
    {
        proof { lemma_line_end_bounds(src@, line_start as int); }
        match &self.record_start_regex {
            None => {
                self.record_starts.push(line_start);
            },
            Some(re) => {
                let line_end = self.find_line_end(line_start, src);
                let line_bytes = &src[line_start..line_end];
                let is_match = re.is_match(line_bytes);
                if is_match {
                    if !self.record_zero_committed {
                        if line_start == self.start_byte {
                        } else {
                            self.record_starts.push(line_start);
                        }
                        self.record_zero_committed = true;
                    } else {
                        self.record_starts.push(line_start);
                    }
                } else if !self.record_zero_committed && line_start == self.start_byte {
                    self.record_zero_committed = true;
                }
            },
        }
    }

    /// All of `wf` but the facts about the scanned position.
    closed spec fn inv_except_scanned(&self) -> bool {
        &&& self.starts@.len() >= 1
        &&& self.starts@[0] == self.start_byte
        &&& strictly_increasing(self.starts@)
        &&& self.record_starts@.len() >= 1
        &&& self.record_starts@[0] == self.start_byte
        &&& strictly_increasing(self.record_starts@)
        &&& forall|k: int| 0 <= k < self.record_starts@.len() ==> #[trigger] self.starts@.contains(self.record_starts@[k])
        &&& self.record_zero_committed == (self.record_start_regex is None || self.record_starts@.len() > 1)
        &&& self.record_start_regex is None ==> self.record_starts@ == self.starts@
    }

    /// Add the newly found line start `q`, and make it a record start when
    /// it begins one.
    fn push_line_start(&mut self, q: usize, src: &[u8])
        requires
            old(self).inv_except_scanned(),
            old(self).starts@.last() < q <= src@.len(),
        ensures
            final(self).inv_except_scanned(),
            final(self).starts@ == old(self).starts@.push(q),
            final(self).record_starts@ == old(self).record_starts@ + (if starts_record(src@, q as int, old(self).regex()) {
                seq![q]
            } else {
                Seq::<usize>::empty()
            }),
            final(self).record_start_regex == old(self).record_start_regex,
            final(self).scanned_through == old(self).scanned_through,
            final(self).start_byte == old(self).start_byte,
            final(self).pending_line_start == old(self).pending_line_start,
            final(self).head_cap == old(self).head_cap,
    {
        let ghost st = self.starts@;
        let ghost rs = self.record_starts@;
        proof {
            assert(st[0] < q);
            assert forall|k: int| 0 <= k < rs.len() implies #[trigger] rs[k] < q by {
                assert(st.contains(rs[k]));
                let j = choose|j: int| 0 <= j < st.len() && st[j] == rs[k];
                assert(st[j] <= st.last());
            }
        }
        self.starts.push(q);
        self.maybe_push_record_start(q, src);
        proof {
            assert forall|k: int| 0 <= k < self.record_starts@.len() implies #[trigger] self.starts@.contains(self.record_starts@[k]) by {
                if k < rs.len() {
                    assert(st.contains(rs[k]));
                    let j = choose|j: int| 0 <= j < st.len() && st[j] == rs[k];
                    assert(self.starts@[j] == rs[k]);
                } else {
                    assert(self.starts@[st.len() as int] == q);
                }
            }
            if self.record_start_regex is None {
                assert(self.record_starts@ =~= self.starts@);
            }
        }
    }

    /// Scan `src` from where the index stands toward byte `target_byte`.
    #[verifier::rlimit(100)]
    #[verifier::spinoff_prover]
    fn extend_to_byte(&mut self, src: &[u8], target_byte: usize)
        requires
            old(self).wf(),
        ensures
            final(self).wf(),
            final(self).state() == scan_to(old(self).state(), src@, target_byte as int, old(self).cap(), old(self).regex()),
            final(self).start() == old(self).start(),
            final(self).cap() == old(self).cap(),
            final(self).regex() == old(self).regex(),
    {
        if self.at_scan_cap() {
            return;
        }
        if matches!(self.head_cap, Some(0)) {
            return;
        }
        let total = src.len();
        let stop = if target_byte < total { target_byte } else { total };
        if self.scanned_through >= stop {
            return;
        }
        let ghost s = src@;
        let ghost st0 = self.state();
        let ghost re = self.regex();
        let ghost a = self.scanned_through as int;
        let ghost e = scan_end(s, a, stop as int);
        let ghost pend: Seq<usize> = if st0.pending { seq![a as usize] } else { Seq::<usize>::empty() };
        let ghost found = pend + found_starts(s, a + 1, e + 1);
        proof {
            lemma_scan_end_bounds(s, a, stop as int);
            assert(found_starts(s, a + 1, a + 1) =~= Seq::<usize>::empty());
            assert(record_filter(s, Seq::<usize>::empty(), re) =~= Seq::<usize>::empty());
        }
        if self.pending_line_start {
            let line_start = self.scanned_through;
            self.push_line_start(line_start, src);
            self.pending_line_start = false;
            proof {
                assert(seq![line_start].drop_last() =~= Seq::<usize>::empty());
                assert(record_filter(s, seq![line_start], re) =~= (if starts_record(s, line_start as int, re) {
                    seq![line_start]
                } else {
                    Seq::<usize>::empty()
                }));
            }
            if self.at_scan_cap() {
                proof {
                    assert(found.take(1) =~= seq![line_start]);
                    lemma_scan_to_capped(st0, s, target_byte as int, self.head_cap, re, stop as int, e, found, 1);
                    assert(self.starts@ =~= st0.starts + found.take(1));
                    assert(self.record_starts@ =~= st0.record_starts + record_filter(s, found.take(1), re));
                }
                return;
            }
        }
        proof {
            assert(pend + found_starts(s, a + 1, a + 1) =~= pend);
            assert(self.starts@ =~= st0.starts + pend);
            assert(self.record_starts@ =~= st0.record_starts + record_filter(s, pend, re));
        }
        let mut pos = self.scanned_through;
        while pos < total
            invariant
                s == src@,
                total == s.len(),
                a < stop <= total,
                stop == (if target_byte < total { target_byte } else { total }),
                a <= pos <= total,
                e == scan_end(s, a, stop as int),
                e == scan_end(s, pos as int, stop as int),
                pos < total ==> pos < e,
                pos > a ==> !(s[pos - 1] == 10 && pos >= stop),
                found == pend + found_starts(s, a + 1, e + 1),
                pend == (if st0.pending { seq![a as usize] } else { Seq::<usize>::empty() }),
                !self.pending_line_start,
                self.starts@ == st0.starts + (pend + found_starts(s, a + 1, pos + 1)),
                self.record_starts@ == st0.record_starts + record_filter(s, pend + found_starts(s, a + 1, pos + 1), re),
                self.head_cap matches Some(c) ==> self.starts@.len() <= c,
                self.scanned_through == a,
                self.regex() == re,
                st0.scanned == a,
                st0 == old(self).state(),
                re == old(self).regex(),
                !(self.head_cap matches Some(c) && st0.starts.len() > c),
                self.inv_except_scanned(),
                self.start_byte <= a,
                self.starts@.last() <= pos,
                self.head_cap == old(self).head_cap,
                self.start_byte == old(self).start_byte,
                self.record_start_regex == old(self).record_start_regex,
            decreases total - pos,
        {
            let b = src[pos];
            proof {
                lemma_found_starts_step(s, a + 1, pos as int + 1);
                lemma_scan_end_step(s, pos as int, stop as int);
            }
            let ghost prev = pend + found_starts(s, a + 1, pos + 1);
            pos = pos + 1;
            if b == 10u8 {
                if pos < total {
                    self.push_line_start(pos, src);
                    proof {
                        assert(pend + found_starts(s, a + 1, pos + 1) =~= prev.push(pos));
                        assert(prev.push(pos).drop_last() =~= prev);
                        assert(self.starts@ =~= st0.starts + prev.push(pos));
                        assert(self.record_starts@ =~= st0.record_starts + record_filter(s, prev.push(pos), re));
                    }
                    if self.at_scan_cap() {
                        self.scanned_through = pos;
                        proof {
                            lemma_scan_end_bounds(s, pos as int - 1, stop as int);
                            lemma_found_starts_prefix(s, a + 1, pos as int + 1, e + 1);
                            let room = self.head_cap.unwrap() + 1 - st0.starts.len();
                            assert(prev.push(pos).len() == room);
                            assert(found.take(room) =~= prev.push(pos));
                            lemma_scan_to_capped(st0, s, target_byte as int, self.head_cap, re, stop as int, e, found, room);
                            assert(found.take(room).last() == pos);
                            assert(self.starts@ =~= st0.starts + found.take(room));
                            assert(self.record_starts@ =~= st0.record_starts + record_filter(s, found.take(room), re));
                        }
                        return;
                    }
                } else {
                    self.scanned_through = pos;
                    self.pending_line_start = true;
                    proof {
                        assert(pend + found_starts(s, a + 1, pos + 1) =~= prev);
                        assert(found =~= prev);
                        lemma_scan_to_uncapped(st0, s, target_byte as int, self.head_cap, re, stop as int, e, found);
                    }
                    return;
                }
            } else {
                proof {
                    assert(pend + found_starts(s, a + 1, pos + 1) =~= prev);
                }
            }
            if pos >= stop && b == 10u8 {
                self.scanned_through = pos;
                proof {
                    assert(e == pos as int);
                    assert(found =~= pend + found_starts(s, a + 1, pos + 1));
                    assert(self.starts@ =~= st0.starts + found);
                    assert(self.record_starts@ =~= st0.record_starts + record_filter(s, found, re));
                    lemma_scan_to_uncapped(st0, s, target_byte as int, self.head_cap, re, stop as int, e, found);
                }
                return;
            }
            proof {
                if pos < total {
                    lemma_scan_end_bounds(s, pos as int, stop as int);
                }
            }
        }
        self.scanned_through = total;
        proof {
            lemma_scan_to_uncapped(st0, s, target_byte as int, self.head_cap, re, stop as int, e, found);
        }
    }
}

impl LineIndex {
    /// Scan on until line `n` is known, the source is used up, or the cap
    /// is reached.
    pub fn extend_to_line(&mut self, n: usize, src: &[u8])
        requires
            old(self).wf(),
        ensures
            final(self).wf(),
            final(self).state() == (if old(self).state().starts.len() <= n && old(self).state().scanned < src@.len()
                && !(old(self).cap() matches Some(c) && old(self).state().starts.len() > c) {
                scan_to(old(self).state(), src@, src@.len() as int, old(self).cap(), old(self).regex())
            } else {
                old(self).state()
            }),
            final(self).start() == old(self).start(),
            final(self).cap() == old(self).cap(),
            final(self).regex() == old(self).regex(),
    {
        let ghost st0 = self.state();
        let ghost mut k: int = 0;
        while self.starts.len() <= n && self.scanned_through < src.len()
            invariant
                self.wf(),
                0 <= k <= 1,
                k == 0 ==> self.state() == st0,
                k == 1 ==> st0.starts.len() <= n && st0.scanned < src@.len()
                    && !(self.head_cap matches Some(c) && st0.starts.len() > c)
                    && self.state() == scan_to(st0, src@, src@.len() as int, self.head_cap, self.regex())
                    && (self.scanned_through == src@.len() || (self.head_cap matches Some(c) && self.starts@.len() > c)),
                st0 == old(self).state(),
                self.start() == old(self).start(),
                self.cap() == old(self).cap(),
                self.regex() == old(self).regex(),
            decreases 1 - k,
        {
            if self.at_scan_cap() {
                return;
            }
            let ghost before = self.state();
            self.extend_to_byte(src, src.len());
            proof {
                lemma_scan_full(before, src@, self.head_cap, self.regex());
                k = 1;
            }
        }
    }

    /// Scan everything the source holds.
    pub fn extend_to_end(&mut self, src: &[u8])
        requires
            old(self).wf(),
        ensures
            final(self).wf(),
            final(self).state() == scan_to(old(self).state(), src@, src@.len() as int, old(self).cap(), old(self).regex()),
            final(self).start() == old(self).start(),
            final(self).cap() == old(self).cap(),
            final(self).regex() == old(self).regex(),
    {
        self.extend_to_byte(src, src.len());
    }

    /// Take in bytes the source has gained.
    pub fn notice_new_bytes(&mut self, src: &[u8])
        requires
            old(self).wf(),
        ensures
            final(self).wf(),
            final(self).state() == scan_to(old(self).state(), src@, src@.len() as int, old(self).cap(), old(self).regex()),
            final(self).start() == old(self).start(),
            final(self).cap() == old(self).cap(),
            final(self).regex() == old(self).regex(),
    {
        self.extend_to_byte(src, src.len());
    }

    /// Scan until byte `byte` is covered, or the source is used up.
    pub fn extend_to_byte_for_query(&mut self, src: &[u8], byte: usize)
        requires
            old(self).wf(),
        ensures
            final(self).wf(),
            final(self).state() == scan_to(old(self).state(), src@, byte as int, old(self).cap(), old(self).regex()),
            final(self).start() == old(self).start(),
            final(self).cap() == old(self).cap(),
            final(self).regex() == old(self).regex(),
    {
        self.extend_to_byte(src, byte);
    }

    /// The byte position scanning has reached.
    pub fn scanned_through(&self) -> (r: usize)
        ensures
            r == self.state().scanned,
    {
        self.scanned_through
    }
}

impl LineIndex {
    /// The line that holds byte `byte`: `None` before the start byte or at
    /// or past what was scanned.
    pub fn line_at_byte(&self, byte: usize) -> (r: Option<usize>)
        requires
            self.wf(),
        ensures
            r == (if byte < self.start() || byte >= self.state().scanned {
                None
            } else {
                Some((count_le(self.state().starts, byte as int) - 1) as usize)
            }),
    {
        if byte < self.start_byte || byte >= self.scanned_through {
            return None;
        }
        let k = count_at_most(&self.starts, byte);
        if k == 0 {
            None
        } else {
            Some(k - 1)
        }
    }

    /// Byte range of line `n`, without its newline.
    pub fn line_range(&self, n: usize, src: &[u8]) -> (r: Range<usize>)
        requires
            self.wf(),
            n < self.state().starts.len(),
        ensures
            (r.start as int, r.end as int) == line_span(self.state(), n as int, src@),
    {
        let start = self.starts[n];
        let end = if n < self.starts.len() - 1 {
            proof {
                assert(self.starts@[n as int] < self.starts@[n + 1]);
            }
            self.starts[n + 1] - 1
        } else {
            self.tail_end_of(start, src)
        };
        start..end
    }

    /// End of the last line or record, which starts at `start`.
    fn tail_end_of(&self, start: usize, src: &[u8]) -> (t: usize)
        ensures
            t == tail_end(src@, self.scanned_through as int, start as int),
    {
        let m = if self.scanned_through >= start { self.scanned_through } else { start };
        let total_scanned = if src.len() <= m { src.len() } else { m };
        if total_scanned > start && src[total_scanned - 1] == 10u8 {
            total_scanned - 1
        } else {
            total_scanned
        }
    }

    /// Number of records known. Without a record pattern this is the
    /// number of lines (but for an empty source under a cap).
    pub fn record_count(&self) -> (n: usize)
        requires
            self.wf(),
        ensures
            n == records_known(self.state(), self.start(), self.cap()),
    {
        let raw = if self.scanned_through == self.start_byte && self.record_starts.len() == 1
            && self.record_start_regex.is_none() {
            0
        } else if self.scanned_through == self.start_byte && self.record_starts.len() == 1
            && self.record_start_regex.is_some() && !self.record_zero_committed {
            0
        } else {
            self.record_starts.len()
        };
        match self.head_cap {
            Some(0) => 0,
            Some(cap) => {
                let v1 = if raw <= self.starts.len() { raw } else { self.starts.len() };
                let visible = if v1 <= cap { v1 } else { cap };
                let ln = if visible == 0 { 0 } else { visible - 1 };
                match self.line_to_record_inner(ln) {
                    Some(r) => r + 1,
                    None => 0,
                }
            },
            None => raw,
        }
    }

    /// Byte range of record `n`, with its embedded newlines but not the
    /// newline after it.
    pub fn record_range(&self, n: usize, src: &[u8]) -> (r: Range<usize>)
        requires
            self.wf(),
            n < self.state().record_starts.len(),
        ensures
            (r.start as int, r.end as int) == record_span(self.state(), n as int, src@),
    {
        let start = self.record_starts[n];
        let end = if n < self.record_starts.len() - 1 {
            proof {
                assert(self.record_starts@[n as int] < self.record_starts@[n + 1]);
            }
            self.record_starts[n + 1] - 1
        } else {
            self.tail_end_of(start, src)
        };
        start..end
    }

    /// The lines `[first, last)` of record `n`.
    pub fn record_line_range(&self, n: usize) -> (r: Range<usize>)
        requires
            self.wf(),
            n < self.state().record_starts.len(),
        ensures
            r.start < self.state().starts.len(),
            self.state().starts[r.start as int] == self.state().record_starts[n as int],
            r.start as int == count_le(self.state().starts, self.state().record_starts[n as int] as int) - 1,
            n + 1 < self.state().record_starts.len() ==> r.end as int == count_le(self.state().starts, self.state().record_starts[n + 1] as int) - 1,
            n + 1 < self.state().record_starts.len() ==> r.end < self.state().starts.len()
                && self.state().starts[r.end as int] == self.state().record_starts[n + 1],
            n + 1 == self.state().record_starts.len() ==> r.end == self.state().starts.len(),
            r.start < r.end,
    {
        let first_line = self.line_of_start(self.record_starts[n]);
        let last_line = if n < self.record_starts.len() - 1 {
            proof {
                assert(self.record_starts@[n as int] < self.record_starts@[n + 1]);
            }
            self.line_of_start(self.record_starts[n + 1])
        } else {
            self.starts.len()
        };
        proof {
            if last_line < self.starts@.len() && last_line <= first_line {
                if last_line < first_line {
                    assert(self.starts@[last_line as int] < self.starts@[first_line as int]);
                }
            }
        }
        first_line..last_line
    }

    /// The line that starts at `x`, a known record start.
    fn line_of_start(&self, x: usize) -> (i: usize)
        requires
            self.wf(),
            self.starts@.contains(x),
        ensures
            i < self.starts@.len(),
            self.starts@[i as int] == x,
            i as int == count_le(self.starts@, x as int) - 1,
    {
        let k = count_at_most(&self.starts, x);
        proof {
            let j = choose|j: int| 0 <= j < self.starts@.len() && self.starts@[j] == x;
            assert(j < k);
            if j < k - 1 {
                assert(self.starts@[j] < self.starts@[k - 1]);
            }
        }
        k - 1
    }

    /// The record that line `line_n` belongs to (0 for an unknown line).
    pub fn line_to_record(&self, line_n: usize) -> (r: usize)
        requires
            self.wf(),
        ensures
            r == (if line_n < self.state().starts.len() { record_of_line(self.state(), line_n as int) } else { 0 }),
    {
        match self.line_to_record_inner(line_n) {
            Some(r) => r,
            None => 0,
        }
    }

    fn line_to_record_inner(&self, line_n: usize) -> (r: Option<usize>)
        requires
            self.wf(),
        ensures
            r == (if line_n < self.starts@.len() {
                Some(record_of_line(self.state(), line_n as int) as usize)
            } else {
                None
            }),
            r matches Some(i) ==> i < self.record_starts@.len() && i as int == record_of_line(self.state(), line_n as int),
            line_n < self.starts@.len() ==> count_le(self.record_starts@, self.starts@[line_n as int] as int) >= 1,
    {
        if self.starts.len() <= line_n {
            return None;
        }
        let line_start = self.starts[line_n];
        proof {
            if line_n > 0 {
                assert(self.starts@[0] < self.starts@[line_n as int]);
            }
        }
        let k = count_at_most(&self.record_starts, line_start);
        assert(k >= 1) by {
            if k == 0 {
                assert(self.record_starts@[0] > line_start);
            }
        }
        if k == 0 {
            Some(0)
        } else {
            Some(k - 1)
        }
    }

    /// The bytes of record `n`, embedded newlines included.
    pub fn record_bytes<'a>(&self, n: usize, src: &'a [u8]) -> (b: Cow<'a, [u8]>)
        requires
            self.wf(),
            n < self.state().record_starts.len(),
            self.state().scanned <= src@.len(),
        ensures
            b@ == src@.subrange(record_span(self.state(), n as int, src@).0, record_span(self.state(), n as int, src@).1),
    {
        let r = self.record_range(n, src);
        proof {
            self.lemma_record_span_valid(n as int, src@);
        }
        Cow::Borrowed(&src[r])
    }

    /// The bytes of line `n` with SGR/CSI/OSC sequences stripped; borrowed
    /// from the source when there is nothing to strip.
    pub fn line_bytes_stripped<'a>(&self, n: usize, src: &'a [u8]) -> (b: Cow<'a, [u8]>)
        requires
            self.wf(),
            n < self.state().starts.len(),
            self.state().scanned <= src@.len(),
        ensures
            b@ == strip_spec(src@.subrange(line_span(self.state(), n as int, src@).0, line_span(self.state(), n as int, src@).1)),
    {
        let r = self.line_range(n, src);
        proof {
            self.lemma_line_span_valid(n as int, src@);
        }
        strip_sgr(&src[r])
    }

    /// The bytes of record `n` with SGR/CSI/OSC sequences stripped.
    pub fn record_bytes_stripped<'a>(&self, n: usize, src: &'a [u8]) -> (b: Cow<'a, [u8]>)
        requires
            self.wf(),
            n < self.state().record_starts.len(),
            self.state().scanned <= src@.len(),
        ensures
            b@ == strip_spec(src@.subrange(record_span(self.state(), n as int, src@).0, record_span(self.state(), n as int, src@).1)),
    {
        let r = self.record_range(n, src);
        proof {
            self.lemma_record_span_valid(n as int, src@);
        }
        strip_sgr(&src[r])
    }

    /// Within what was scanned of `s`, line spans are ranges of `s`.
    proof fn lemma_line_span_valid(&self, n: int, s: Seq<u8>)
        requires
            self.wf(),
            0 <= n < self.starts@.len(),
            self.scanned_through <= s.len(),
        ensures
            0 <= line_span(self.state(), n, s).0 <= line_span(self.state(), n, s).1 <= s.len(),
    {
        assert(self.starts@[n] <= self.starts@.last());
        if n + 1 < self.starts@.len() {
            assert(self.starts@[n] < self.starts@[n + 1]);
            assert(self.starts@[n + 1] <= self.starts@.last());
        }
    }

    /// Within what was scanned of `s`, record spans are ranges of `s`.
    proof fn lemma_record_span_valid(&self, n: int, s: Seq<u8>)
        requires
            self.wf(),
            0 <= n < self.record_starts@.len(),
            self.scanned_through <= s.len(),
        ensures
            0 <= record_span(self.state(), n, s).0 <= record_span(self.state(), n, s).1 <= s.len(),
    {
        let rs = self.record_starts@;
        let st = self.starts@;
        assert(st.contains(rs[n]));
        let j = choose|j: int| 0 <= j < st.len() && st[j] == rs[n];
        assert(st[j] <= st.last());
        if n + 1 < rs.len() {
            assert(rs[n] < rs[n + 1]);
            assert(st.contains(rs[n + 1]));
            let j2 = choose|j: int| 0 <= j < st.len() && st[j] == rs[n + 1];
            assert(st[j2] <= st.last());
        }
    }
}

impl Default for LineIndex {
    fn default() -> (ix: Self)
        ensures
            ix.wf(),
            ix.start() == 0,
            ix.state() == (ScanState { starts: seq![0usize], record_starts: seq![0usize], scanned: 0, pending: false }),
            ix.cap() is None,
            ix.regex() is None,
    {
        Self::new()
    }
}

/// How many elements of the sorted `v` are at most `x`, by binary search.
fn count_at_most(v: &Vec<usize>, x: usize) -> (k: usize)
    requires
        strictly_increasing(v@),
    ensures
        k == count_le(v@, x as int),
        k <= v@.len(),
        forall|j: int| 0 <= j < k ==> #[trigger] v@[j] <= x,
        forall|j: int| k <= j < v@.len() ==> #[trigger] v@[j] > x,
{
    let mut lo: usize = 0;
    let mut hi: usize = v.len();
    while lo < hi
        invariant
            lo <= hi <= v@.len(),
            strictly_increasing(v@),
            forall|j: int| 0 <= j < lo ==> #[trigger] v@[j] <= x,
            forall|j: int| hi <= j < v@.len() ==> #[trigger] v@[j] > x,
        decreases hi - lo,
    {
        let mid = lo + (hi - lo) / 2;
        if v[mid] <= x {
            proof {
                assert forall|j: int| 0 <= j < mid + 1 implies #[trigger] v@[j] <= x by {
                    if j < mid {
                        assert(v@[j] < v@[mid as int]);
                    }
                }
            }
            lo = mid + 1;
        } else {
            proof {
                assert forall|j: int| mid <= j < v@.len() implies #[trigger] v@[j] > x by {
                    if j > mid {
                        assert(v@[mid as int] < v@[j]);
                    }
                }
            }
            hi = mid;
        }
    }
    proof {
        lemma_partition_count(v@, x as int, lo as int);
    }
    lo
}

/// The split point of a sorted sequence around `x` is the count of
/// elements at most `x`.
proof fn lemma_partition_count(v: Seq<usize>, x: int, k: int)
    requires
        0 <= k <= v.len(),
        forall|j: int| 0 <= j < k ==> #[trigger] v[j] <= x,
        forall|j: int| k <= j < v.len() ==> #[trigger] v[j] > x,
    ensures
        count_le(v, x) == k,
    decreases v.len(),
{
    if v.len() > 0 {
        let w = v.drop_last();
        if k == v.len() {
            assert(v[v.len() - 1] <= x);
            assert forall|j: int| 0 <= j < k - 1 implies #[trigger] w[j] <= x by {
                assert(v[j] <= x);
            }
            lemma_partition_count(w, x, k - 1);
        } else {
            assert(v[v.len() - 1] > x);
            assert forall|j: int| 0 <= j < k implies #[trigger] w[j] <= x by {
                assert(v[j] <= x);
            }
            assert forall|j: int| k <= j < w.len() implies #[trigger] w[j] > x by {
                assert(v[j] > x);
            }
            lemma_partition_count(w, x, k);
        }
    }
}

/// A scan toward the end of the source either uses it all up or reaches
/// the cap.
proof fn lemma_scan_full(st: ScanState, s: Seq<u8>, cap: Option<usize>, re: Option<Seq<char>>)
    requires
        st.scanned < s.len(),
        !(cap matches Some(c) && st.starts.len() > c),
    ensures
        scan_to(st, s, s.len() as int, cap, re).scanned == s.len()
            || (cap matches Some(c) && scan_to(st, s, s.len() as int, cap, re).starts.len() > c),
{
    if st.scanned >= 0 {
        lemma_scan_end_full(s, st.scanned);
    }
}

/// Asked to reach the end, a scan stops only there.
proof fn lemma_scan_end_full(s: Seq<u8>, a: int)
    requires
        0 <= a < s.len(),
    ensures
        scan_end(s, a, s.len() as int) == s.len(),
    decreases s.len() - a,
{
    if !(a + 1 >= s.len() && s[a] == 10) {
        if a + 1 < s.len() {
            lemma_scan_end_full(s, a + 1);
        } else {
            assert(scan_end(s, a + 1, s.len() as int) == s.len());
        }
    }
}

/// `scan_to` when the scan runs to where it stops on its own.
proof fn lemma_scan_to_uncapped(st: ScanState, s: Seq<u8>, target: int, cap: Option<usize>, re: Option<Seq<char>>, stop: int, e: int, found: Seq<usize>)
    requires
        stop == (if target < s.len() { target } else { s.len() as int }),
        !(cap matches Some(c) && st.starts.len() > c),
        st.scanned < stop,
        e == scan_end(s, st.scanned, stop),
        found == (if st.pending { seq![st.scanned as usize] } else { Seq::<usize>::empty() }) + found_starts(s, st.scanned + 1, e + 1),
        cap matches Some(c) ==> found.len() + st.starts.len() <= c,
    ensures
        scan_to(st, s, target, cap, re) == (ScanState {
            starts: st.starts + found,
            record_starts: st.record_starts + record_filter(s, found, re),
            scanned: e,
            pending: e == s.len() && s[s.len() - 1] == 10,
        }),
{
}

/// `scan_to` when the cap ends the scan, after `room` new line starts.
proof fn lemma_scan_to_capped(st: ScanState, s: Seq<u8>, target: int, cap: Option<usize>, re: Option<Seq<char>>, stop: int, e: int, found: Seq<usize>, room: int)
    requires
        stop == (if target < s.len() { target } else { s.len() as int }),
        cap matches Some(c) && st.starts.len() <= c && room == c + 1 - st.starts.len(),
        st.scanned < stop,
        e == scan_end(s, st.scanned, stop),
        found == (if st.pending { seq![st.scanned as usize] } else { Seq::<usize>::empty() }) + found_starts(s, st.scanned + 1, e + 1),
        found.len() >= room,
    ensures
        scan_to(st, s, target, cap, re) == (ScanState {
            starts: st.starts + found.take(room),
            record_starts: st.record_starts + record_filter(s, found.take(room), re),
            scanned: found.take(room).last() as int,
            pending: false,
        }),
{
}

proof fn lemma_line_end_bounds(s: Seq<u8>, q: int)
    requires
        0 <= q <= s.len(),
    ensures
        q <= line_end(s, q) <= s.len(),
    decreases s.len() - q,
{
    if q < s.len() && s[q] != 10 {
        lemma_line_end_bounds(s, q + 1);
    }
}

proof fn lemma_scan_end_bounds(s: Seq<u8>, a: int, stop: int)
    requires
        0 <= a < s.len(),
    ensures
        a < scan_end(s, a, stop) <= s.len(),
    decreases s.len() - a,
{
    if !(a + 1 >= stop && s[a] == 10) {
        if a + 1 < s.len() {
            lemma_scan_end_bounds(s, a + 1, stop);
        } else {
            assert(scan_end(s, a + 1, stop) == s.len());
        }
    }
}

proof fn lemma_scan_end_step(s: Seq<u8>, a: int, stop: int)
    requires
        0 <= a < s.len(),
    ensures
        (a + 1 >= stop && s[a] == 10) ==> scan_end(s, a, stop) == a + 1,
        !(a + 1 >= stop && s[a] == 10) ==> scan_end(s, a, stop) == scan_end(s, a + 1, stop),
{
}

proof fn lemma_found_starts_step(s: Seq<u8>, lo: int, hi: int)
    requires
        lo <= hi,
    ensures
        found_starts(s, lo, hi + 1) == (if 1 <= hi < s.len() && s[hi - 1] == 10 {
            found_starts(s, lo, hi).push(hi as usize)
        } else {
            found_starts(s, lo, hi)
        }),
{
}

proof fn lemma_found_starts_len(s: Seq<u8>, lo: int, hi: int)
    ensures
        found_starts(s, lo, hi).len() <= if hi > lo { hi - lo } else { 0 },
    decreases hi - lo,
{
    if hi > lo {
        lemma_found_starts_len(s, lo, hi - 1);
    }
}

proof fn lemma_found_starts_prefix(s: Seq<u8>, lo: int, h1: int, h2: int)
    requires
        lo <= h1 <= h2,
    ensures
        found_starts(s, lo, h1).len() <= found_starts(s, lo, h2).len(),
        found_starts(s, lo, h2).take(found_starts(s, lo, h1).len() as int) == found_starts(s, lo, h1),
    decreases h2 - h1,
{
    if h2 > h1 {
        lemma_found_starts_prefix(s, lo, h1, h2 - 1);
        let f1 = found_starts(s, lo, h1);
        let f2 = found_starts(s, lo, h2 - 1);
        assert(found_starts(s, lo, h2).take(f1.len() as int) =~= f2.take(f1.len() as int));
    } else {
        assert(found_starts(s, lo, h2).take(found_starts(s, lo, h1).len() as int) =~= found_starts(s, lo, h1));
    }
}

// ---------------------------------------------------------------------------
// Laws.
// ---------------------------------------------------------------------------

impl LineIndex {
    /// What every operation keeps: line starts are strictly increasing and
    /// begin at the start byte, record starts are strictly increasing line
    /// starts beginning at the start byte, and nothing lies past the scanned
    /// position.
    pub proof fn lemma_index_shape(&self)
        requires
            self.wf(),
        ensures
            strictly_increasing(self.state().starts),
            self.state().starts.len() >= 1,
            self.state().starts[0] == self.start(),
            strictly_increasing(self.state().record_starts),
            self.state().record_starts.len() >= 1,
            self.state().record_starts[0] == self.start(),
            forall|k: int| 0 <= k < self.state().record_starts.len()
                ==> #[trigger] self.state().starts.contains(self.state().record_starts[k]),
            0 <= self.start() <= self.state().scanned <= usize::MAX,
            self.state().starts.last() <= self.state().scanned,
            self.regex() is None ==> self.state().record_starts == self.state().starts,
    {
    }

    /// Without a record pattern, records are lines: the same count (but for
    /// an empty source under a nonzero cap, which counts one record and no
    /// line) and the same byte spans.
    pub proof fn lemma_records_mirror_lines(&self, s: Seq<u8>)
        requires
            self.wf(),
            self.regex() is None,
            !(self.cap() matches Some(c) && c > 0 && self.state().scanned == self.start() && self.state().starts.len() == 1),
        ensures
            records_known(self.state(), self.start(), self.cap()) == lines_known(self.state(), self.start(), self.cap()),
            forall|i: int| 0 <= i < self.state().starts.len()
                ==> #[trigger] record_span(self.state(), i, s) == line_span(self.state(), i, s),
    {
        let st = self.state();
        if let Some(c) = self.cap() {
            if c > 0 {
                let raw = if st.scanned == self.start() && st.record_starts.len() == 1 { 0 } else { st.record_starts.len() as int };
                let v1 = if raw <= st.starts.len() { raw } else { st.starts.len() as int };
                let visible = if v1 <= c { v1 } else { c as int };
                assert(visible >= 1);
                let ln = visible - 1;
                lemma_count_le_at(st.starts, ln);
            }
        }
    }

    /// Each line belongs to the record whose start is the last record start
    /// at or before the line's start.
    pub proof fn lemma_line_in_its_record(&self, l: int)
        requires
            self.wf(),
            0 <= l < self.state().starts.len(),
        ensures
            0 <= record_of_line(self.state(), l) < self.state().record_starts.len(),
            self.state().record_starts[record_of_line(self.state(), l)] <= self.state().starts[l],
            record_of_line(self.state(), l) + 1 < self.state().record_starts.len()
                ==> self.state().starts[l] < self.state().record_starts[record_of_line(self.state(), l) + 1],
    {
        let st = self.state();
        let x = st.starts[l] as int;
        lemma_count_partition(st.record_starts, x);
        assert(st.record_starts[0] <= x) by {
            if l > 0 {
                assert(st.starts[0] < st.starts[l]);
            }
        }
    }
}

impl LineIndex {
    /// No more records are known than there are record starts.
    pub proof fn lemma_records_known_bound(&self)
        requires
            self.wf(),
        ensures
            0 <= records_known(self.state(), self.start(), self.cap()) <= self.state().record_starts.len(),
    {
        let st = self.state();
        if let Some(c) = self.cap() {
            if c > 0 {
                let raw = if st.scanned == self.start() && st.record_starts.len() == 1 { 0 } else { st.record_starts.len() as int };
                let v1 = if raw <= st.starts.len() { raw } else { st.starts.len() as int };
                let visible = if v1 <= c { v1 } else { c as int };
                let ln = if visible == 0 { 0 } else { visible - 1 };
                lemma_count_partition(st.record_starts, st.starts[ln] as int);
            }
        }
    }
}

/// In a strictly increasing sequence, element `i` has exactly `i + 1`
/// elements at most it.
proof fn lemma_count_le_at(v: Seq<usize>, i: int)
    requires
        strictly_increasing(v),
        0 <= i < v.len(),
    ensures
        count_le(v, v[i] as int) == i + 1,
{
    assert forall|j: int| 0 <= j < i + 1 implies #[trigger] v[j] <= v[i] by {
        if j < i {
            assert(v[j] < v[i]);
        }
    }
    assert forall|j: int| i + 1 <= j < v.len() implies #[trigger] v[j] > v[i] by {
        assert(v[i] < v[j]);
    }
    lemma_partition_count(v, v[i] as int, i + 1);
}

/// In a strictly increasing sequence, the elements at most `x` are exactly
/// the first `count_le(v, x)`.
proof fn lemma_count_partition(v: Seq<usize>, x: int)
    requires
        strictly_increasing(v),
    ensures
        count_le(v, x) <= v.len(),
        forall|j: int| 0 <= j < count_le(v, x) ==> #[trigger] v[j] <= x,
        forall|j: int| count_le(v, x) <= j < v.len() ==> #[trigger] v[j] > x,
    decreases v.len(),
{
    if v.len() > 0 {
        let w = v.drop_last();
        assert(strictly_increasing(w)) by {
            assert forall|i: int, j: int| 0 <= i < j < w.len() implies w[i] < w[j] by {
                assert(v[i] < v[j]);
            }
        }
        lemma_count_partition(w, x);
        let c = count_le(w, x) as int;
        if v.last() <= x {
            if c < w.len() {
                assert(w[c] > x);
                assert(v[c] < v[v.len() - 1]);
                assert(false);
            }
            assert forall|j: int| 0 <= j < count_le(v, x) implies #[trigger] v[j] <= x by {
                if j < w.len() {
                    assert(w[j] <= x);
                }
            }
        } else {
            assert forall|j: int| count_le(v, x) <= j < v.len() implies #[trigger] v[j] > x by {
                if j < w.len() {
                    assert(w[j] > x);
                }
            }
            assert forall|j: int| 0 <= j < count_le(v, x) implies #[trigger] v[j] <= x by {
                assert(w[j] <= x);
            }
        }
    }
}

/// Taking in a source as it grows finds the lines that reading it whole
/// finds: scanning a prefix `s1` of `s2` and then `s2` ends with the same
/// line starts, scanned position and pending line start as scanning `s2` at
/// once (with no cap, from any state without a pending line start). The
/// record starts agree too when there is no record pattern or `s1` ends at
/// a line break; otherwise the last line of `s1` may have been tested while
/// incomplete.
pub proof fn lemma_growth_matches_whole(st: ScanState, s1: Seq<u8>, s2: Seq<u8>, re: Option<Seq<char>>)
    requires
        !st.pending,
        0 <= st.scanned,
        s1.len() <= s2.len() <= usize::MAX,
        s2.take(s1.len() as int) == s1,
    ensures
        scan_to(scan_to(st, s1, s1.len() as int, None, re), s2, s2.len() as int, None, re).starts
            == scan_to(st, s2, s2.len() as int, None, re).starts,
        scan_to(scan_to(st, s1, s1.len() as int, None, re), s2, s2.len() as int, None, re).scanned
            == scan_to(st, s2, s2.len() as int, None, re).scanned,
        scan_to(scan_to(st, s1, s1.len() as int, None, re), s2, s2.len() as int, None, re).pending
            == scan_to(st, s2, s2.len() as int, None, re).pending,
        (re is None || (s1.len() > 0 && s1.last() == 10))
            ==> scan_to(scan_to(st, s1, s1.len() as int, None, re), s2, s2.len() as int, None, re).record_starts
                == scan_to(st, s2, s2.len() as int, None, re).record_starts,
{
    let b = st.scanned;
    let n1 = s1.len() as int;
    let n2 = s2.len() as int;
    if n1 == n2 {
        assert(s1 =~= s2);
        if b < n1 {
            lemma_scan_end_full(s1, b);
        }
        return;
    }
    if b >= n1 {
        return;
    }
    lemma_scan_end_full(s1, b);
    lemma_scan_end_full(s2, b);
    lemma_scan_end_full(s2, n1);
    let f1 = found_starts(s1, b + 1, n1 + 1);
    let a = scan_to(st, s1, n1, None, re);
    assert(a.scanned == n1);
    assert(a.starts == st.starts + f1);
    let pend: Seq<usize> = if a.pending { seq![n1 as usize] } else { Seq::<usize>::empty() };
    let f2 = pend + found_starts(s2, n1 + 1, n2 + 1);
    let f = found_starts(s2, b + 1, n2 + 1);
    lemma_found_split(s2, b + 1, n1, n2 + 1);
    lemma_found_split(s2, n1, n1 + 1, n2 + 1);
    lemma_found_agree(s1, s2, b + 1, n1);
    assert(found_starts(s1, b + 1, n1 + 1) == found_starts(s1, b + 1, n1));
    assert(s2[n1 - 1] == s1[n1 - 1]);
    assert(found_starts(s2, n1, n1 + 1) =~= pend) by {
        assert(found_starts(s2, n1, n1) =~= Seq::<usize>::empty());
    }
    assert(f =~= f1 + f2);
    let twice = scan_to(a, s2, n2, None, re);
    let once = scan_to(st, s2, n2, None, re);
    assert(twice.starts =~= once.starts);
    lemma_filter_concat(s2, f1, f2, re);
    if re is None {
        lemma_filter_none(s1, f1);
        lemma_filter_none(s2, f1);
    } else if n1 > 0 && s1.last() == 10 {
        lemma_found_range(s1, b + 1, n1 + 1);
        lemma_filter_agree(s1, s2, f1, re);
    }
    if re is None || (n1 > 0 && s1.last() == 10) {
        assert(twice.record_starts =~= once.record_starts);
    }
}

/// Line starts found over `[lo, hi)` are those over `[lo, mid)` then
/// those over `[mid, hi)`.
proof fn lemma_found_split(s: Seq<u8>, lo: int, mid: int, hi: int)
    requires
        lo <= mid <= hi,
    ensures
        found_starts(s, lo, hi) == found_starts(s, lo, mid) + found_starts(s, mid, hi),
    decreases hi - mid,
{
    if hi == mid {
        assert(found_starts(s, mid, hi) =~= Seq::<usize>::empty());
        assert(found_starts(s, lo, mid) + found_starts(s, mid, hi) =~= found_starts(s, lo, mid));
    } else {
        lemma_found_split(s, lo, mid, hi - 1);
        if 1 <= hi - 1 < s.len() && s[hi - 2] == 10 {
            assert(found_starts(s, lo, hi) =~= found_starts(s, lo, mid) + found_starts(s, mid, hi));
        } else {
            assert(found_starts(s, lo, hi) =~= found_starts(s, lo, mid) + found_starts(s, mid, hi));
        }
    }
}

/// Below the end of a prefix, the prefix and the whole have the same line
/// starts.
proof fn lemma_found_agree(s1: Seq<u8>, s2: Seq<u8>, lo: int, hi: int)
    requires
        s1.len() <= s2.len(),
        s2.take(s1.len() as int) == s1,
        hi <= s1.len(),
    ensures
        found_starts(s1, lo, hi) == found_starts(s2, lo, hi),
    decreases hi - lo,
{
    if hi > lo {
        lemma_found_agree(s1, s2, lo, hi - 1);
        if 1 <= hi - 1 {
            assert(s1[hi - 2] == s2.take(s1.len() as int)[hi - 2]);
        }
    }
}

/// Every line start found over `[lo, hi)` lies in that range, follows a
/// byte and precedes the end.
proof fn lemma_found_range(s: Seq<u8>, lo: int, hi: int)
    requires
        s.len() <= usize::MAX,
    ensures
        forall|k: int| 0 <= k < found_starts(s, lo, hi).len() ==> {
            let q = #[trigger] found_starts(s, lo, hi)[k];
            &&& lo <= q < hi
            &&& 1 <= q < s.len()
        },
    decreases hi - lo,
{
    if hi > lo {
        lemma_found_range(s, lo, hi - 1);
        let prev = found_starts(s, lo, hi - 1);
        let cur = found_starts(s, lo, hi);
        assert forall|k: int| 0 <= k < cur.len() implies {
            let q = #[trigger] cur[k];
            &&& lo <= q < hi
            &&& 1 <= q < s.len()
        } by {
            if k < prev.len() {
                assert(cur[k] == prev[k]);
            }
        }
    }
}

/// Without a record pattern every line start begins a record.
proof fn lemma_filter_none(s: Seq<u8>, qs: Seq<usize>)
    ensures
        record_filter(s, qs, None) == qs,
    decreases qs.len(),
{
    if qs.len() > 0 {
        lemma_filter_none(s, qs.drop_last());
        assert(qs.drop_last().push(qs.last()) =~= qs);
    }
}

/// Filtering a concatenation filters each part.
proof fn lemma_filter_concat(s: Seq<u8>, xs: Seq<usize>, ys: Seq<usize>, re: Option<Seq<char>>)
    ensures
        record_filter(s, xs + ys, re) == record_filter(s, xs, re) + record_filter(s, ys, re),
    decreases ys.len(),
{
    if ys.len() == 0 {
        assert(xs + ys =~= xs);
        assert(record_filter(s, ys, re) =~= Seq::<usize>::empty());
        assert(record_filter(s, xs, re) + record_filter(s, ys, re) =~= record_filter(s, xs, re));
    } else {
        lemma_filter_concat(s, xs, ys.drop_last(), re);
        assert((xs + ys).drop_last() =~= xs + ys.drop_last());
        assert((xs + ys).last() == ys.last());
        if starts_record(s, ys.last() as int, re) {
            assert(record_filter(s, xs + ys, re) =~= record_filter(s, xs, re) + record_filter(s, ys, re));
        } else {
            assert(record_filter(s, xs + ys, re) =~= record_filter(s, xs, re) + record_filter(s, ys, re));
        }
    }
}

/// Lines of a prefix that ends at a line break read the same in the whole.
proof fn lemma_line_end_agree(s1: Seq<u8>, s2: Seq<u8>, q: int)
    requires
        s1.len() <= s2.len(),
        s2.take(s1.len() as int) == s1,
        s1.len() > 0,
        s1.last() == 10,
        0 <= q < s1.len(),
    ensures
        line_end(s1, q) == line_end(s2, q),
        q <= line_end(s1, q) < s1.len(),
    decreases s1.len() - q,
{
    assert(s1[q] == s2.take(s1.len() as int)[q]);
    if s1[q] != 10 {
        if q + 1 < s1.len() {
            lemma_line_end_agree(s1, s2, q + 1);
        } else {
            assert(s1[q] == s1.last());
        }
    }
}

/// Line starts below the end of a prefix that ends at a line break begin
/// the same records in the prefix and in the whole.
proof fn lemma_filter_agree(s1: Seq<u8>, s2: Seq<u8>, qs: Seq<usize>, re: Option<Seq<char>>)
    requires
        s1.len() <= s2.len(),
        s2.take(s1.len() as int) == s1,
        s1.len() > 0,
        s1.last() == 10,
        forall|k: int| 0 <= k < qs.len() ==> 0 <= #[trigger] qs[k] < s1.len(),
    ensures
        record_filter(s1, qs, re) == record_filter(s2, qs, re),
    decreases qs.len(),
{
    if qs.len() > 0 {
        let q = qs.last() as int;
        assert(0 <= qs[qs.len() - 1] < s1.len());
        lemma_filter_agree(s1, s2, qs.drop_last(), re);
        lemma_line_end_agree(s1, s2, q);
        let e = line_end(s1, q);
        assert(s1.subrange(q, e) =~= s2.subrange(q, e)) by {
            assert forall|i: int| 0 <= i < e - q implies s1.subrange(q, e)[i] == s2.subrange(q, e)[i] by {
                assert(s2.take(s1.len() as int)[q + i] == s2[q + i]);
            }
        }
        assert(starts_record(s1, q, re) == starts_record(s2, q, re));
    }
}

/// A scan of a source that holds at least what was scanned stays within it.
pub proof fn lemma_scan_within(st: ScanState, s: Seq<u8>, target: int, cap: Option<usize>, re: Option<Seq<char>>)
    requires
        0 <= st.scanned <= s.len() <= usize::MAX,
    ensures
        scan_to(st, s, target, cap, re).scanned <= s.len(),
{
    let stop = if target < s.len() { target } else { s.len() as int };
    let a = st.scanned;
    if !((cap matches Some(c) && st.starts.len() > c) || a >= stop) {
        lemma_scan_end_bounds(s, a, stop);
        let e = scan_end(s, a, stop);
        let pend: Seq<usize> = if st.pending { seq![a as usize] } else { Seq::<usize>::empty() };
        let found = pend + found_starts(s, a + 1, e + 1);
        lemma_found_range(s, a + 1, e + 1);
        let capped = cap matches Some(c) && found.len() + st.starts.len() > c;
        if capped {
            let room = cap.unwrap() + 1 - st.starts.len();
            let pushed = found.take(room);
            let k = room - 1;
            if k < pend.len() {
                assert(pushed.last() == pend[k]);
            } else {
                assert(pushed.last() == found_starts(s, a + 1, e + 1)[k - pend.len()]);
            }
        }
    }
}

} // verus!
