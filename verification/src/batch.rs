//! Non-interactive write mode (`--output FILE`, `--stdout`, clipboard):
//! which lines of the source a pass writes. In line mode each line passes
//! or not on its own; in records mode a record passes or not as a whole and
//! all its lines go out together. The caller evaluates the predicates
//! (filter, grep, or-groups) and does the writing.

use std::ops::Range;
use vstd::prelude::*;
use crate::line_index::{count_le, lines_known, record_of_line, records_known, LineIndex, ScanState};

verus! {

/// Where the batch run writes its output.
pub enum BatchDestination {
    Stdout,
    /// A file, by its path.
    File(String),
    /// Buffer the whole result and hand it to the system clipboard once at
    /// the end (no following).
    Clipboard,
}

/// How a batch run goes.
pub struct BatchSpec {
    pub destination: BatchDestination,
    /// After the first pass, keep polling the source for new bytes and
    /// append the lines that pass, until told to stop.
    pub follow: bool,
    /// How often to poll in follow mode, in nanoseconds.
    pub poll_interval: u128,
}

impl Default for BatchSpec {
    fn default() -> (b: Self)
        ensures
            b.destination is Stdout,
            !b.follow,
            b.poll_interval == 250_000_000,
    {
        BatchSpec { destination: BatchDestination::Stdout, follow: false, poll_interval: 250_000_000 }
    }
}

/// The verdict for unit `k`; units without one do not pass.
pub open spec fn verdict(passes: Seq<bool>, k: int) -> bool {
    0 <= k < passes.len() && passes[k]
}

/// The lines `lo, lo + 1, .., hi - 1`.
pub open spec fn span_seq(lo: int, hi: int) -> Seq<usize> {
    Seq::new(if hi > lo { (hi - lo) as nat } else { 0nat }, |i: int| (lo + i) as usize)
}

/// Line mode: the lines from `n` below `total` whose verdict (line
/// `base + k` has verdict `k`) passes.
pub open spec fn line_plan(base: int, n: int, total: int, passes: Seq<bool>) -> Seq<usize>
    decreases total - n,
{
    if n >= total {
        Seq::empty()
    } else {
        let rest = line_plan(base, n + 1, total, passes);
        if verdict(passes, n - base) { seq![n as usize] + rest } else { rest }
    }
}

/// The first line of record `r`.
pub open spec fn first_line_of(st: ScanState, r: int) -> int {
    count_le(st.starts, st.record_starts[r] as int) - 1
}

/// One past the last line of record `r`.
pub open spec fn end_line_of(st: ScanState, r: int) -> int {
    if r + 1 < st.record_starts.len() {
        count_le(st.starts, st.record_starts[r + 1] as int) - 1
    } else {
        st.starts.len() as int
    }
}

/// Records mode, from record `r` below `total` with lines before `next`
/// already written: records wholly before `next` are skipped; a passing
/// record (record `base + k` has verdict `k`) gives its lines from `next`
/// on; after each record considered, `next` moves past it. Gives the lines
/// and the final `next`.
pub open spec fn record_plan(st: ScanState, base: int, r: int, total: int, next: int, passes: Seq<bool>) -> (Seq<usize>, int)
    decreases total - r,
{
    if r >= total {
        (Seq::empty(), next)
    } else {
        let first = first_line_of(st, r);
        let end = end_line_of(st, r);
        if end <= next {
            record_plan(st, base, r + 1, total, next, passes)
        } else {
            let lo = if first >= next { first } else { next };
            let emitted = if verdict(passes, r - base) { span_seq(lo, end) } else { Seq::<usize>::empty() };
            let rest = record_plan(st, base, r + 1, total, end, passes);
            (emitted + rest.0, rest.1)
        }
    }
}

/// The record a pass in records mode starts from.
pub open spec fn start_record(st: ScanState, next_line: int) -> int {
    if next_line < st.starts.len() { record_of_line(st, next_line) } else { 0 }
}

/// The units a pass from `next_line` evaluates: lines from `next_line` in
/// line mode, records from the one holding `next_line` in records mode.
pub fn pending_units(idx: &LineIndex, next_line: usize) -> (r: Range<usize>)
    requires
        idx.wf(),
    ensures
        idx.regex() is None ==> r.start == next_line
            && r.end as int == (if lines_known(idx.state(), idx.start(), idx.cap()) > next_line {
                lines_known(idx.state(), idx.start(), idx.cap())
            } else {
                next_line as int
            }),
        idx.regex() is Some ==> r.start as int == start_record(idx.state(), next_line as int)
            && r.end as int == (if records_known(idx.state(), idx.start(), idx.cap()) > r.start {
                records_known(idx.state(), idx.start(), idx.cap())
            } else {
                r.start as int
            }),
{
    if idx.records_mode() {
        let total = idx.record_count();
        let start = idx.line_to_record(next_line);
        if total > start { start..total } else { start..start }
    } else {
        let total = idx.line_count();
        if total > next_line { next_line..total } else { next_line..next_line }
    }
}

/// What one pass writes.
pub struct EmitPlan {
    /// The lines to write, in order.
    pub lines: Vec<usize>,
    /// Where the next pass starts: one past the last line considered.
    pub next_line: usize,
}

/// The lines a pass from `next_line` writes, given the verdict of each unit
/// of `pending_units(idx, next_line)` in order.
pub fn plan_pending(idx: &LineIndex, next_line: usize, passes: &[bool]) -> (p: EmitPlan)
    requires
        idx.wf(),
    ensures
        idx.regex() is None ==> p.lines@ == line_plan(next_line as int, next_line as int,
                lines_known(idx.state(), idx.start(), idx.cap()), passes@)
            && p.next_line as int == (if lines_known(idx.state(), idx.start(), idx.cap()) > next_line {
                lines_known(idx.state(), idx.start(), idx.cap())
            } else {
                next_line as int
            }),
        idx.regex() is Some ==> (p.lines@, p.next_line as int) == record_plan(idx.state(),
                start_record(idx.state(), next_line as int), start_record(idx.state(), next_line as int),
                records_known(idx.state(), idx.start(), idx.cap()), next_line as int, passes@),
{
    if idx.records_mode() {
        plan_records(idx, next_line, passes)
    } else {
        plan_lines(idx, next_line, passes)
    }
}

fn plan_lines(idx: &LineIndex, next_line: usize, passes: &[bool]) -> (p: EmitPlan)
    requires
        idx.wf(),
    ensures
        p.lines@ == line_plan(next_line as int, next_line as int, lines_known(idx.state(), idx.start(), idx.cap()), passes@),
        p.next_line as int == (if lines_known(idx.state(), idx.start(), idx.cap()) > next_line {
            lines_known(idx.state(), idx.start(), idx.cap())
        } else {
            next_line as int
        }),
{
    let total = idx.line_count();
    let mut lines: Vec<usize> = Vec::new();
    let mut n = next_line;
    while n < total
        invariant
            next_line <= n,
            n <= total || n == next_line,
            total as int == lines_known(idx.state(), idx.start(), idx.cap()),
            lines@ + line_plan(next_line as int, n as int, total as int, passes@)
                == line_plan(next_line as int, next_line as int, total as int, passes@),
        decreases total - n,
    {
        let k = n - next_line;
        let ghost rest = line_plan(next_line as int, n + 1, total as int, passes@);
        if k < passes.len() && passes[k] {
            proof {
                assert(lines@.push(n) + rest =~= lines@ + (seq![n] + rest));
            }
            lines.push(n);
        }
        n = n + 1;
    }
    proof {
        assert(line_plan(next_line as int, n as int, total as int, passes@) =~= Seq::<usize>::empty());
        assert(lines@ + Seq::<usize>::empty() =~= lines@);
    }
    EmitPlan { lines, next_line: n }
}

fn plan_records(idx: &LineIndex, next_line: usize, passes: &[bool]) -> (p: EmitPlan)
    requires
        idx.wf(),
    ensures
        (p.lines@, p.next_line as int) == record_plan(idx.state(),
            start_record(idx.state(), next_line as int), start_record(idx.state(), next_line as int),
            records_known(idx.state(), idx.start(), idx.cap()), next_line as int, passes@),
{
    let ghost st = idx.state();
    let total = idx.record_count();
    let start = idx.line_to_record(next_line);
    proof {
        idx.lemma_records_known_bound();
    }
    let ghost goal = record_plan(st, start as int, start as int, total as int, next_line as int, passes@);
    let mut lines: Vec<usize> = Vec::new();
    let mut next = next_line;
    let mut r = start;
    while r < total
        invariant
            idx.wf(),
            st == idx.state(),
            total <= st.record_starts.len(),
            start <= r || r == start,
            goal == (lines@ + record_plan(st, start as int, r as int, total as int, next as int, passes@).0,
                record_plan(st, start as int, r as int, total as int, next as int, passes@).1),
        decreases total - r,
    {
        let range = idx.record_line_range(r);
        let ghost rest_same = record_plan(st, start as int, r + 1, total as int, next as int, passes@);
        if range.end <= next {
            r = r + 1;
        } else {
            let ghost rest = record_plan(st, start as int, r + 1, total as int, range.end as int, passes@);
            let k = r - start;
            if k < passes.len() && passes[k] {
                let lo = if range.start >= next { range.start } else { next };
                let mut l = lo;
                let ghost before = lines@;
                while l < range.end
                    invariant
                        lo <= l <= range.end,
                        lines@ == before + span_seq(lo as int, l as int),
                    decreases range.end - l,
                {
                    lines.push(l);
                    l = l + 1;
                    proof {
                        assert(span_seq(lo as int, l as int) =~= span_seq(lo as int, l - 1).push((l - 1) as usize));
                    }
                }
                proof {
                    assert(before + (span_seq(lo as int, range.end as int) + rest.0) =~= lines@ + rest.0);
                }
            } else {
                proof {
                    assert(lines@ + (Seq::<usize>::empty() + rest.0) =~= lines@ + rest.0);
                }
            }
            next = range.end;
            r = r + 1;
        }
    }
    EmitPlan { lines, next_line: next }
}

} // verus!
