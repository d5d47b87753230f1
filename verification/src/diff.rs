//! Line alignment for the split view's diff mode: the edit script of a
//! Myers diff, turned into one row pair per displayed line.

use vstd::prelude::*;

verus! {

/// How a displayed pair of lines differs.
#[derive(Debug, Clone, Copy, PartialEq, Eq, Structural)]
pub enum DiffClass {
    Equal,
    Changed,
    /// Present only on the right (the left is filler).
    Added,
    /// Present only on the left (the right is filler).
    Removed,
}

/// One displayed row pair: the left and right line numbers (none for a
/// filler side) and how they differ.
#[derive(Debug, Clone, Copy, PartialEq, Eq, Structural)]
pub struct DiffPair {
    pub left: Option<usize>,
    pub right: Option<usize>,
    pub class: DiffClass,
}

/// One step of an edit script: a run of equal lines, a deletion from the
/// old side, an insertion from the new side, or a replacement.
#[derive(Debug, Clone, Copy, PartialEq, Eq, Structural)]
pub enum EditOp {
    Equal { old_index: usize, new_index: usize, len: usize },
    Delete { old_index: usize, old_len: usize, new_index: usize },
    Insert { old_index: usize, new_index: usize, new_len: usize },
    Replace { old_index: usize, old_len: usize, new_index: usize, new_len: usize },
}

/// The edit script that the Myers diff of the `similar` crate gives for
/// two sequences of line keys.
pub uninterp spec fn myers_edit_script(old: Seq<u64>, new: Seq<u64>) -> Seq<EditOp>;

/// The op's old and new segments lie within sequences of these lengths.
pub open spec fn op_within(op: EditOp, n_old: int, n_new: int) -> bool {
    match op {
        EditOp::Equal { old_index, new_index, len } => old_index + len <= n_old && new_index + len <= n_new,
        EditOp::Delete { old_index, old_len, new_index } => old_index + old_len <= n_old && new_index <= n_new,
        EditOp::Insert { old_index, new_index, new_len } => old_index <= n_old && new_index + new_len <= n_new,
        EditOp::Replace { old_index, old_len, new_index, new_len } =>
            old_index + old_len <= n_old && new_index + new_len <= n_new,
    }
}

/// Where the op's segment starts on the old side.
pub open spec fn old_start(op: EditOp) -> int {
    match op {
        EditOp::Equal { old_index, .. } => old_index as int,
        EditOp::Delete { old_index, .. } => old_index as int,
        EditOp::Insert { old_index, .. } => old_index as int,
        EditOp::Replace { old_index, .. } => old_index as int,
    }
}

/// How many old lines the op covers.
pub open spec fn old_count(op: EditOp) -> int {
    match op {
        EditOp::Equal { len, .. } => len as int,
        EditOp::Delete { old_len, .. } => old_len as int,
        EditOp::Insert { .. } => 0,
        EditOp::Replace { old_len, .. } => old_len as int,
    }
}

/// Where the op's segment starts on the new side.
pub open spec fn new_start(op: EditOp) -> int {
    match op {
        EditOp::Equal { new_index, .. } => new_index as int,
        EditOp::Delete { new_index, .. } => new_index as int,
        EditOp::Insert { new_index, .. } => new_index as int,
        EditOp::Replace { new_index, .. } => new_index as int,
    }
}

/// How many new lines the op covers.
pub open spec fn new_count(op: EditOp) -> int {
    match op {
        EditOp::Equal { len, .. } => len as int,
        EditOp::Delete { .. } => 0,
        EditOp::Insert { new_len, .. } => new_len as int,
        EditOp::Replace { new_len, .. } => new_len as int,
    }
}

/// Where the script's covered part of the old side ends.
pub open spec fn old_end(ops: Seq<EditOp>) -> int {
    if ops.len() == 0 { 0 } else { old_start(ops.last()) + old_count(ops.last()) }
}

/// Where the script's covered part of the new side ends.
pub open spec fn new_end(ops: Seq<EditOp>) -> int {
    if ops.len() == 0 { 0 } else { new_start(ops.last()) + new_count(ops.last()) }
}

/// Each op starts, on both sides, where the one before it ended, the first
/// at the start of both sides.
pub open spec fn ops_contiguous(ops: Seq<EditOp>) -> bool
    decreases ops.len(),
{
    ops.len() == 0 || {
        &&& ops_contiguous(ops.drop_last())
        &&& old_start(ops.last()) == old_end(ops.drop_last())
        &&& new_start(ops.last()) == new_end(ops.drop_last())
    }
}

/// The ops cover both sides, one after another, from the start to the
/// ends `n_old` and `n_new`.
pub open spec fn ops_tile(ops: Seq<EditOp>, n_old: int, n_new: int) -> bool {
    ops_contiguous(ops) && old_end(ops) == n_old && new_end(ops) == n_new
}

/// Each equal run pairs equal keys.
pub open spec fn equal_runs_match(ops: Seq<EditOp>, old: Seq<u64>, new: Seq<u64>) -> bool {
    forall|i: int, k: int| #![trigger ops[i], old[k]]
        0 <= i < ops.len() && ops[i] is Equal && old_start(ops[i]) <= k < old_start(ops[i]) + old_count(ops[i])
            ==> old[k] == new[k - old_start(ops[i]) + new_start(ops[i])]
}

/// `similar::capture_diff_slices` with the Myers algorithm. Its ops name
/// segments of the two slices (a start index and a length in each), so
/// each lies within them; they follow one another on both sides from the
/// start to the end of each (the crate's own tests hold its ops to that),
/// and an equal run pairs equal keys. Which ops it picks is the
/// algorithm's.
#[verifier::external_body]
fn capture_edit_script(old: &[u64], new: &[u64]) -> (ops: Vec<EditOp>)
    ensures
        ops@ == myers_edit_script(old@, new@),
        forall|i: int| 0 <= i < ops@.len() ==> op_within(#[trigger] ops@[i], old@.len() as int, new@.len() as int),
        ops_tile(ops@, old@.len() as int, new@.len() as int),
        equal_runs_match(ops@, old@, new@),
{
    similar::capture_diff_slices(similar::Algorithm::Myers, old, new)
        .into_iter()
        .map(|op| match op {
            similar::DiffOp::Equal { old_index, new_index, len } => EditOp::Equal { old_index, new_index, len },
            similar::DiffOp::Delete { old_index, old_len, new_index } => EditOp::Delete { old_index, old_len, new_index },
            similar::DiffOp::Insert { old_index, new_index, new_len } => EditOp::Insert { old_index, new_index, new_len },
            similar::DiffOp::Replace { old_index, old_len, new_index, new_len } =>
                EditOp::Replace { old_index, old_len, new_index, new_len },
        })
        .collect()
}

/// `count` pairs starting at `l` / `r` (a side without a start is filler).
pub open spec fn run_pairs(l: Option<int>, r: Option<int>, count: int, class: DiffClass) -> Seq<DiffPair>
    decreases count,
{
    if count <= 0 {
        seq![]
    } else {
        run_pairs(l, r, count - 1, class).push(DiffPair {
            left: match l { Some(x) => Some((x + count - 1) as usize), None => None },
            right: match r { Some(x) => Some((x + count - 1) as usize), None => None },
            class,
        })
    }
}

pub open spec fn min_int(a: int, b: int) -> int {
    if a <= b { a } else { b }
}

/// The pairs one op displays as. A replacement pairs as many lines as both
/// sides have as changed, then shows the surplus as removed or added.
pub open spec fn op_pairs(op: EditOp) -> Seq<DiffPair> {
    match op {
        EditOp::Equal { old_index, new_index, len } =>
            run_pairs(Some(old_index as int), Some(new_index as int), len as int, DiffClass::Equal),
        EditOp::Delete { old_index, old_len, .. } =>
            run_pairs(Some(old_index as int), None, old_len as int, DiffClass::Removed),
        EditOp::Insert { new_index, new_len, .. } =>
            run_pairs(None, Some(new_index as int), new_len as int, DiffClass::Added),
        EditOp::Replace { old_index, old_len, new_index, new_len } => {
            let paired = min_int(old_len as int, new_len as int);
            run_pairs(Some(old_index as int), Some(new_index as int), paired, DiffClass::Changed)
                + run_pairs(Some(old_index + paired), None, old_len - paired, DiffClass::Removed)
                + run_pairs(None, Some(new_index + paired), new_len - paired, DiffClass::Added)
        },
    }
}

/// The pairs a whole edit script displays as, op by op.
pub open spec fn script_pairs(ops: Seq<EditOp>) -> Seq<DiffPair>
    decreases ops.len(),
{
    if ops.len() == 0 {
        seq![]
    } else {
        script_pairs(ops.drop_last()) + op_pairs(ops.last())
    }
}

/// The op's indices fit in `usize`.
pub open spec fn op_fits(op: EditOp) -> bool {
    op_within(op, usize::MAX as int, usize::MAX as int)
}

/// A pair's sides agree with its class: equal and changed pairs have both
/// lines, added ones only the right, removed ones only the left.
pub open spec fn pair_consistent(p: DiffPair) -> bool {
    match p.class {
        DiffClass::Equal | DiffClass::Changed => p.left is Some && p.right is Some,
        DiffClass::Added => p.left is None && p.right is Some,
        DiffClass::Removed => p.left is Some && p.right is None,
    }
}

proof fn lemma_run_consistent(l: Option<int>, r: Option<int>, count: int, class: DiffClass)
    requires
        (class == DiffClass::Equal || class == DiffClass::Changed) ==> l is Some && r is Some,
        class == DiffClass::Added ==> l is None && r is Some,
        class == DiffClass::Removed ==> l is Some && r is None,
    ensures
        forall|i: int| 0 <= i < run_pairs(l, r, count, class).len() ==> pair_consistent(#[trigger] run_pairs(l, r, count, class)[i]),
    decreases count,
{
    if count > 0 {
        lemma_run_consistent(l, r, count - 1, class);
        let prev = run_pairs(l, r, count - 1, class);
        let cur = run_pairs(l, r, count, class);
        assert forall|i: int| 0 <= i < cur.len() implies pair_consistent(#[trigger] cur[i]) by {
            if i < prev.len() {
                assert(cur[i] == prev[i]);
            }
        }
    }
}

proof fn lemma_run_len(l: Option<int>, r: Option<int>, count: int, class: DiffClass)
    ensures
        run_pairs(l, r, count, class).len() == if count <= 0 { 0 } else { count },
    decreases count,
{
    if count > 0 {
        lemma_run_len(l, r, count - 1, class);
    }
}

/// Every displayed pair agrees with its class.
pub proof fn lemma_script_pairs_consistent(ops: Seq<EditOp>)
    ensures
        forall|i: int| 0 <= i < script_pairs(ops).len() ==> pair_consistent(#[trigger] script_pairs(ops)[i]),
    decreases ops.len(),
{
    if ops.len() > 0 {
        lemma_script_pairs_consistent(ops.drop_last());
        let op = ops.last();
        let prev = script_pairs(ops.drop_last());
        let cur = op_pairs(op);
        match op {
            EditOp::Equal { old_index, new_index, len } => {
                lemma_run_consistent(Some(old_index as int), Some(new_index as int), len as int, DiffClass::Equal);
            },
            EditOp::Delete { old_index, old_len, .. } => {
                lemma_run_consistent(Some(old_index as int), None, old_len as int, DiffClass::Removed);
            },
            EditOp::Insert { new_index, new_len, .. } => {
                lemma_run_consistent(None, Some(new_index as int), new_len as int, DiffClass::Added);
            },
            EditOp::Replace { old_index, old_len, new_index, new_len } => {
                let paired = min_int(old_len as int, new_len as int);
                let a = run_pairs(Some(old_index as int), Some(new_index as int), paired, DiffClass::Changed);
                let b = run_pairs(Some(old_index + paired), None, old_len - paired, DiffClass::Removed);
                let c = run_pairs(None, Some(new_index + paired), new_len - paired, DiffClass::Added);
                lemma_run_consistent(Some(old_index as int), Some(new_index as int), paired, DiffClass::Changed);
                lemma_run_consistent(Some(old_index + paired), None, old_len - paired, DiffClass::Removed);
                lemma_run_consistent(None, Some(new_index + paired), new_len - paired, DiffClass::Added);
                assert forall|i: int| 0 <= i < cur.len() implies pair_consistent(#[trigger] cur[i]) by {
                    if i < a.len() {
                        assert(cur[i] == a[i]);
                    } else if i < a.len() + b.len() {
                        assert(cur[i] == b[i - a.len()]);
                    } else {
                        assert(cur[i] == c[i - a.len() - b.len()]);
                    }
                }
            },
        }
        assert forall|i: int| 0 <= i < script_pairs(ops).len() implies pair_consistent(#[trigger] script_pairs(ops)[i]) by {
            if i < prev.len() {
                assert(script_pairs(ops)[i] == prev[i]);
            } else {
                assert(script_pairs(ops)[i] == cur[i - prev.len()]);
            }
        }
    }
}

/// The pair shows a line on both sides, and their keys are equal.
pub open spec fn equal_pair_shows_equal_keys(p: DiffPair, old: Seq<u64>, new: Seq<u64>) -> bool {
    match (p.left, p.right) {
        (Some(a), Some(b)) => old[a as int] == new[b as int],
        _ => false,
    }
}

/// The line a pair shows on one side (`right` picks the side).
pub open spec fn side_of(p: DiffPair, right: bool) -> Option<usize> {
    if right { p.right } else { p.left }
}

/// The lines a sequence of pairs shows on one side, in order, fillers left
/// out.
pub open spec fn side_lines(ps: Seq<DiffPair>, right: bool) -> Seq<usize>
    decreases ps.len(),
{
    if ps.len() == 0 {
        seq![]
    } else {
        side_lines(ps.drop_last(), right) + match side_of(ps.last(), right) {
            Some(x) => seq![x],
            None => seq![],
        }
    }
}

/// The line numbers from `start` up to, not including, `end`.
pub open spec fn line_range(start: int, end: int) -> Seq<usize> {
    Seq::new(if end > start { (end - start) as nat } else { 0 }, |i: int| (start + i) as usize)
}

proof fn lemma_side_lines_concat(a: Seq<DiffPair>, b: Seq<DiffPair>, right: bool)
    ensures
        side_lines(a + b, right) == side_lines(a, right) + side_lines(b, right),
    decreases b.len(),
{
    if b.len() == 0 {
        assert(a + b =~= a);
        assert(side_lines(a, right) + side_lines(b, right) =~= side_lines(a, right));
    } else {
        assert((a + b).drop_last() =~= a + b.drop_last());
        assert((a + b).last() == b.last());
        lemma_side_lines_concat(a, b.drop_last(), right);
        let tail = match side_of(b.last(), right) { Some(x) => seq![x], None => Seq::<usize>::empty() };
        assert(side_lines(a, right) + side_lines(b.drop_last(), right) + tail
            =~= side_lines(a, right) + (side_lines(b.drop_last(), right) + tail));
    }
}

proof fn lemma_run_index(l: Option<int>, r: Option<int>, count: int, class: DiffClass, k: int)
    requires
        0 <= k < count,
    ensures
        run_pairs(l, r, count, class)[k] == (DiffPair {
            left: match l { Some(x) => Some((x + k) as usize), None => None },
            right: match r { Some(x) => Some((x + k) as usize), None => None },
            class,
        }),
    decreases count,
{
    lemma_run_len(l, r, count - 1, class);
    if k < count - 1 {
        lemma_run_index(l, r, count - 1, class, k);
    }
}

proof fn lemma_run_side(l: Option<int>, r: Option<int>, count: int, class: DiffClass, right: bool)
    ensures
        side_lines(run_pairs(l, r, count, class), right) == match (if right { r } else { l }) {
            Some(x) => line_range(x, x + count),
            None => Seq::<usize>::empty(),
        },
    decreases count,
{
    if count <= 0 {
        let side = if right { r } else { l };
        if let Some(x) = side {
            assert(line_range(x, x + count) =~= Seq::<usize>::empty());
        }
    } else {
        lemma_run_side(l, r, count - 1, class, right);
        let prev = run_pairs(l, r, count - 1, class);
        let cur = run_pairs(l, r, count, class);
        assert(cur.drop_last() =~= prev);
        let side = if right { r } else { l };
        if let Some(x) = side {
            assert(line_range(x, x + count) =~= line_range(x, x + count - 1).push((x + count - 1) as usize));
        }
    }
}

proof fn lemma_ranges_join(a: int, b: int, c: int)
    requires
        a <= b <= c,
    ensures
        line_range(a, b) + line_range(b, c) == line_range(a, c),
{
    assert(line_range(a, b) + line_range(b, c) =~= line_range(a, c));
}

proof fn lemma_op_side(op: EditOp, right: bool)
    ensures
        side_lines(op_pairs(op), right) == (if right {
            line_range(new_start(op), new_start(op) + new_count(op))
        } else {
            line_range(old_start(op), old_start(op) + old_count(op))
        }),
{
    match op {
        EditOp::Equal { old_index, new_index, len } => {
            lemma_run_side(Some(old_index as int), Some(new_index as int), len as int, DiffClass::Equal, right);
        },
        EditOp::Delete { old_index, old_len, new_index } => {
            lemma_run_side(Some(old_index as int), None, old_len as int, DiffClass::Removed, right);
            assert(line_range(new_index as int, new_index as int) =~= Seq::<usize>::empty());
        },
        EditOp::Insert { old_index, new_index, new_len } => {
            lemma_run_side(None, Some(new_index as int), new_len as int, DiffClass::Added, right);
            assert(line_range(old_index as int, old_index as int) =~= Seq::<usize>::empty());
        },
        EditOp::Replace { old_index, old_len, new_index, new_len } => {
            let paired = min_int(old_len as int, new_len as int);
            let a = run_pairs(Some(old_index as int), Some(new_index as int), paired, DiffClass::Changed);
            let b = run_pairs(Some(old_index + paired), None, old_len - paired, DiffClass::Removed);
            let c = run_pairs(None, Some(new_index + paired), new_len - paired, DiffClass::Added);
            lemma_run_side(Some(old_index as int), Some(new_index as int), paired, DiffClass::Changed, right);
            lemma_run_side(Some(old_index + paired), None, old_len - paired, DiffClass::Removed, right);
            lemma_run_side(None, Some(new_index + paired), new_len - paired, DiffClass::Added, right);
            lemma_side_lines_concat(a, b, right);
            lemma_side_lines_concat(a + b, c, right);
            if right {
                lemma_ranges_join(new_index as int, new_index + paired, new_index + new_len);
                assert(side_lines(a, right) + side_lines(b, right) + side_lines(c, right)
                    =~= line_range(new_index as int, new_index + paired) + line_range(new_index + paired, new_index + new_len));
            } else {
                lemma_ranges_join(old_index as int, old_index + paired, old_index + old_len);
                assert(side_lines(a, right) + side_lines(b, right) + side_lines(c, right)
                    =~= line_range(old_index as int, old_index + paired) + line_range(old_index + paired, old_index + old_len));
            }
        },
    }
}

proof fn lemma_script_side(ops: Seq<EditOp>, right: bool)
    requires
        ops_contiguous(ops),
    ensures
        side_lines(script_pairs(ops), right) == line_range(0, if right { new_end(ops) } else { old_end(ops) }),
        old_end(ops) >= 0,
        new_end(ops) >= 0,
    decreases ops.len(),
{
    if ops.len() == 0 {
        assert(line_range(0, 0) =~= Seq::<usize>::empty());
    } else {
        let front = ops.drop_last();
        lemma_script_side(front, right);
        lemma_side_lines_concat(script_pairs(front), op_pairs(ops.last()), right);
        lemma_op_side(ops.last(), right);
        if right {
            lemma_ranges_join(0, new_end(front), new_end(ops));
        } else {
            lemma_ranges_join(0, old_end(front), old_end(ops));
        }
    }
}

proof fn lemma_script_equal(ops: Seq<EditOp>, old: Seq<u64>, new: Seq<u64>)
    requires
        equal_runs_match(ops, old, new),
        forall|i: int| 0 <= i < ops.len() ==> op_fits(#[trigger] ops[i]),
    ensures
        forall|i: int| 0 <= i < script_pairs(ops).len() && #[trigger] script_pairs(ops)[i].class == DiffClass::Equal
            ==> equal_pair_shows_equal_keys(script_pairs(ops)[i], old, new),
    decreases ops.len(),
{
    if ops.len() > 0 {
        let front = ops.drop_last();
        assert forall|i: int, k: int| #![trigger front[i], old[k]]
            0 <= i < front.len() && front[i] is Equal && old_start(front[i]) <= k < old_start(front[i]) + old_count(front[i])
                implies old[k] == new[k - old_start(front[i]) + new_start(front[i])] by {
            assert(front[i] == ops[i]);
            assert(old[k] == new[k - old_start(ops[i]) + new_start(ops[i])]);
        }
        assert forall|i: int| 0 <= i < front.len() implies op_fits(#[trigger] front[i]) by {
            assert(front[i] == ops[i]);
        }
        lemma_script_equal(front, old, new);
        let op = ops.last();
        let prev = script_pairs(front);
        let cur = op_pairs(op);
        assert(op == ops[ops.len() - 1]);
        assert(op_fits(ops[ops.len() - 1]));
        assert forall|j: int| 0 <= j < cur.len() && #[trigger] cur[j].class == DiffClass::Equal
            implies equal_pair_shows_equal_keys(cur[j], old, new) by {
            match op {
                EditOp::Equal { old_index, new_index, len } => {
                    lemma_run_len(Some(old_index as int), Some(new_index as int), len as int, DiffClass::Equal);
                    lemma_run_index(Some(old_index as int), Some(new_index as int), len as int, DiffClass::Equal, j);
                    let k = old_index + j;
                    assert(old[k] == new[k - old_start(ops[ops.len() - 1]) + new_start(ops[ops.len() - 1])]);
                },
                EditOp::Delete { old_index, old_len, .. } => {
                    lemma_run_len(Some(old_index as int), None, old_len as int, DiffClass::Removed);
                    lemma_run_index(Some(old_index as int), None, old_len as int, DiffClass::Removed, j);
                },
                EditOp::Insert { new_index, new_len, .. } => {
                    lemma_run_len(None, Some(new_index as int), new_len as int, DiffClass::Added);
                    lemma_run_index(None, Some(new_index as int), new_len as int, DiffClass::Added, j);
                },
                EditOp::Replace { old_index, old_len, new_index, new_len } => {
                    let paired = min_int(old_len as int, new_len as int);
                    let a = run_pairs(Some(old_index as int), Some(new_index as int), paired, DiffClass::Changed);
                    let b = run_pairs(Some(old_index + paired), None, old_len - paired, DiffClass::Removed);
                    let c = run_pairs(None, Some(new_index + paired), new_len - paired, DiffClass::Added);
                    lemma_run_len(Some(old_index as int), Some(new_index as int), paired, DiffClass::Changed);
                    lemma_run_len(Some(old_index + paired), None, old_len - paired, DiffClass::Removed);
                    lemma_run_len(None, Some(new_index + paired), new_len - paired, DiffClass::Added);
                    if j < a.len() {
                        lemma_run_index(Some(old_index as int), Some(new_index as int), paired, DiffClass::Changed, j);
                        assert(cur[j] == a[j]);
                    } else if j < a.len() + b.len() {
                        lemma_run_index(Some(old_index + paired), None, old_len - paired, DiffClass::Removed, j - a.len());
                        assert(cur[j] == b[j - a.len()]);
                    } else {
                        lemma_run_index(None, Some(new_index + paired), new_len - paired, DiffClass::Added, j - a.len() - b.len());
                        assert(cur[j] == c[j - a.len() - b.len()]);
                    }
                },
            }
        }
        assert forall|i: int| 0 <= i < script_pairs(ops).len() && #[trigger] script_pairs(ops)[i].class == DiffClass::Equal
            implies equal_pair_shows_equal_keys(script_pairs(ops)[i], old, new) by {
            if i < prev.len() {
                assert(script_pairs(ops)[i] == prev[i]);
            } else {
                assert(script_pairs(ops)[i] == cur[i - prev.len()]);
            }
        }
    }
}

/// Every line of both sides shows exactly once, in order, when the ops
/// cover both sides one after another: the left lines of the displayed
/// pairs are 0, 1, … up to the old side's length and the right lines 0, 1,
/// … up to the new side's; and an equal pair shows equal keys when the
/// equal runs do.
pub proof fn lemma_script_covers_both_sides(ops: Seq<EditOp>, old: Seq<u64>, new: Seq<u64>)
    requires
        ops_tile(ops, old.len() as int, new.len() as int),
        equal_runs_match(ops, old, new),
        forall|i: int| 0 <= i < ops.len() ==> op_fits(#[trigger] ops[i]),
    ensures
        side_lines(script_pairs(ops), false) == line_range(0, old.len() as int),
        side_lines(script_pairs(ops), true) == line_range(0, new.len() as int),
        forall|i: int| 0 <= i < script_pairs(ops).len() && #[trigger] script_pairs(ops)[i].class == DiffClass::Equal
            ==> equal_pair_shows_equal_keys(script_pairs(ops)[i], old, new),
{
    lemma_script_side(ops, false);
    lemma_script_side(ops, true);
    lemma_script_equal(ops, old, new);
}

/// Append `count` pairs starting at `l` / `r`.
fn push_run(out: &mut Vec<DiffPair>, l: Option<usize>, r: Option<usize>, count: usize, class: DiffClass)
    requires
        l matches Some(x) ==> x + count <= usize::MAX,
        r matches Some(x) ==> x + count <= usize::MAX,
    ensures
        final(out)@ == old(out)@ + run_pairs(
            match l { Some(x) => Some(x as int), None => None },
            match r { Some(x) => Some(x as int), None => None },
            count as int,
            class,
        ),
{
    let ghost li = match l { Some(x) => Some(x as int), None => None::<int> };
    let ghost ri = match r { Some(x) => Some(x as int), None => None::<int> };
    let ghost o = out@;
    let mut k: usize = 0;
    while k < count
        invariant
            k <= count,
            l matches Some(x) ==> x + count <= usize::MAX,
            r matches Some(x) ==> x + count <= usize::MAX,
            li == match l { Some(x) => Some(x as int), None => None::<int> },
            ri == match r { Some(x) => Some(x as int), None => None::<int> },
            out@ == o + run_pairs(li, ri, k as int, class),
        decreases count - k,
    {
        let left = match l { Some(x) => Some(x + k), None => None };
        let right = match r { Some(x) => Some(x + k), None => None };
        out.push(DiffPair { left, right, class });
        k = k + 1;
    }
}

/// The pairs an edit script displays as: equal runs pair line for line,
/// deletions show as removed, insertions as added, and a replacement pairs
/// as many lines as both sides have as changed, then shows the surplus as
/// removed or added.
pub fn pairs_from_ops(ops: &[EditOp]) -> (pairs: Vec<DiffPair>)
    requires
        forall|i: int| 0 <= i < ops@.len() ==> op_fits(#[trigger] ops@[i]),
    ensures
        pairs@ == script_pairs(ops@),
        forall|i: int| 0 <= i < pairs@.len() ==> pair_consistent(#[trigger] pairs@[i]),
{
    let mut pairs: Vec<DiffPair> = Vec::new();
    let mut i: usize = 0;
    assert(ops@.take(0) =~= seq![]);
    while i < ops.len()
        invariant
            i <= ops@.len(),
            forall|j: int| 0 <= j < ops@.len() ==> op_fits(#[trigger] ops@[j]),
            pairs@ == script_pairs(ops@.take(i as int)),
        decreases ops@.len() - i,
    {
        let ghost before = pairs@;
        let op = ops[i];
        assert(op_fits(ops@[i as int]));
        match op {
            EditOp::Equal { old_index, new_index, len } => {
                push_run(&mut pairs, Some(old_index), Some(new_index), len, DiffClass::Equal);
            },
            EditOp::Delete { old_index, old_len, .. } => {
                push_run(&mut pairs, Some(old_index), None, old_len, DiffClass::Removed);
            },
            EditOp::Insert { new_index, new_len, .. } => {
                push_run(&mut pairs, None, Some(new_index), new_len, DiffClass::Added);
            },
            EditOp::Replace { old_index, old_len, new_index, new_len } => {
                let paired = if old_len <= new_len { old_len } else { new_len };
                push_run(&mut pairs, Some(old_index), Some(new_index), paired, DiffClass::Changed);
                push_run(&mut pairs, Some(old_index + paired), None, old_len - paired, DiffClass::Removed);
                push_run(&mut pairs, None, Some(new_index + paired), new_len - paired, DiffClass::Added);
                assert(pairs@ =~= before + op_pairs(op));
            },
        }
        assert(ops@.take(i + 1).drop_last() =~= ops@.take(i as int));
        i = i + 1;
    }
    assert(ops@.take(ops@.len() as int) =~= ops@);
    proof {
        lemma_script_pairs_consistent(ops@);
    }
    pairs
}

/// Align two sequences of line keys (line hashes) into the row pairs the
/// diff view displays.
pub fn align(left: &[u64], right: &[u64]) -> (pairs: Vec<DiffPair>)
    ensures
        pairs@ == script_pairs(myers_edit_script(left@, right@)),
        forall|i: int| 0 <= i < pairs@.len() ==> pair_consistent(#[trigger] pairs@[i]),
        side_lines(pairs@, false) == line_range(0, left@.len() as int),
        side_lines(pairs@, true) == line_range(0, right@.len() as int),
        forall|i: int| 0 <= i < pairs@.len() && #[trigger] pairs@[i].class == DiffClass::Equal
            ==> equal_pair_shows_equal_keys(pairs@[i], left@, right@),
{
    let ops = capture_edit_script(left, right);
    assert forall|i: int| 0 <= i < ops@.len() implies op_fits(#[trigger] ops@[i]) by {
        assert(op_within(ops@[i], left@.len() as int, right@.len() as int));
        assert(left@.len() <= usize::MAX && right@.len() <= usize::MAX) by {
            assert(left@.len() == left.len());
            assert(right@.len() == right.len());
        }
    }
    proof {
        lemma_script_covers_both_sides(ops@, left@, right@);
    }
    pairs_from_ops(ops.as_slice())
}

} // verus!
