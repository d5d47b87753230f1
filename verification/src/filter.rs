//! Field filters such as `status>=500` or `agent!~bot`: parsing the
//! specification and deciding the ordering operators.

use vstd::prelude::*;
use crate::charset::{decode_line, decoded_text, TextEncoding};
use crate::format::LogFormat;
use crate::pattern::{captured, opt_text, record_regex_captures, record_regex_error, text_regex_captures, text_regex_error, text_regex_is_match, RecordRegex, TextRegex};
use crate::text::{chars_of, contains_sub, occurs_at, eq_lit, join, join_strings, push_str, slice_vec, string_of, string_views};
use crate::viewport::{case_pattern, CaseMode};

verus! {

/// Operator in a single filter spec.
#[derive(Debug, Clone, Copy, PartialEq, Eq, Structural)]
pub enum FilterOp {
    /// `field=value` — exact match.
    Eq,
    /// `field!=value` — exact non-match.
    Ne,
    /// `field~regex` — regex match.
    Re,
    /// `field!~regex` — regex non-match.
    NotRe,
    /// `field<value` — less than (numeric if both sides are numbers, else lexicographic).
    Lt,
    /// `field<=value` — less than or equal.
    Le,
    /// `field>value` — greater than.
    Gt,
    /// `field>=value` — greater than or equal.
    Ge,
}

/// A parsed filter spec, before being bound to a format.
#[derive(Debug, Clone)]
pub struct FilterSpec {
    pub field: String,
    pub op: FilterOp,
    pub value: String,
}

/// The first position at or after `i` where `a` is directly followed by `b`.
pub open spec fn find_pair(s: Seq<char>, a: char, b: char, i: int) -> Option<int>
    decreases s.len() - i,
{
    if i < 0 || i + 1 >= s.len() {
        None
    } else if s[i] == a && s[i + 1] == b {
        Some(i)
    } else {
        find_pair(s, a, b, i + 1)
    }
}

/// The first position at or after `i` holding `c`.
pub open spec fn find_char(s: Seq<char>, c: char, i: int) -> Option<int>
    decreases s.len() - i,
{
    if i < 0 || i >= s.len() {
        None
    } else if s[i] == c {
        Some(i)
    } else {
        find_char(s, c, i + 1)
    }
}

pub type SpecView = (Seq<char>, FilterOp, Seq<char>);

/// The spec split around an operator of `len` characters at `p`.
pub open spec fn split_at_op(s: Seq<char>, p: int, len: int, op: FilterOp) -> Result<SpecView, Seq<char>> {
    if p == 0 {
        Err("filter `"@ + s + "`: empty field name"@)
    } else {
        Ok((s.take(p), op, s.skip(p + len)))
    }
}

/// Where the operator is: its position, its length and which it is. The
/// operators are tried in this order — two-character ones before their
/// one-character prefixes — and the first occurrence of the first operator
/// that occurs at all is taken.
pub open spec fn operator_location(s: Seq<char>) -> Option<(int, int, FilterOp)> {
    if let Some(p) = find_pair(s, '!', '~', 0) {
        Some((p, 2, FilterOp::NotRe))
    } else if let Some(p) = find_pair(s, '!', '=', 0) {
        Some((p, 2, FilterOp::Ne))
    } else if let Some(p) = find_pair(s, '<', '=', 0) {
        Some((p, 2, FilterOp::Le))
    } else if let Some(p) = find_pair(s, '>', '=', 0) {
        Some((p, 2, FilterOp::Ge))
    } else if let Some(p) = find_char(s, '~', 0) {
        Some((p, 1, FilterOp::Re))
    } else if let Some(p) = find_char(s, '=', 0) {
        Some((p, 1, FilterOp::Eq))
    } else if let Some(p) = find_char(s, '<', 0) {
        Some((p, 1, FilterOp::Lt))
    } else if let Some(p) = find_char(s, '>', 0) {
        Some((p, 1, FilterOp::Gt))
    } else {
        None
    }
}

/// What a filter spec means: the field before the operator and the value
/// after it.
pub open spec fn parse_filter_spec(s: Seq<char>) -> Result<SpecView, Seq<char>> {
    match operator_location(s) {
        Some((p, len, op)) => split_at_op(s, p, len, op),
        None => Err("filter `"@ + s + "`: missing operator (expected =, !=, ~, !~, <, <=, >, or >=)"@),
    }
}

fn locate_pair(s: &[char], a: char, b: char) -> (r: Option<usize>)
    ensures
        match find_pair(s@, a, b, 0) {
            Some(p) => r == Some(p as usize),
            None => r is None,
        },
{
    let mut i: usize = 0;
    while s.len() > 1 && i < s.len() - 1
        invariant
            find_pair(s@, a, b, 0) == find_pair(s@, a, b, i as int),
        decreases s@.len() - i,
    {
        if s[i] == a && s[i + 1] == b {
            return Some(i);
        }
        i = i + 1;
    }
    None
}

fn locate_char(s: &[char], c: char) -> (r: Option<usize>)
    ensures
        match find_char(s@, c, 0) {
            Some(p) => r == Some(p as usize),
            None => r is None,
        },
{
    let mut i: usize = 0;
    while i < s.len()
        invariant
            find_char(s@, c, 0) == find_char(s@, c, i as int),
        decreases s@.len() - i,
    {
        if s[i] == c {
            return Some(i);
        }
        i = i + 1;
    }
    None
}

pub open spec fn spec_result_view(r: Result<FilterSpec, String>) -> Result<SpecView, Seq<char>> {
    match r {
        Ok(f) => Ok((f.field@, f.op, f.value@)),
        Err(e) => Err(e@),
    }
}

impl FilterSpec {
    /// Parse a filter spec like `status=500`, `ip~^10\.`, `status!=200`,
    /// `agent!~bot`, `status>=500` or `hour<12`.
    pub fn parse(input: &str) -> (r: Result<Self, String>)
        ensures
            spec_result_view(r) == parse_filter_spec(input@),
    {
        let s = chars_of(input);
        let v = s.as_slice();
        let found = locate_operator(v);
        let ghost loc = operator_location(v@);
        let n = s.len();
        assert(v@.len() == n);
        proof {
            if let Some((lp, ll, lo)) = loc {
                assert(found == Some((lp as usize, ll as usize, lo)));
                assert(0 <= lp && lp + ll <= v@.len());
            }
        }
        match found {
            None => {
                let mut msg: Vec<char> = Vec::new();
                push_str(&mut msg, "filter `");
                push_str(&mut msg, input);
                push_str(&mut msg, "`: missing operator (expected =, !=, ~, !~, <, <=, >, or >=)");
                Err(string_of(msg.as_slice()))
            },
            Some((p, len, op)) => {
                assert(loc is Some);
                assert(loc.unwrap().0 == p as int);
                if p == 0 {
                    let mut msg: Vec<char> = Vec::new();
                    push_str(&mut msg, "filter `");
                    push_str(&mut msg, input);
                    push_str(&mut msg, "`: empty field name");
                    Err(string_of(msg.as_slice()))
                } else {
                    let field = slice_vec(v, 0, p);
                    let value = slice_vec(v, p + len, s.len());
                    assert(field@ =~= s@.take(p as int));
                    assert(value@ =~= s@.skip(p + len));
                    Ok(FilterSpec { field: string_of(field.as_slice()), op, value: string_of(value.as_slice()) })
                }
            },
        }
    }
}

fn locate_operator(v: &[char]) -> (r: Option<(usize, usize, FilterOp)>)
    ensures
        match operator_location(v@) {
            Some((p, len, op)) => r == Some((p as usize, len as usize, op)) && 0 <= p && p + len <= v@.len(),
            None => r is None,
        },
{
    proof {
        lemma_find_pair_range(v@, '!', '~', 0);
        lemma_find_pair_range(v@, '!', '=', 0);
        lemma_find_pair_range(v@, '<', '=', 0);
        lemma_find_pair_range(v@, '>', '=', 0);
        lemma_find_char_range(v@, '~', 0);
        lemma_find_char_range(v@, '=', 0);
        lemma_find_char_range(v@, '<', 0);
        lemma_find_char_range(v@, '>', 0);
    }
    if let Some(p) = locate_pair(v, '!', '~') {
        Some((p, 2, FilterOp::NotRe))
    } else if let Some(p) = locate_pair(v, '!', '=') {
        Some((p, 2, FilterOp::Ne))
    } else if let Some(p) = locate_pair(v, '<', '=') {
        Some((p, 2, FilterOp::Le))
    } else if let Some(p) = locate_pair(v, '>', '=') {
        Some((p, 2, FilterOp::Ge))
    } else if let Some(p) = locate_char(v, '~') {
        Some((p, 1, FilterOp::Re))
    } else if let Some(p) = locate_char(v, '=') {
        Some((p, 1, FilterOp::Eq))
    } else if let Some(p) = locate_char(v, '<') {
        Some((p, 1, FilterOp::Lt))
    } else if let Some(p) = locate_char(v, '>') {
        Some((p, 1, FilterOp::Gt))
    } else {
        None
    }
}

proof fn lemma_find_pair_range(s: Seq<char>, a: char, b: char, i: int)
    requires
        0 <= i,
    ensures
        find_pair(s, a, b, i) matches Some(p) ==> i <= p && p + 2 <= s.len(),
    decreases s.len() - i,
{
    if i + 1 < s.len() && !(s[i] == a && s[i + 1] == b) {
        lemma_find_pair_range(s, a, b, i + 1);
    }
}

proof fn lemma_find_char_range(s: Seq<char>, c: char, i: int)
    requires
        0 <= i,
    ensures
        find_char(s, c, i) matches Some(p) ==> i <= p && p + 1 <= s.len(),
    decreases s.len() - i,
{
    if i < s.len() && s[i] != c {
        lemma_find_char_range(s, c, i + 1);
    }
}

/// The outcome of comparing two values.
#[derive(Debug, Clone, Copy, PartialEq, Eq, Structural)]
pub enum Order {
    Less,
    Equal,
    Greater,
}

/// Lexicographic order of two texts, character by character.
pub open spec fn lex_order(a: Seq<char>, b: Seq<char>) -> Order
    decreases a.len(),
{
    if a.len() == 0 && b.len() == 0 {
        Order::Equal
    } else if a.len() == 0 {
        Order::Less
    } else if b.len() == 0 {
        Order::Greater
    } else if (a[0] as u32) < (b[0] as u32) {
        Order::Less
    } else if (a[0] as u32) > (b[0] as u32) {
        Order::Greater
    } else {
        lex_order(a.skip(1), b.skip(1))
    }
}

/// Compare two texts lexicographically. Code-point order is the order of
/// their UTF-8 bytes.
pub fn lex_compare(a: &str, b: &str) -> (r: Order)
    ensures
        r == lex_order(a@, b@),
{
    let x = chars_of(a);
    let y = chars_of(b);
    let mut i: usize = 0;
    assert(x@.skip(0) =~= x@);
    assert(y@.skip(0) =~= y@);
    while i < x.len() && i < y.len()
        invariant
            x@ == a@,
            y@ == b@,
            i <= x@.len(),
            i <= y@.len(),
            lex_order(a@, b@) == lex_order(x@.skip(i as int), y@.skip(i as int)),
        decreases x@.len() - i,
    {
        let c = x[i];
        let d = y[i];
        assert(x@.skip(i as int)[0] == c);
        assert(y@.skip(i as int)[0] == d);
        if (c as u32) < (d as u32) {
            return Order::Less;
        } else if (c as u32) > (d as u32) {
            return Order::Greater;
        }
        assert(x@.skip(i as int).skip(1) =~= x@.skip(i + 1));
        assert(y@.skip(i as int).skip(1) =~= y@.skip(i + 1));
        i = i + 1;
    }
    if x.len() == i && y.len() == i {
        Order::Equal
    } else if x.len() == i {
        Order::Less
    } else {
        Order::Greater
    }
}

/// Whether `order` satisfies the ordering operator `op` (never for the
/// other operators, nor for values that do not compare).
pub open spec fn order_satisfies(op: FilterOp, order: Option<Order>) -> bool {
    match (op, order) {
        (FilterOp::Lt, Some(Order::Less)) => true,
        (FilterOp::Le, Some(Order::Less)) => true,
        (FilterOp::Le, Some(Order::Equal)) => true,
        (FilterOp::Gt, Some(Order::Greater)) => true,
        (FilterOp::Ge, Some(Order::Greater)) => true,
        (FilterOp::Ge, Some(Order::Equal)) => true,
        _ => false,
    }
}

/// Compare `lhs` against `rhs` under an ordering operator. `numeric` is the
/// numeric comparison of the two values when both are numbers (`None`
/// inside when they are numbers that do not compare); otherwise the texts
/// are compared lexicographically.
pub fn compare_with(op: &FilterOp, numeric: Option<Option<Order>>, lhs: &str, rhs: &str) -> (r: bool)
    ensures
        r == order_satisfies(*op, match numeric {
            Some(o) => o,
            None => Some(lex_order(lhs@, rhs@)),
        }),
{
    let order = match numeric {
        Some(o) => o,
        None => Some(lex_compare(lhs, rhs)),
    };
    match (op, order) {
        (FilterOp::Lt, Some(Order::Less)) => true,
        (FilterOp::Le, Some(Order::Less)) => true,
        (FilterOp::Le, Some(Order::Equal)) => true,
        (FilterOp::Gt, Some(Order::Greater)) => true,
        (FilterOp::Ge, Some(Order::Greater)) => true,
        (FilterOp::Ge, Some(Order::Equal)) => true,
        _ => false,
    }
}

// ---------------------------------------------------------------------------
// Compiled filters.
// ---------------------------------------------------------------------------

/// How a line fares against a filter.
#[derive(Debug, Clone, Copy, PartialEq, Eq, Structural)]
pub enum FilterMatch {
    /// The line matches every predicate.
    Matched,
    /// The line parses against the format, but a predicate does not match.
    NotMatched,
    /// The line does not parse against the format.
    NotParsed,
}

/// A compiled predicate as a value: the field, the operator, and the
/// operand (the literal, or for `~` / `!~` the regex pattern compiled).
pub type PredView = (Seq<char>, FilterOp, Seq<char>);

/// The operator's name as `{:?}` prints it.
pub open spec fn op_name(op: FilterOp) -> Seq<char> {
    match op {
        FilterOp::Eq => "Eq"@,
        FilterOp::Ne => "Ne"@,
        FilterOp::Re => "Re"@,
        FilterOp::NotRe => "NotRe"@,
        FilterOp::Lt => "Lt"@,
        FilterOp::Le => "Le"@,
        FilterOp::Gt => "Gt"@,
        FilterOp::Ge => "Ge"@,
    }
}

pub open spec fn is_regex_op(op: FilterOp) -> bool {
    op == FilterOp::Re || op == FilterOp::NotRe
}

pub open spec fn is_order_op(op: FilterOp) -> bool {
    op == FilterOp::Lt || op == FilterOp::Le || op == FilterOp::Gt || op == FilterOp::Ge
}

/// Why one spec does not compile against a format with these fields, if
/// it does not: its field is not one of them, or its regex operand (under
/// the case policy) does not compile.
pub open spec fn spec_error(fields: Seq<Seq<char>>, name: Seq<char>, sp: SpecView, mode: CaseMode) -> Option<Seq<char>> {
    if !fields.contains(sp.0) {
        Some("filter `"@ + sp.0 + op_name(sp.1) + sp.2 + "`: field `"@ + sp.0 + "` is not in format `"@ + name
            + "` (available: "@ + join(fields, ", "@) + ")"@)
    } else if is_regex_op(sp.1) && text_regex_error(case_pattern(mode, sp.2)) is Some {
        Some("filter `"@ + sp.0 + "`: invalid regex `"@ + sp.2 + "`: "@ + text_regex_error(case_pattern(mode, sp.2)).unwrap())
    } else {
        None
    }
}

/// The error of the first spec that does not compile.
pub open spec fn first_spec_error(fields: Seq<Seq<char>>, name: Seq<char>, specs: Seq<SpecView>, mode: CaseMode) -> Option<Seq<char>>
    decreases specs.len(),
{
    if specs.len() == 0 {
        None
    } else {
        match first_spec_error(fields, name, specs.drop_last(), mode) {
            Some(e) => Some(e),
            None => spec_error(fields, name, specs.last(), mode),
        }
    }
}

/// Why a filter does not compile against a format, if it does not: the
/// first bad spec, else the format's pattern failing to build for records.
pub open spec fn filter_compile_error(fields: Seq<Seq<char>>, name: Seq<char>, pattern: Seq<char>, specs: Seq<SpecView>, mode: CaseMode) -> Option<Seq<char>> {
    match first_spec_error(fields, name, specs, mode) {
        Some(e) => Some(e),
        None => if record_regex_error(pattern) is Some {
            Some("format `"@ + name + "`: rebuilding regex for records mode: "@ + record_regex_error(pattern).unwrap())
        } else {
            None
        },
    }
}

/// A spec as compiled under a case policy.
pub open spec fn compiled_pred(sp: SpecView, mode: CaseMode) -> PredView {
    (sp.0, sp.1, if is_regex_op(sp.1) { case_pattern(mode, sp.2) } else { sp.2 })
}

/// Compiling a spec keeps its field and operator; `=`, `!=` and the
/// ordering operators keep the operand as written whatever the case
/// policy, and so does every operator under the case-sensitive policy;
/// under the insensitive policy `~` and `!~` match without regard to case.
/// A spec is refused when its field is not one of the format's, and
/// otherwise, for operators other than `~` and `!~`, never.
pub proof fn lemma_compiled_spec(fields: Seq<Seq<char>>, name: Seq<char>, sp: SpecView, mode: CaseMode)
    ensures
        compiled_pred(sp, mode).0 == sp.0 && compiled_pred(sp, mode).1 == sp.1,
        !is_regex_op(sp.1) ==> compiled_pred(sp, mode).2 == sp.2,
        mode == CaseMode::Sensitive ==> compiled_pred(sp, mode).2 == sp.2,
        is_regex_op(sp.1) && mode == CaseMode::Insensitive ==> compiled_pred(sp, mode).2 == "(?i)"@ + sp.2,
        is_regex_op(sp.1) <==> (sp.1 == FilterOp::Re || sp.1 == FilterOp::NotRe),
        !fields.contains(sp.0) ==> spec_error(fields, name, sp, mode) is Some,
        fields.contains(sp.0) && !is_regex_op(sp.1) ==> spec_error(fields, name, sp, mode) is None,
{
}

/// The views of some specs.
pub open spec fn specs_view(v: Seq<FilterSpec>) -> Seq<SpecView> {
    Seq::new(v.len(), |i: int| (v[i].field@, v[i].op, v[i].value@))
}

/// Whether one predicate holds of a captured value. `ord` is the numeric
/// order of the value and the operand, when both are numbers.
pub open spec fn pred_pass(p: PredView, val: Option<Seq<char>>, ord: Option<Option<Order>>) -> bool {
    match val {
        None => false,
        Some(v) => match p.1 {
            FilterOp::Eq => v == p.2,
            FilterOp::Ne => v != p.2,
            FilterOp::Re => text_regex_is_match(p.2, v),
            FilterOp::NotRe => !text_regex_is_match(p.2, v),
            _ => order_satisfies(p.1, match ord {
                Some(o) => o,
                None => Some(lex_order(v, p.2)),
            }),
        },
    }
}

/// What each operator keeps, for a field the line captured: `=` exactly
/// the value equal to the operand and `!=` every other one; `~` exactly
/// the values the pattern matches and `!~` exactly those it does not, so
/// `!~` keeps what `~` drops and drops what `~` keeps. A field the line
/// did not capture fails every predicate.
pub proof fn lemma_operators_keep(f: Seq<char>, p: Seq<char>, v: Seq<char>, o: Option<Option<Order>>, op: FilterOp)
    ensures
        pred_pass((f, FilterOp::Eq, p), Some(v), o) <==> v == p,
        pred_pass((f, FilterOp::Ne, p), Some(v), o) <==> v != p,
        pred_pass((f, FilterOp::Re, p), Some(v), o) <==> text_regex_is_match(p, v),
        pred_pass((f, FilterOp::NotRe, p), Some(v), o) <==> !text_regex_is_match(p, v),
        pred_pass((f, FilterOp::NotRe, p), Some(v), o) == !pred_pass((f, FilterOp::Re, p), Some(v), o),
        pred_pass((f, FilterOp::Ne, p), Some(v), o) == !pred_pass((f, FilterOp::Eq, p), Some(v), o),
        !pred_pass((f, op, p), None, o),
{
}

/// What the ordering operators keep, given how the captured value orders
/// against the operand (numerically when both are numbers, else as text):
/// `<` exactly the values before it, `<=` those not after it, `>` those
/// after it and `>=` those not before it; values that do not compare pass
/// none of them. So `>=` keeps what `<` drops and `<=` what `>` drops.
pub proof fn lemma_order_operators_keep(f: Seq<char>, p: Seq<char>, v: Seq<char>, o: Order)
    ensures
        pred_pass((f, FilterOp::Lt, p), Some(v), Some(Some(o))) <==> o == Order::Less,
        pred_pass((f, FilterOp::Le, p), Some(v), Some(Some(o))) <==> o != Order::Greater,
        pred_pass((f, FilterOp::Gt, p), Some(v), Some(Some(o))) <==> o == Order::Greater,
        pred_pass((f, FilterOp::Ge, p), Some(v), Some(Some(o))) <==> o != Order::Less,
        pred_pass((f, FilterOp::Ge, p), Some(v), Some(Some(o))) == !pred_pass((f, FilterOp::Lt, p), Some(v), Some(Some(o))),
        pred_pass((f, FilterOp::Le, p), Some(v), Some(Some(o))) == !pred_pass((f, FilterOp::Gt, p), Some(v), Some(Some(o))),
        pred_pass((f, FilterOp::Lt, p), Some(v), None) <==> lex_order(v, p) == Order::Less,
        pred_pass((f, FilterOp::Ge, p), Some(v), None) <==> lex_order(v, p) != Order::Less,
        !pred_pass((f, FilterOp::Lt, p), Some(v), Some(None)) && !pred_pass((f, FilterOp::Le, p), Some(v), Some(None))
            && !pred_pass((f, FilterOp::Gt, p), Some(v), Some(None)) && !pred_pass((f, FilterOp::Ge, p), Some(v), Some(None)),
{
}

/// Text order: a text orders equal to itself, two texts order oppositely
/// each way round, and a proper prefix comes first.
pub proof fn lemma_text_order(a: Seq<char>, b: Seq<char>)
    ensures
        lex_order(a, a) == Order::Equal,
        lex_order(a, b) == Order::Less <==> lex_order(b, a) == Order::Greater,
        a.len() < b.len() && b.take(a.len() as int) == a ==> lex_order(a, b) == Order::Less,
    decreases a.len(),
{
    if a.len() > 0 && b.len() > 0 {
        lemma_text_order(a.skip(1), b.skip(1));
        if a[0] == b[0] {
            if a.skip(1) == b.skip(1) {
                assert(a =~= seq![a[0]] + a.skip(1));
                assert(b =~= seq![b[0]] + b.skip(1));
            }
            if a.len() < b.len() && b.take(a.len() as int) == a {
                assert(b.skip(1).take(a.skip(1).len() as int) =~= a.skip(1));
            }
        } else {
            assert(a != b);
            if a.len() < b.len() && b.take(a.len() as int) == a {
                assert(b.take(a.len() as int)[0] == b[0]);
            }
        }
        if a.len() > 0 {
            lemma_text_order(a.skip(1), a.skip(1));
        }
    } else if a.len() == 0 && b.len() > 0 {
        assert(a != b);
    } else if a.len() > 0 && b.len() == 0 {
        assert(a != b);
        lemma_text_order(a.skip(1), a.skip(1));
    }
}

/// The value each predicate's field captured.
pub open spec fn pred_values(preds: Seq<PredView>, m: Map<Seq<char>, Seq<char>>) -> Seq<Option<Seq<char>>> {
    Seq::new(preds.len(), |k: int| captured(m, preds[k].0))
}

/// The first `k` predicates hold.
pub open spec fn all_pass_before(preds: Seq<PredView>, vals: Seq<Option<Seq<char>>>, ords: Seq<Option<Option<Order>>>, k: int) -> bool {
    forall|j: int| 0 <= j < k ==> #[trigger] pred_pass(preds[j], vals[j], ords[j])
}

/// How a line with these captures (`None` when it does not parse) fares:
/// it matches when every predicate holds (AND).
pub open spec fn filter_match(preds: Seq<PredView>, caps: Option<Map<Seq<char>, Seq<char>>>, ords: Seq<Option<Option<Order>>>) -> FilterMatch {
    match caps {
        None => FilterMatch::NotParsed,
        Some(m) => if all_pass_before(preds, pred_values(preds, m), ords, preds.len() as int) {
            FilterMatch::Matched
        } else {
            FilterMatch::NotMatched
        },
    }
}

/// Several filters combine with AND: a parsed line matches them all
/// exactly when it matches each of them alone.
pub proof fn lemma_filters_combine_with_and(preds: Seq<PredView>, m: Map<Seq<char>, Seq<char>>, ords: Seq<Option<Option<Order>>>)
    requires
        ords.len() == preds.len(),
    ensures
        filter_match(preds, Some(m), ords) == FilterMatch::Matched
            <==> forall|k: int| 0 <= k < preds.len()
                ==> filter_match(seq![#[trigger] preds[k]], Some(m), seq![ords[k]]) == FilterMatch::Matched,
{
    let vals = pred_values(preds, m);
    assert forall|k: int| 0 <= k < preds.len() implies
        (filter_match(seq![#[trigger] preds[k]], Some(m), seq![ords[k]]) == FilterMatch::Matched
            <==> pred_pass(preds[k], vals[k], ords[k])) by {
        let one = seq![preds[k]];
        assert(pred_values(one, m)[0] == vals[k]);
        assert(one[0] == preds[k]);
        assert(seq![ords[k]][0] == ords[k]);
        if pred_pass(preds[k], vals[k], ords[k]) {
            assert(all_pass_before(one, pred_values(one, m), seq![ords[k]], 1));
        }
    }
}

/// `numeric` may answer `o` for texts `a` and `b`.
pub open spec fn numeric_gives<F: Fn(&str, &str) -> Option<Option<Order>>>(numeric: F, a: Seq<char>, b: Seq<char>, o: Option<Option<Order>>) -> bool {
    exists|x: &str, y: &str| x@ == a && y@ == b && call_ensures(numeric, (x, y), o)
}

/// Numeric orders that `numeric` gave for every ordering predicate reached
/// (all before it holding) whose field was captured.
pub open spec fn orders_from<F: Fn(&str, &str) -> Option<Option<Order>>>(numeric: F, preds: Seq<PredView>, vals: Seq<Option<Seq<char>>>, ords: Seq<Option<Option<Order>>>) -> bool {
    &&& ords.len() == preds.len()
    &&& forall|k: int| 0 <= k < preds.len() && all_pass_before(preds, vals, ords, k) && is_order_op(preds[k].1)
        && #[trigger] vals[k] is Some ==> numeric_gives(numeric, vals[k].unwrap(), preds[k].2, ords[k])
}

struct CompiledPredicate {
    field: String,
    op: FilterOp,
    /// The literal, or the regex pattern for `~` / `!~`.
    operand: String,
    regex: Option<TextRegex>,
}

/// A filter bound to a format: every predicate must hold of the fields the
/// format's regex captures in a line (AND). A second regex, built from the
/// same pattern with `.` matching newlines and `^` / `$` matching at line
/// breaks, serves whole multi-line records.
pub struct CompiledFilter {
    pub format_name: String,
    format_regex: TextRegex,
    format_regex_record: RecordRegex,
    predicates: Vec<CompiledPredicate>,
}

spec fn pred_view(p: CompiledPredicate) -> PredView {
    (p.field@, p.op, p.operand@)
}

spec fn pred_ok(p: CompiledPredicate) -> bool {
    is_regex_op(p.op) ==> (p.regex matches Some(r) && r@ == p.operand@)
}

impl CompiledFilter {
    /// The predicates, in order.
    pub closed spec fn preds(&self) -> Seq<PredView> {
        Seq::new(self.predicates@.len(), |k: int| pred_view(self.predicates@[k]))
    }

    /// The format's name.
    pub closed spec fn name(&self) -> Seq<char> {
        self.format_name@
    }

    /// The format pattern.
    pub closed spec fn pattern(&self) -> Seq<char> {
        self.format_regex@
    }

    /// What `compile` builds: the regexes agree with the predicates.
    pub closed spec fn wf(&self) -> bool {
        &&& forall|k: int| 0 <= k < self.predicates@.len() ==> pred_ok(#[trigger] self.predicates@[k])
        &&& self.format_regex_record@ == self.format_regex@
    }

    /// Compile `specs` against `format`: every spec's field must be one of
    /// the format's fields, and the regex operands of `~` / `!~` are
    /// compiled under `case_mode` (the other operators compare literally).
    pub fn compile(format: &LogFormat, specs: Vec<FilterSpec>, case_mode: CaseMode) -> (r: Result<Self, String>)
        ensures
            r is Ok <==> filter_compile_error(string_views(format.field_names@), format.name@, format.regex@, specs_view(specs@), case_mode) is None,
            r matches Err(m) ==> filter_compile_error(string_views(format.field_names@), format.name@, format.regex@, specs_view(specs@), case_mode) == Some(m@),
            r matches Ok(f) ==> f.wf() && f.name() == format.name@ && f.pattern() == format.regex@
                && f.preds() == specs_view(specs@).map_values(|sp: SpecView| compiled_pred(sp, case_mode)),
    {
        let ghost fields = string_views(format.field_names@);
        let ghost sv = specs_view(specs@);
        let mut predicates: Vec<CompiledPredicate> = Vec::new();
        let mut i: usize = 0;
        while i < specs.len()
            invariant
                i <= specs@.len(),
                fields == string_views(format.field_names@),
                sv == specs_view(specs@),
                first_spec_error(fields, format.name@, sv.take(i as int), case_mode) is None,
                predicates@.len() == i,
                forall|k: int| 0 <= k < i ==> pred_ok(#[trigger] predicates@[k]),
                forall|k: int| 0 <= k < i ==> pred_view(#[trigger] predicates@[k]) == compiled_pred(sv[k], case_mode),
            decreases specs@.len() - i,
        {
            assert(sv.take(i + 1).drop_last() =~= sv.take(i as int));
            assert(sv.take(i + 1).last() == sv[i as int]);
            let spec = &specs[i];
            let known = contains_string(format.field_names.as_slice(), spec.field.as_str());
            if !known {
                let mut msg: Vec<char> = Vec::new();
                push_str(&mut msg, "filter `");
                push_str(&mut msg, spec.field.as_str());
                push_str(&mut msg, op_label(spec.op));
                push_str(&mut msg, spec.value.as_str());
                push_str(&mut msg, "`: field `");
                push_str(&mut msg, spec.field.as_str());
                push_str(&mut msg, "` is not in format `");
                push_str(&mut msg, format.name.as_str());
                push_str(&mut msg, "` (available: ");
                let all = join_strings(format.field_names.as_slice(), ", ");
                push_str(&mut msg, all.as_str());
                push_str(&mut msg, ")");
                proof {
                    lemma_first_error_prefix(fields, format.name@, sv, case_mode, i as int);
                }
                return Err(string_of(msg.as_slice()));
            }
            let is_re = match spec.op {
                FilterOp::Re | FilterOp::NotRe => true,
                _ => false,
            };
            let (operand, regex) = if is_re {
                let pat = case_mode.apply_to_pattern(spec.value.as_str());
                match TextRegex::new(pat.as_str()) {
                    Ok(re) => (pat, Some(re)),
                    Err(e) => {
                        let mut msg: Vec<char> = Vec::new();
                        push_str(&mut msg, "filter `");
                        push_str(&mut msg, spec.field.as_str());
                        push_str(&mut msg, "`: invalid regex `");
                        push_str(&mut msg, spec.value.as_str());
                        push_str(&mut msg, "`: ");
                        push_str(&mut msg, e.as_str());
                        proof {
                            lemma_first_error_prefix(fields, format.name@, sv, case_mode, i as int);
                        }
                        return Err(string_of(msg.as_slice()));
                    },
                }
            } else {
                (spec.value.clone(), None)
            };
            let field = spec.field.clone();
            predicates.push(CompiledPredicate { field, op: spec.op, operand, regex });
            i = i + 1;
        }
        assert(sv.take(sv.len() as int) =~= sv);
        let record = match RecordRegex::new(format.regex.as_str()) {
            Ok(re) => re,
            Err(e) => {
                let mut msg: Vec<char> = Vec::new();
                push_str(&mut msg, "format `");
                push_str(&mut msg, format.name.as_str());
                push_str(&mut msg, "`: rebuilding regex for records mode: ");
                push_str(&mut msg, e.as_str());
                return Err(string_of(msg.as_slice()));
            },
        };
        let f = CompiledFilter {
            format_name: format.name.clone(),
            format_regex: format.regex.clone_regex(),
            format_regex_record: record,
            predicates,
        };
        assert(f.preds() =~= sv.map_values(|sp: SpecView| compiled_pred(sp, case_mode)));
        Ok(f)
    }
}

/// The error at spec `i`, after `i` good ones, is the first error.
proof fn lemma_first_error_prefix(fields: Seq<Seq<char>>, name: Seq<char>, sv: Seq<SpecView>, mode: CaseMode, i: int)
    requires
        0 <= i < sv.len(),
        first_spec_error(fields, name, sv.take(i), mode) is None,
        spec_error(fields, name, sv[i], mode) is Some,
    ensures
        first_spec_error(fields, name, sv, mode) == spec_error(fields, name, sv[i], mode),
    decreases sv.len() - i,
{
    if i == sv.len() - 1 {
        assert(sv.drop_last() =~= sv.take(i));
    } else {
        assert(sv.drop_last().take(i) =~= sv.take(i));
        assert(sv.drop_last()[i] == sv[i]);
        lemma_first_error_prefix(fields, name, sv.drop_last(), mode, i);
    }
}

/// The operator's name as `{:?}` prints it.
fn op_label(op: FilterOp) -> (s: &'static str)
    ensures
        s@ == op_name(op),
{
    match op {
        FilterOp::Eq => "Eq",
        FilterOp::Ne => "Ne",
        FilterOp::Re => "Re",
        FilterOp::NotRe => "NotRe",
        FilterOp::Lt => "Lt",
        FilterOp::Le => "Le",
        FilterOp::Gt => "Gt",
        FilterOp::Ge => "Ge",
    }
}

/// Whether `name` is one of `names`.
fn contains_string(names: &[String], name: &str) -> (r: bool)
    ensures
        r == string_views(names@).contains(name@),
{
    let ghost v = string_views(names@);
    let mut i: usize = 0;
    while i < names.len()
        invariant
            i <= names@.len(),
            v == string_views(names@),
            forall|k: int| 0 <= k < i ==> v[k] != name@,
        decreases names@.len() - i,
    {
        let c = chars_of(names[i].as_str());
        if eq_lit(c.as_slice(), name) {
            assert(v[i as int] == name@);
            return true;
        }
        i = i + 1;
    }
    false
}

impl CompiledFilter {
    /// The fields the predicates read, in order.
    fn pred_fields(&self) -> (v: Vec<String>)
        ensures
            v@.len() == self.preds().len(),
            forall|k: int| 0 <= k < v@.len() ==> (#[trigger] v@[k])@ == self.preds()[k].0,
    {
        let mut v: Vec<String> = Vec::new();
        let mut i: usize = 0;
        while i < self.predicates.len()
            invariant
                i <= self.predicates@.len(),
                v@.len() == i,
                forall|k: int| 0 <= k < i ==> (#[trigger] v@[k])@ == self.preds()[k].0,
            decreases self.predicates@.len() - i,
        {
            v.push(self.predicates[i].field.clone());
            i = i + 1;
        }
        v
    }

    /// Judge the captured values of the predicates' fields, in order; the
    /// first predicate that does not hold decides.
    fn judge<F: Fn(&str, &str) -> Option<Option<Order>>>(&self, vals: &Vec<Option<String>>, numeric: F, Ghost(c): Ghost<Map<Seq<char>, Seq<char>>>) -> (m: FilterMatch)
        requires
            self.wf(),
            vals@.len() == self.preds().len(),
            forall|k: int| 0 <= k < vals@.len() ==> opt_text(#[trigger] vals@[k]) == captured(c, self.preds()[k].0),
            forall|a: &str, b: &str| call_requires(numeric, (a, b)),
        ensures
            exists|ords: Seq<Option<Option<Order>>>| #[trigger] orders_from(numeric, self.preds(), pred_values(self.preds(), c), ords)
                && m == filter_match(self.preds(), Some(c), ords),
    {
        let ghost preds = self.preds();
        let ghost pv = pred_values(preds, c);
        let ghost n = preds.len();
        let ghost mut ords: Seq<Option<Option<Order>>> = seq![];
        let mut k: usize = 0;
        while k < self.predicates.len()
            invariant
                self.wf(),
                preds == self.preds(),
                pv == pred_values(preds, c),
                n == preds.len(),
                n == self.predicates@.len(),
                vals@.len() == n,
                forall|j: int| 0 <= j < n ==> opt_text(#[trigger] vals@[j]) == captured(c, preds[j].0),
                forall|a: &str, b: &str| call_requires(numeric, (a, b)),
                k <= n,
                ords.len() == k,
                all_pass_before(preds, pv, ords, k as int),
                forall|j: int| 0 <= j < k && is_order_op(preds[j].1) && #[trigger] pv[j] is Some
                    ==> numeric_gives(numeric, pv[j].unwrap(), preds[j].2, ords[j]),
            decreases n - k,
        {
            let pred = &self.predicates[k];
            assert(preds[k as int] == pred_view(*pred));
            assert(pv[k as int] == opt_text(vals@[k as int]));
            let ghost o: Option<Option<Order>> = None;
            let ok = match &vals[k] {
                None => false,
                Some(v) => match pred.op {
                    FilterOp::Eq => {
                        let cv = chars_of(v.as_str());
                        eq_lit(cv.as_slice(), pred.operand.as_str())
                    },
                    FilterOp::Ne => {
                        let cv = chars_of(v.as_str());
                        !eq_lit(cv.as_slice(), pred.operand.as_str())
                    },
                    FilterOp::Re => {
                        assert(pred_ok(self.predicates@[k as int]));
                        match &pred.regex {
                            Some(r) => r.is_match(v.as_str()),
                            None => false,
                        }
                    },
                    FilterOp::NotRe => {
                        assert(pred_ok(self.predicates@[k as int]));
                        match &pred.regex {
                            Some(r) => !r.is_match(v.as_str()),
                            None => false,
                        }
                    },
                    _ => {
                        let a = v.as_str();
                        let b = pred.operand.as_str();
                        let num = numeric(a, b);
                        proof {
                            o = num;
                            assert(numeric_gives(numeric, pv[k as int].unwrap(), preds[k as int].2, o));
                        }
                        compare_with(&pred.op, num, a, b)
                    },
                },
            };
            proof {
                assert(ok == pred_pass(preds[k as int], pv[k as int], o));
            }
            if !ok {
                proof {
                    let full = ords.push(o) + Seq::new((n - k - 1) as nat, |i: int| None::<Option<Order>>);
                    assert(full[k as int] == o);
                    assert forall|j: int| 0 <= j < k implies #[trigger] full[j] == ords[j] by {}
                    assert(!all_pass_before(preds, pv, full, n as int));
                    assert forall|j: int| 0 <= j < n && all_pass_before(preds, pv, full, j) && is_order_op(preds[j].1)
                        && #[trigger] pv[j] is Some implies numeric_gives(numeric, pv[j].unwrap(), preds[j].2, full[j]) by {
                        if j > k {
                            assert(pred_pass(preds[k as int], pv[k as int], full[k as int]));
                        } else if j < k {
                            assert(full[j] == ords[j]);
                        }
                    }
                    assert(orders_from(numeric, preds, pv, full));
                }
                return FilterMatch::NotMatched;
            }
            proof {
                let old_ords = ords;
                ords = ords.push(o);
                assert forall|j: int| 0 <= j < k + 1 implies #[trigger] pred_pass(preds[j], pv[j], ords[j]) by {
                    if j < k {
                        assert(ords[j] == old_ords[j]);
                        assert(pred_pass(preds[j], pv[j], old_ords[j]));
                    }
                }
                assert forall|j: int| 0 <= j < k + 1 && is_order_op(preds[j].1) && #[trigger] pv[j] is Some
                    implies numeric_gives(numeric, pv[j].unwrap(), preds[j].2, ords[j]) by {
                    if j < k {
                        assert(ords[j] == old_ords[j]);
                    }
                }
            }
            k = k + 1;
        }
        proof {
            assert(orders_from(numeric, preds, pv, ords));
        }
        FilterMatch::Matched
    }

    /// Evaluate the filter against one line, decoded via `enc`: `NotParsed`
    /// when the format regex does not match, else `Matched` when every
    /// predicate holds of the captured fields. `numeric(a, b)` is the
    /// numeric order of `a` and `b` when both parse as numbers (`Some(None)`
    /// when they do not compare), `None` when they do not; the ordering
    /// operators compare lexicographically then.
    pub fn evaluate<F: Fn(&str, &str) -> Option<Option<Order>>>(&self, line: &[u8], enc: TextEncoding, numeric: F) -> (m: FilterMatch)
        requires
            self.wf(),
            forall|a: &str, b: &str| call_requires(numeric, (a, b)),
        ensures
            match text_regex_captures(self.pattern(), decoded_text(enc@, line@)) {
                None => m == FilterMatch::NotParsed,
                Some(c) => exists|ords: Seq<Option<Option<Order>>>| #[trigger] orders_from(numeric, self.preds(), pred_values(self.preds(), c), ords)
                    && m == filter_match(self.preds(), Some(c), ords),
            },
    {
        let decoded = decode_line(line, enc);
        let text: &str = match &decoded {
            std::borrow::Cow::Borrowed(b) => b,
            std::borrow::Cow::Owned(o) => o.as_str(),
        };
        let names = self.pred_fields();
        match self.format_regex.captures(text, names.as_slice()) {
            None => FilterMatch::NotParsed,
            Some(vals) => {
                let ghost c = text_regex_captures(self.format_regex@, text@).unwrap();
                self.judge(&vals, numeric, Ghost(c))
            },
        }
    }

    /// Records-mode evaluation: as `evaluate`, against a whole multi-line
    /// record with the records regex (`.` matches newlines, `^` / `$` match
    /// at line breaks), so captures can span the record body.
    pub fn evaluate_record<F: Fn(&str, &str) -> Option<Option<Order>>>(&self, record: &[u8], enc: TextEncoding, numeric: F) -> (m: FilterMatch)
        requires
            self.wf(),
            forall|a: &str, b: &str| call_requires(numeric, (a, b)),
        ensures
            match record_regex_captures(self.pattern(), decoded_text(enc@, record@)) {
                None => m == FilterMatch::NotParsed,
                Some(c) => exists|ords: Seq<Option<Option<Order>>>| #[trigger] orders_from(numeric, self.preds(), pred_values(self.preds(), c), ords)
                    && m == filter_match(self.preds(), Some(c), ords),
            },
    {
        let decoded = decode_line(record, enc);
        let text: &str = match &decoded {
            std::borrow::Cow::Borrowed(b) => b,
            std::borrow::Cow::Owned(o) => o.as_str(),
        };
        let names = self.pred_fields();
        match self.format_regex_record.captures(text, names.as_slice()) {
            None => FilterMatch::NotParsed,
            Some(vals) => {
                let ghost c = record_regex_captures(self.format_regex_record@, text@).unwrap();
                self.judge(&vals, numeric, Ghost(c))
            },
        }
    }
}

// ---------------------------------------------------------------------------
// How a spec splits.
// ---------------------------------------------------------------------------

/// The text of an operator.
pub open spec fn sep_of(op: FilterOp) -> Seq<char> {
    match op {
        FilterOp::NotRe => seq!['!', '~'],
        FilterOp::Ne => seq!['!', '='],
        FilterOp::Le => seq!['<', '='],
        FilterOp::Ge => seq!['>', '='],
        FilterOp::Re => seq!['~'],
        FilterOp::Eq => seq!['='],
        FilterOp::Lt => seq!['<'],
        FilterOp::Gt => seq!['>'],
    }
}

/// The operators in the order they are looked for.
pub open spec fn op_priority() -> Seq<FilterOp> {
    seq![FilterOp::NotRe, FilterOp::Ne, FilterOp::Le, FilterOp::Ge, FilterOp::Re, FilterOp::Eq, FilterOp::Lt, FilterOp::Gt]
}

/// An operator's place in that order.
pub open spec fn op_rank(op: FilterOp) -> int {
    match op {
        FilterOp::NotRe => 0,
        FilterOp::Ne => 1,
        FilterOp::Le => 2,
        FilterOp::Ge => 3,
        FilterOp::Re => 4,
        FilterOp::Eq => 5,
        FilterOp::Lt => 6,
        FilterOp::Gt => 7,
    }
}

proof fn lemma_find_pair_first(s: Seq<char>, a: char, b: char, i: int)
    requires
        0 <= i,
    ensures
        match find_pair(s, a, b, i) {
            Some(p) => occurs_at(s, seq![a, b], p) && forall|j: int| i <= j < p ==> !occurs_at(s, seq![a, b], j),
            None => forall|j: int| i <= j ==> !occurs_at(s, seq![a, b], j),
        },
    decreases s.len() - i,
{
    if i + 1 < s.len() {
        if s[i] == a && s[i + 1] == b {
            assert(s.subrange(i, i + 2) =~= seq![a, b]);
        } else {
            lemma_find_pair_first(s, a, b, i + 1);
            if occurs_at(s, seq![a, b], i) {
                assert(s.subrange(i, i + 2)[0] == s[i]);
                assert(s.subrange(i, i + 2)[1] == s[i + 1]);
            }
        }
    }
}

proof fn lemma_find_char_first(s: Seq<char>, c: char, i: int)
    requires
        0 <= i,
    ensures
        match find_char(s, c, i) {
            Some(p) => occurs_at(s, seq![c], p) && forall|j: int| i <= j < p ==> !occurs_at(s, seq![c], j),
            None => forall|j: int| i <= j ==> !occurs_at(s, seq![c], j),
        },
    decreases s.len() - i,
{
    if i < s.len() {
        if s[i] == c {
            assert(s.subrange(i, i + 1) =~= seq![c]);
        } else {
            lemma_find_char_first(s, c, i + 1);
            if occurs_at(s, seq![c], i) {
                assert(s.subrange(i, i + 1)[0] == s[i]);
            }
        }
    }
}

/// `c` is nowhere in `s` exactly when `[c]` occurs nowhere.
proof fn lemma_char_absent(s: Seq<char>, c: char)
    ensures
        (forall|j: int| 0 <= j ==> !occurs_at(s, seq![c], j)) <==> (forall|j: int| 0 <= j < s.len() ==> s[j] != c),
{
    if forall|j: int| 0 <= j ==> !occurs_at(s, seq![c], j) {
        assert forall|j: int| 0 <= j < s.len() implies s[j] != c by {
            if s[j] == c {
                assert(s.subrange(j, j + 1) =~= seq![c]);
                assert(occurs_at(s, seq![c], j));
            }
        }
    }
    if forall|j: int| 0 <= j < s.len() ==> s[j] != c {
        assert forall|j: int| 0 <= j implies !occurs_at(s, seq![c], j) by {
            if occurs_at(s, seq![c], j) {
                assert(s.subrange(j, j + 1)[0] == s[j]);
            }
        }
    }
}

/// A pair whose second character is absent does not occur.
proof fn lemma_pair_absent(s: Seq<char>, a: char, b: char)
    requires
        forall|j: int| 0 <= j < s.len() ==> s[j] != b,
    ensures
        forall|j: int| 0 <= j ==> !occurs_at(s, seq![a, b], j),
{
    assert forall|j: int| 0 <= j implies !occurs_at(s, seq![a, b], j) by {
        if occurs_at(s, seq![a, b], j) {
            assert(s.subrange(j, j + 2)[1] == s[j + 1]);
        }
    }
}

/// A parsed spec gives its input back: the field, the operator's text and
/// the value, joined, are the input. The operator is the first (in the
/// order `!~ != <= >= ~ = < >`) that occurs at all, so `status!=200` parses
/// as `!=`; the field is not empty and does not hold that operator, and no
/// operator looked for earlier occurs anywhere in the input. The spec lacks
/// an operator exactly when it holds none of `=`, `~`, `<`, `>`, and its
/// field is empty exactly when the chosen operator starts it.
pub proof fn lemma_filter_spec_round_trip(s: Seq<char>)
    ensures
        parse_filter_spec(s) matches Ok(sp) ==> {
            &&& sp.0.len() > 0
            &&& sp.0 + sep_of(sp.1) + sp.2 == s
            &&& !contains_sub(sp.0, sep_of(sp.1))
            &&& forall|k: int| 0 <= k < op_rank(sp.1) ==> !contains_sub(s, sep_of(#[trigger] op_priority()[k]))
        },
        operator_location(s) is None <==> (forall|j: int| 0 <= j < s.len()
            ==> s[j] != '=' && s[j] != '~' && s[j] != '<' && s[j] != '>'),
        operator_location(s) matches Some(loc) ==> (parse_filter_spec(s) is Err <==> occurs_at(s, sep_of(loc.2), 0)),
{
    lemma_find_pair_first(s, '!', '~', 0);
    lemma_find_pair_first(s, '!', '=', 0);
    lemma_find_pair_first(s, '<', '=', 0);
    lemma_find_pair_first(s, '>', '=', 0);
    lemma_find_char_first(s, '~', 0);
    lemma_find_char_first(s, '=', 0);
    lemma_find_char_first(s, '<', 0);
    lemma_find_char_first(s, '>', 0);
    lemma_char_absent(s, '~');
    lemma_char_absent(s, '=');
    lemma_char_absent(s, '<');
    lemma_char_absent(s, '>');
    if forall|j: int| 0 <= j < s.len() ==> s[j] != '~' {
        lemma_pair_absent(s, '!', '~');
    }
    if forall|j: int| 0 <= j < s.len() ==> s[j] != '=' {
        lemma_pair_absent(s, '!', '=');
        lemma_pair_absent(s, '<', '=');
        lemma_pair_absent(s, '>', '=');
    }
    if let Some((p, len, op)) = operator_location(s) {
        let sep = sep_of(op);
        assert(sep.len() == len);
        assert(occurs_at(s, sep, p));
        assert(forall|j: int| 0 <= j < p ==> !occurs_at(s, sep, j));
        assert forall|k: int| 0 <= k < op_rank(op) implies !contains_sub(s, sep_of(#[trigger] op_priority()[k])) by {
            let e = op_priority()[k];
            assert(forall|j: int| 0 <= j ==> !occurs_at(s, sep_of(e), j));
        }
        if p > 0 {
            let f = s.take(p);
            assert(f + sep + s.skip(p + len) =~= s);
            assert forall|j: int| !occurs_at(f, sep, j) by {
                if occurs_at(f, sep, j) {
                    assert(s.subrange(j, j + len) =~= f.subrange(j, j + len));
                    assert(occurs_at(s, sep, j));
                }
            }
        }
    }
}

} // verus!
