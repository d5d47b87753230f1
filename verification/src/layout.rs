//! Per-pane settings: the `--header` and `--tabs` specs, the checks a
//! `--`-delimited pane section must pass before a pane is built from it, a
//! pane's own predicates (grep, filter, display, record start), its options,
//! and the display settings every pane shares.

use vstd::prelude::*;
use crate::text::{
    chars_of, decimal_chars, decimal_of, parse_usize, parse_usize_spec, push_chars, push_str,
    lemma_split_on_nonempty, split_chars, split_on, string_of, trim, trim_bounds, slice_vec, views_of,
};
use crate::viewport::CaseMode;
use crate::error::Error;
use crate::filter::{
    compiled_pred, filter_compile_error, parse_filter_spec, specs_view, CompiledFilter, FilterSpec, SpecView,
};
use crate::format::{compile_spec, DisplayRenderer, DisplayTemplate, LogFormat, SegmentView};
use crate::grep::{first_bad_pattern, grep_error_text, GrepPredicate};
use crate::pattern::{bytes_regex_error, ByteRegex};
use crate::text::{eq_lit, string_views};
use crate::image_render::AsciiStyle;
use crate::hex::hex_chars_to_bytes_per_group;

verus! {

/// `lead`, then `v`, then a closing backquote.
fn backquoted(lead: &str, v: &[char]) -> (s: String)
    ensures
        s@ == lead@ + v@ + "`"@,
{
    let mut out: Vec<char> = Vec::new();
    push_str(&mut out, lead);
    push_chars(&mut out, v);
    push_str(&mut out, "`");
    string_of(out.as_slice())
}

/// One field of a `--header` spec: a missing (empty) field is 0.
pub open spec fn header_field(p: Seq<char>) -> Option<usize> {
    if p.len() == 0 { Some(0usize) } else { parse_usize_spec(p) }
}

/// What a `--header` spec means: `L` (no columns) or `L,C`, a missing
/// field being 0.
pub open spec fn header_spec_meaning(s: Seq<char>) -> Result<(usize, usize), Seq<char>> {
    let parts = split_on(s, ',');
    if parts.len() == 1 {
        match header_field(parts[0]) {
            Some(n) => Ok((n, 0usize)),
            None => Err("--header: not a number `"@ + parts[0] + "`"@),
        }
    } else if parts.len() == 2 {
        match header_field(parts[0]) {
            None => Err("--header: bad L `"@ + parts[0] + "`"@),
            Some(l) => match header_field(parts[1]) {
                None => Err("--header: bad C `"@ + parts[1] + "`"@),
                Some(c) => Ok((l, c)),
            },
        }
    } else {
        Err("--header takes L or L,C"@)
    }
}

/// One field of a `--header` spec; empty is 0.
fn parse_header_field(p: &[char]) -> (r: Option<usize>)
    ensures
        r == header_field(p@),
{
    if p.len() == 0 { Some(0) } else { parse_usize(p) }
}

/// Parse `--header=L` or `--header=L,C` into `(L, C)`; a field that is
/// missing is 0.
pub fn parse_header_spec(s: &str) -> (r: Result<(usize, usize), String>)
    ensures
        match header_spec_meaning(s@) {
            Ok(p) => r == Ok::<(usize, usize), String>(p),
            Err(e) => (r matches Err(m) && m@ == e),
        },
{
    let c = chars_of(s);
    let parts = split_chars(c.as_slice(), ',');
    proof {
        assert(views_of(parts@).len() == parts@.len());
        if parts@.len() >= 1 { assert(views_of(parts@)[0] == parts@[0]@); }
        if parts@.len() >= 2 { assert(views_of(parts@)[1] == parts@[1]@); }
    }
    if parts.len() == 1 {
        match parse_header_field(parts[0].as_slice()) {
            Some(n) => Ok((n, 0)),
            None => Err(backquoted("--header: not a number `", parts[0].as_slice())),
        }
    } else if parts.len() == 2 {
        let l = match parse_header_field(parts[0].as_slice()) {
            Some(l) => l,
            None => { return Err(backquoted("--header: bad L `", parts[0].as_slice())); },
        };
        match parse_header_field(parts[1].as_slice()) {
            Some(cc) => Ok((l, cc)),
            None => Err(backquoted("--header: bad C `", parts[1].as_slice())),
        }
    } else {
        Err(String::from_str("--header takes L or L,C"))
    }
}

/// The stops that comma-separated pieces give, read in order, or the first
/// error: each piece (trimmed) must be a number, at least 1, and greater
/// than the one before.
pub open spec fn tab_stops(parts: Seq<Seq<char>>) -> Result<Seq<usize>, Seq<char>>
    decreases parts.len(),
{
    if parts.len() == 0 {
        Ok(seq![])
    } else {
        match tab_stops(parts.drop_last()) {
            Err(e) => Err(e),
            Ok(out) => {
                let p = parts.last();
                match parse_usize_spec(trim(p)) {
                    None => Err("--tabs: invalid number `"@ + p + "`"@),
                    Some(n) => if n == 0 {
                        Err("--tabs: stops must be >= 1"@)
                    } else if out.len() > 0 && n <= out.last() {
                        Err("--tabs: stops must be strictly ascending"@)
                    } else {
                        Ok(out.push(n))
                    },
                }
            },
        }
    }
}

/// What a `--tabs` spec means.
pub open spec fn tab_spec_meaning(spec: Seq<char>) -> Result<Seq<usize>, Seq<char>> {
    match tab_stops(split_on(spec, ',')) {
        Err(e) => Err(e),
        Ok(v) => if v.len() == 0 { Err("--tabs: empty list"@) } else { Ok(v) },
    }
}

/// The stops are at least 1 and strictly ascending.
pub open spec fn valid_stops(v: Seq<usize>) -> bool {
    &&& forall|i: int| 0 <= i < v.len() ==> #[trigger] v[i] >= 1
    &&& forall|i: int, j: int| 0 <= i < j < v.len() ==> #[trigger] v[i] < #[trigger] v[j]
}

proof fn lemma_tab_stops_valid(parts: Seq<Seq<char>>)
    ensures
        tab_stops(parts) matches Ok(v) ==> valid_stops(v),
    decreases parts.len(),
{
    if parts.len() > 0 {
        lemma_tab_stops_valid(parts.drop_last());
    }
}

proof fn lemma_tab_error_persists(parts: Seq<Seq<char>>, i: int, n: int)
    requires
        0 <= i <= n <= parts.len(),
        tab_stops(parts.take(i)) is Err,
    ensures
        tab_stops(parts.take(n)) == tab_stops(parts.take(i)),
    decreases n - i,
{
    if i < n {
        assert(parts.take(i + 1).drop_last() =~= parts.take(i));
        lemma_tab_error_persists(parts, i + 1, n);
    }
}

/// Piece `i` (trimmed) is a number of at least 1.
pub open spec fn stop_ok(parts: Seq<Seq<char>>, i: int) -> bool {
    parse_usize_spec(trim(parts[i])) matches Some(n) && n >= 1
}

/// The number piece `i` gives.
pub open spec fn stop_of(parts: Seq<Seq<char>>, i: int) -> usize {
    parse_usize_spec(trim(parts[i])).unwrap()
}

/// Every piece is a number of at least 1, and they are strictly ascending.
pub open spec fn stops_acceptable(parts: Seq<Seq<char>>) -> bool {
    &&& forall|i: int| 0 <= i < parts.len() ==> #[trigger] stop_ok(parts, i)
    &&& forall|i: int, j: int| 0 <= i < j < parts.len() ==> #[trigger] stop_of(parts, i) < #[trigger] stop_of(parts, j)
}

proof fn lemma_tab_stops_exact(parts: Seq<Seq<char>>)
    ensures
        tab_stops(parts) is Ok <==> stops_acceptable(parts),
        tab_stops(parts) matches Ok(v) ==> v.len() == parts.len()
            && forall|i: int| 0 <= i < v.len() ==> #[trigger] v[i] == stop_of(parts, i),
    decreases parts.len(),
{
    if parts.len() > 0 {
        let d = parts.drop_last();
        lemma_tab_stops_exact(d);
        let n = parts.len() - 1;
        assert forall|i: int| 0 <= i < d.len() implies d[i] == parts[i] by {}
        assert forall|i: int| 0 <= i < d.len() implies #[trigger] stop_ok(d, i) == stop_ok(parts, i) && stop_of(d, i) == stop_of(parts, i) by {
            assert(d[i] == parts[i]);
        }
        if stops_acceptable(parts) {
            assert(stops_acceptable(d)) by {
                assert forall|i: int, j: int| 0 <= i < j < d.len() implies #[trigger] stop_of(d, i) < #[trigger] stop_of(d, j) by {
                    assert(stop_of(parts, i) < stop_of(parts, j));
                }
            }
            assert(stop_ok(parts, n));
            assert(parts.last() == parts[n]);
            let out = tab_stops(d)->Ok_0;
            if n > 0 {
                assert(stop_of(parts, n - 1) < stop_of(parts, n));
                assert(out.last() == out[n - 1]);
                assert(out[n - 1] == stop_of(d, n - 1));
            }
            assert(tab_stops(parts) is Ok);
        }
        if tab_stops(parts) is Ok {
            let out = tab_stops(d)->Ok_0;
            assert(parts.last() == parts[n]);
            assert(stops_acceptable(d));
            assert(stop_ok(parts, n));
            assert forall|i: int| 0 <= i < parts.len() implies #[trigger] stop_ok(parts, i) by {
                if i < n {
                    assert(stop_ok(d, i));
                }
            }
            assert forall|i: int, j: int| 0 <= i < j < parts.len() implies #[trigger] stop_of(parts, i) < #[trigger] stop_of(parts, j) by {
                if j == n {
                    if i < n - 1 {
                        assert(stop_of(d, i) < stop_of(d, n - 1));
                    }
                    assert(out.last() == out[n - 1]);
                } else {
                    assert(stop_of(d, i) < stop_of(d, j));
                }
            }
        }
    }
}

/// A `--tabs` list is accepted exactly when every comma-separated piece
/// trims to a number of at least 1 and the numbers strictly ascend; the
/// stops are then those numbers, in order.
pub proof fn lemma_tab_spec_accepts(spec: Seq<char>)
    ensures
        tab_spec_meaning(spec) is Ok <==> stops_acceptable(split_on(spec, ',')),
        tab_spec_meaning(spec) matches Ok(v) ==> v.len() == split_on(spec, ',').len()
            && forall|i: int| 0 <= i < v.len() ==> #[trigger] v[i] == stop_of(split_on(spec, ','), i),
{
    lemma_split_on_nonempty(spec, ',');
    lemma_tab_stops_exact(split_on(spec, ','));
}

/// Parse a `--tabs` list such as `4,8,16`.
pub fn parse_tab_stops(spec: &str) -> (r: Result<Vec<usize>, String>)
    ensures
        match tab_spec_meaning(spec@) {
            Ok(v) => (r matches Ok(w) && w@ == v),
            Err(e) => (r matches Err(m) && m@ == e),
        },
        r matches Ok(w) ==> valid_stops(w@),
{
    let c = chars_of(spec);
    let parts = split_chars(c.as_slice(), ',');
    let ghost pv = views_of(parts@);
    let mut out: Vec<usize> = Vec::new();
    let mut i: usize = 0;
    assert(pv.take(0) =~= seq![]);
    while i < parts.len()
        invariant
            i <= parts@.len(),
            pv == views_of(parts@),
            pv == split_on(spec@, ','),
            tab_stops(pv.take(i as int)) == Ok::<Seq<usize>, Seq<char>>(out@),
        decreases parts@.len() - i,
    {
        let ghost t = pv.take(i + 1);
        assert(t.drop_last() =~= pv.take(i as int));
        assert(t.last() == parts@[i as int]@);
        let part = parts[i].as_slice();
        let (a, b) = trim_bounds(part, 0, part.len());
        assert(part@.subrange(0, part@.len() as int) =~= part@);
        let trimmed = slice_vec(part, a, b);
        let n = match parse_usize(trimmed.as_slice()) {
            Some(n) => n,
            None => {
                proof { lemma_tab_error_persists(pv, i + 1, pv.len() as int); }
                assert(pv.take(pv.len() as int) =~= pv);
                return Err(backquoted("--tabs: invalid number `", part));
            },
        };
        if n == 0 {
            proof { lemma_tab_error_persists(pv, i + 1, pv.len() as int); }
            assert(pv.take(pv.len() as int) =~= pv);
            return Err(String::from_str("--tabs: stops must be >= 1"));
        }
        if out.len() > 0 && n <= out[out.len() - 1] {
            proof { lemma_tab_error_persists(pv, i + 1, pv.len() as int); }
            assert(pv.take(pv.len() as int) =~= pv);
            return Err(String::from_str("--tabs: stops must be strictly ascending"));
        }
        out.push(n);
        i = i + 1;
    }
    assert(pv.take(pv.len() as int) =~= pv);
    proof {
        lemma_tab_stops_valid(pv);
    }
    if out.len() == 0 {
        return Err(String::from_str("--tabs: empty list"));
    }
    Ok(out)
}

/// What a `--`-delimited pane section asks for, as far as the checks
/// before building its pane read it.
pub struct SectionFlags {
    pub file: Option<String>,
    pub has_filter: bool,
    pub has_format: bool,
    pub has_display: bool,
    /// Any of `--or-filter`, `--or-grep`, `--or-group`.
    pub has_or_flags: bool,
    pub ignore_case: bool,
    pub ignore_case_always: bool,
}

/// Why a section cannot become a pane, if it cannot. Sections count from
/// pane 2 (section `i` is pane `i + 2`).
pub open spec fn section_error(i: nat, s: SectionFlags) -> Option<Seq<char>> {
    let lead = "pane "@ + decimal_of(i + 2);
    if s.file is None {
        Some(lead + ": no file given"@)
    } else if s.has_filter && !s.has_format {
        Some(lead + ": --filter requires --format"@)
    } else if s.has_display && !s.has_format {
        Some(lead + ": --display requires --format"@)
    } else if s.has_or_flags {
        Some(lead + ": --or-filter/--or-grep/--or-group are only allowed before the first `--`"@)
    } else {
        None
    }
}

/// Check section `i` (pane `i + 2`) before its pane is built.
pub fn check_section(i: usize, s: &SectionFlags) -> (r: Result<(), String>)
    requires
        i + 2 <= usize::MAX,
    ensures
        match section_error(i as nat, *s) {
            None => r is Ok,
            Some(e) => (r matches Err(m) && m@ == e),
        },
{
    let mut out: Vec<char> = Vec::new();
    push_str(&mut out, "pane ");
    let d = decimal_chars((i + 2) as u64);
    push_chars(&mut out, d.as_slice());
    if s.file.is_none() {
        push_str(&mut out, ": no file given");
    } else if s.has_filter && !s.has_format {
        push_str(&mut out, ": --filter requires --format");
    } else if s.has_display && !s.has_format {
        push_str(&mut out, ": --display requires --format");
    } else if s.has_or_flags {
        push_str(&mut out, ": --or-filter/--or-grep/--or-group are only allowed before the first `--`");
    } else {
        return Ok(());
    }
    Err(string_of(out.as_slice()))
}

/// A section's search case policy: `-I` is insensitive, `-i` smart,
/// otherwise sensitive.
pub fn section_case_mode(s: &SectionFlags) -> (m: CaseMode)
    ensures
        m == (if s.ignore_case_always { CaseMode::Insensitive } else if s.ignore_case { CaseMode::Smart } else { CaseMode::Sensitive }),
{
    if s.ignore_case_always {
        CaseMode::Insensitive
    } else if s.ignore_case {
        CaseMode::Smart
    } else {
        CaseMode::Sensitive
    }
}


/// A pane's own predicates: its `--grep` patterns, its `--filter` specs
/// compiled against its format, the display renderer, the record-start
/// regex and the format's name.
pub struct ResolvedPredicates {
    pub grep: Option<GrepPredicate>,
    pub filter: Option<CompiledFilter>,
    pub display: Option<DisplayRenderer>,
    pub record_start: Option<ByteRegex>,
    pub format_label: Option<String>,
}

impl ResolvedPredicates {
    /// No predicates at all: a pane that only shares the display settings.
    pub fn empty() -> (r: Self)
        ensures
            r.grep is None,
            r.filter is None,
            r.display is None,
            r.record_start is None,
            r.format_label is None,
    {
        ResolvedPredicates { grep: None, filter: None, display: None, record_start: None, format_label: None }
    }
}

/// The index of the first format from `i` on that is named `name`.
pub open spec fn first_named(formats: Seq<LogFormat>, name: Seq<char>, i: int) -> Option<int>
    decreases formats.len() - i,
{
    if i < 0 || i >= formats.len() {
        None
    } else if formats[i].name@ == name {
        Some(i)
    } else {
        first_named(formats, name, i + 1)
    }
}

/// The filter specs parsed in order, or the first one's error.
pub open spec fn parse_all_specs(fs: Seq<Seq<char>>) -> Result<Seq<SpecView>, Seq<char>>
    decreases fs.len(),
{
    if fs.len() == 0 {
        Ok(Seq::empty())
    } else {
        match parse_all_specs(fs.drop_last()) {
            Err(e) => Err(e),
            Ok(v) => match parse_filter_spec(fs.last()) {
                Ok(sp) => Ok(v.push(sp)),
                Err(e) => Err(e),
            },
        }
    }
}

/// The message for a format name that no format has.
pub open spec fn unknown_format_text(name: Seq<char>) -> Seq<char> {
    "unknown format `"@ + name + "` (run --list-formats to see available)"@
}

/// Why a pane's predicates cannot be resolved, if they cannot: a bad grep
/// pattern, an unknown format, a bad filter spec or one the format cannot
/// answer, or a display template that does not fit the format. Filters and
/// the display template are only read when a format is named.
pub open spec fn pane_predicates_error(
    grep: Seq<Seq<char>>,
    filter: Seq<Seq<char>>,
    formats: Seq<LogFormat>,
    format_name: Option<Seq<char>>,
    display: Option<Seq<char>>,
    mode: CaseMode,
) -> Option<Seq<char>> {
    match first_bad_pattern(grep) {
        Some(k) => Some(grep_error_text(grep[k])),
        None => match format_name {
            None => None,
            Some(name) => match first_named(formats, name, 0) {
                None => Some(unknown_format_text(name)),
                Some(k) => {
                    let f = formats[k];
                    let fields = string_views(f.field_names@);
                    let filter_error = if filter.len() == 0 {
                        None
                    } else {
                        match parse_all_specs(filter) {
                            Err(e) => Some(e),
                            Ok(specs) => filter_compile_error(fields, f.name@, f.regex@, specs, mode),
                        }
                    };
                    if filter_error is Some {
                        filter_error
                    } else {
                        match display {
                            Some(t) => match compile_spec(t, fields) {
                                Err(e) => Some("--right-display: "@ + e),
                                Ok(_) => None,
                            },
                            None => None,
                        }
                    }
                },
            },
        },
    }
}

/// What resolved predicates hold when resolution succeeds.
pub open spec fn predicates_resolved(
    p: ResolvedPredicates,
    grep: Seq<Seq<char>>,
    filter: Seq<Seq<char>>,
    formats: Seq<LogFormat>,
    format_name: Option<Seq<char>>,
    display: Option<Seq<char>>,
    mode: CaseMode,
) -> bool {
    &&& (p.grep is Some <==> grep.len() > 0)
    &&& (p.grep matches Some(g) ==> g.patterns() == grep)
    &&& match format_name {
        None => p.filter is None && p.display is None && p.record_start is None && p.format_label is None,
        Some(name) => first_named(formats, name, 0) matches Some(k) && {
            let f = formats[k];
            let fields = string_views(f.field_names@);
            &&& p.format_label matches Some(l) && l@ == name
            &&& (p.filter is Some <==> filter.len() > 0)
            &&& (p.filter matches Some(cf) ==> parse_all_specs(filter) matches Ok(specs)
                && cf.wf() && cf.name() == f.name@ && cf.pattern() == f.regex@
                && cf.preds() == specs.map_values(|sp: SpecView| compiled_pred(sp, mode)))
            &&& match display {
                Some(t) => p.display matches Some(d)
                    && compile_spec(t, fields) == Ok::<Seq<SegmentView>, Seq<char>>(d.template_spec().segs())
                    && d.template_spec().source_text() == t && d.pattern() == f.regex@,
                None => match f.display {
                    None => p.display is None,
                    Some(ft) => p.display matches Some(d) && d.template_spec().segs() == ft.segs()
                        && d.template_spec().source_text() == ft.source_text() && d.pattern() == f.regex@,
                },
            }
            &&& match f.record_start {
                None => p.record_start is None,
                Some(re) => (p.record_start is Some <==> bytes_regex_error(re@) is None)
                    && (p.record_start matches Some(b) ==> b@ == re@),
            }
        },
    }
}

proof fn lemma_parse_error_spreads(fs: Seq<Seq<char>>, j: int, e: Seq<char>)
    requires
        0 <= j <= fs.len(),
        parse_all_specs(fs.take(j)) == Err::<Seq<SpecView>, Seq<char>>(e),
    ensures
        parse_all_specs(fs) == Err::<Seq<SpecView>, Seq<char>>(e),
    decreases fs.len() - j,
{
    if j == fs.len() {
        assert(fs.take(j) =~= fs);
    } else {
        assert(fs.take(j + 1).drop_last() =~= fs.take(j));
        lemma_parse_error_spreads(fs, j + 1, e);
    }
}

proof fn lemma_first_bad_in_range(ps: Seq<Seq<char>>)
    ensures
        first_bad_pattern(ps) matches Some(k) ==> 0 <= k < ps.len(),
    decreases ps.len(),
{
    if ps.len() > 0 {
        lemma_first_bad_in_range(ps.drop_last());
    }
}

/// Parse every filter spec, stopping at the first error.
fn parse_specs(filter: &[String]) -> (r: Result<Vec<FilterSpec>, String>)
    ensures
        match parse_all_specs(string_views(filter@)) {
            Ok(sv) => r matches Ok(v) && specs_view(v@) == sv,
            Err(e) => r matches Err(m) && m@ == e,
        },
{
    let ghost fs = string_views(filter@);
    let mut out: Vec<FilterSpec> = Vec::new();
    let mut i: usize = 0;
    assert(fs.take(0) =~= Seq::<Seq<char>>::empty());
    assert(specs_view(out@) =~= Seq::<SpecView>::empty());
    while i < filter.len()
        invariant
            i <= filter@.len(),
            fs == string_views(filter@),
            parse_all_specs(fs.take(i as int)) == Ok::<Seq<SpecView>, Seq<char>>(specs_view(out@)),
        decreases filter@.len() - i,
    {
        assert(fs.take(i as int + 1).drop_last() =~= fs.take(i as int));
        assert(fs.take(i as int + 1).last() == filter@[i as int]@);
        match FilterSpec::parse(filter[i].as_str()) {
            Ok(sp) => {
                let ghost before = out@;
                out.push(sp);
                assert(specs_view(out@) =~= specs_view(before).push((sp.field@, sp.op, sp.value@)));
            },
            Err(m) => {
                proof {
                    lemma_parse_error_spreads(fs, i as int + 1, m@);
                }
                return Err(m);
            },
        }
        i = i + 1;
    }
    assert(fs.take(i as int) =~= fs);
    Ok(out)
}

/// The index of the first format named `name`, if any.
pub(crate) fn find_format(formats: &[LogFormat], name: &str) -> (r: Option<usize>)
    ensures
        r matches Some(k) ==> k < formats@.len(),
        match first_named(formats@, name@, 0) {
            None => r is None,
            Some(k) => r matches Some(j) && j as int == k,
        },
{
    let mut i: usize = 0;
    while i < formats.len()
        invariant
            i <= formats@.len(),
            first_named(formats@, name@, 0) == first_named(formats@, name@, i as int),
        decreases formats@.len() - i,
    {
        let cs = chars_of(formats[i].name.as_str());
        if eq_lit(cs.as_slice(), name) {
            return Some(i);
        }
        i = i + 1;
    }
    None
}

/// Resolve a pane's predicates from its flag values: compile its `--grep`
/// patterns; and where it names a format (one of `formats`), compile its
/// `--filter` specs against that format, its display template (or the
/// format's own), and the format's record-start pattern. `--filter` and
/// `--display` are read only together with a format.
pub fn resolve_pane_predicates(
    grep: &[String],
    filter: &[String],
    formats: &[LogFormat],
    format_name: Option<&str>,
    display: Option<&str>,
    case_mode: CaseMode,
) -> (r: Result<ResolvedPredicates, Error>)
    ensures
        ({
            let err = pane_predicates_error(
                crate::grep::string_views(grep@), string_views(filter@), formats@,
                match format_name { Some(n) => Some(n@), None => None },
                match display { Some(d) => Some(d@), None => None },
                case_mode,
            );
            &&& (r is Ok <==> err is None)
            &&& (r matches Err(e) ==> err matches Some(m) && e matches Error::Runtime(s) && s@ == m)
            &&& (r matches Ok(p) ==> predicates_resolved(
                p, crate::grep::string_views(grep@), string_views(filter@), formats@,
                match format_name { Some(n) => Some(n@), None => None },
                match display { Some(d) => Some(d@), None => None },
                case_mode,
            ))
        }),
{
    let grep_pred = if grep.len() == 0 {
        None
    } else {
        match GrepPredicate::compile(grep) {
            Ok(g) => Some(g),
            Err(m) => {
                proof {
                    lemma_first_bad_in_range(crate::grep::string_views(grep@));
                }
                return Err(Error::Runtime(m));
            },
        }
    };
    let name = match format_name {
        None => {
            return Ok(ResolvedPredicates { grep: grep_pred, filter: None, display: None, record_start: None, format_label: None });
        },
        Some(n) => n,
    };
    let k = match find_format(formats, name) {
        Some(k) => k,
        None => {
            let mut out: Vec<char> = Vec::new();
            push_str(&mut out, "unknown format `");
            push_str(&mut out, name);
            push_str(&mut out, "` (run --list-formats to see available)");
            return Err(Error::Runtime(string_of(out.as_slice())));
        },
    };
    let fmt = &formats[k];
    let filter_pred = if filter.len() == 0 {
        None
    } else {
        let specs = match parse_specs(filter) {
            Ok(s) => s,
            Err(m) => return Err(Error::Runtime(m)),
        };
        match CompiledFilter::compile(fmt, specs, case_mode) {
            Ok(f) => Some(f),
            Err(m) => return Err(Error::Runtime(m)),
        }
    };
    let display_rend = match display {
        Some(t) => match DisplayTemplate::compile(t, fmt.field_names.as_slice()) {
            Ok(tpl) => Some(DisplayRenderer::new(tpl, fmt.regex.clone_regex())),
            Err(e) => {
                let mut out: Vec<char> = Vec::new();
                push_str(&mut out, "--right-display: ");
                push_str(&mut out, e.as_str());
                return Err(Error::Runtime(string_of(out.as_slice())));
            },
        },
        None => match &fmt.display {
            Some(t) => Some(DisplayRenderer::new(t.clone_template(), fmt.regex.clone_regex())),
            None => None,
        },
    };
    let record_start = match &fmt.record_start {
        Some(re) => match ByteRegex::new(re.as_str()) {
            Ok(b) => Some(b),
            Err(_) => None,
        },
        None => None,
    };
    let label = string_of(chars_of(name).as_slice());
    Ok(ResolvedPredicates { grep: grep_pred, filter: filter_pred, display: display_rend, record_start, format_label: Some(label) })
}


/// The command-line settings a pane's options are resolved from.
pub struct PaneSettings {
    /// `--tail N`: start N lines before the end.
    pub tail: Option<usize>,
    /// `--head N`: show at most the first N lines.
    pub head: Option<usize>,
    pub tabs: Option<String>,
    pub header: Option<String>,
    pub hex: bool,
    pub no_image: bool,
    pub blocks: bool,
    pub no_animate: bool,
}

/// How a pane expands tabs: one stop is a fixed width, several are
/// explicit stops.
#[derive(Debug, Clone, PartialEq, Eq)]
pub enum TabSetting {
    Width(u8),
    Stops(Vec<usize>),
}

/// Whether a pane looks for an image in its source, and how it draws one.
#[derive(Debug, Clone, Copy, PartialEq, Eq, Structural)]
pub enum ImageProbe {
    Off,
    Probe { style: AsciiStyle, animate: bool },
}

/// A pane's resolved options.
#[derive(Debug)]
pub struct PaneOptions {
    pub tail: Option<usize>,
    pub head_cap: Option<usize>,
    pub tabs: Option<TabSetting>,
    pub header: Option<(usize, usize)>,
    pub image: ImageProbe,
}

/// Why a pane's options cannot be resolved: a bad `--tabs` list, else a
/// bad `--header` spec.
pub open spec fn pane_options_error(tabs: Option<Seq<char>>, header: Option<Seq<char>>) -> Option<Seq<char>> {
    match tabs {
        Some(t) => match tab_spec_meaning(t) {
            Err(e) => Some(e),
            Ok(_) => match header {
                Some(h) => match header_spec_meaning(h) { Err(e) => Some(e), Ok(_) => None },
                None => None,
            },
        },
        None => match header {
            Some(h) => match header_spec_meaning(h) { Err(e) => Some(e), Ok(_) => None },
            None => None,
        },
    }
}

/// The width a single tab stop gives, kept within `1..=255`.
pub open spec fn single_stop_width(n: usize) -> u8 {
    if n < 1 { 1u8 } else if n > 255 { 255u8 } else { n as u8 }
}

/// What the resolved options hold.
pub open spec fn pane_options_resolved(o: PaneOptions, s: PaneSettings) -> bool {
    &&& o.tail == s.tail
    &&& o.head_cap == s.head
    &&& match s.tabs {
        None => o.tabs is None,
        Some(t) => tab_spec_meaning(t@) matches Ok(v) && if v.len() == 1 {
            o.tabs matches Some(TabSetting::Width(w)) && w == single_stop_width(v[0])
        } else {
            o.tabs matches Some(TabSetting::Stops(w)) && w@ == v
        },
    }
    &&& match s.header {
        None => o.header is None,
        Some(h) => header_spec_meaning(h@) matches Ok(p) && o.header == Some(p),
    }
    &&& o.image == (if s.hex || s.no_image {
        ImageProbe::Off
    } else {
        ImageProbe::Probe {
            style: if s.blocks { AsciiStyle::Blocks } else { AsciiStyle::Ramp },
            animate: !s.no_animate,
        }
    })
}

/// Resolve a pane's options from its settings: the tail start and head
/// cap, the tab stops (a single stop becomes the tab width), the header
/// rows and columns, and whether to look for an image (not in hex mode
/// nor with `--no-image`) and how to draw it.
pub fn resolve_pane_options(s: &PaneSettings) -> (r: Result<PaneOptions, String>)
    ensures
        ({
            let err = pane_options_error(
                match s.tabs { Some(t) => Some(t@), None => None },
                match s.header { Some(h) => Some(h@), None => None },
            );
            &&& (r is Ok <==> err is None)
            &&& (r matches Err(m) ==> err == Some(m@))
            &&& (r matches Ok(o) ==> pane_options_resolved(o, *s))
        }),
{
    let tabs = match &s.tabs {
        None => None,
        Some(t) => match parse_tab_stops(t.as_str()) {
            Err(m) => return Err(m),
            Ok(stops) => {
                if stops.len() == 1 {
                    let n = stops[0];
                    let w: u8 = if n < 1 { 1 } else if n > 255 { 255 } else { n as u8 };
                    Some(TabSetting::Width(w))
                } else {
                    Some(TabSetting::Stops(stops))
                }
            },
        },
    };
    let header = match &s.header {
        None => None,
        Some(h) => match parse_header_spec(h.as_str()) {
            Err(m) => return Err(m),
            Ok(p) => Some(p),
        },
    };
    let image = if s.hex || s.no_image {
        ImageProbe::Off
    } else {
        ImageProbe::Probe {
            style: if s.blocks { AsciiStyle::Blocks } else { AsciiStyle::Ramp },
            animate: !s.no_animate,
        }
    };
    Ok(PaneOptions { tail: s.tail, head_cap: s.head, tabs, header, image })
}


/// The display flags every pane shares, focused or not.
pub struct DisplayFlags {
    pub line_numbers: bool,
    pub chop: bool,
    pub tab_width: u8,
    pub follow: bool,
    pub live: bool,
    pub hex: bool,
    /// Hex characters per group.
    pub hex_group: usize,
    pub squeeze_blanks: bool,
    pub status_column: bool,
    /// The text whose first character marks a line cut at the right edge.
    pub rscroll: String,
    pub word_wrap: bool,
    pub window: Option<u16>,
    pub search_skip_screen: bool,
    pub hilite_only_match: bool,
    pub tilde: bool,
}

/// What a pane's view takes from the shared display flags.
#[derive(Debug, Clone, Copy, PartialEq, Eq, Structural)]
pub struct PaneDisplayConfig {
    /// Flip line numbers on from the view's default.
    pub toggle_line_numbers: bool,
    /// Flip line chopping on from the view's default.
    pub toggle_chop: bool,
    pub tab_width: u8,
    pub follow: bool,
    pub live: bool,
    pub hex_mode: bool,
    /// Bytes per hex group, when hex mode is on and the group width is one
    /// the dump knows.
    pub hex_group: Option<usize>,
    pub squeeze_blanks: bool,
    pub status_column: bool,
    pub rscroll_char: Option<char>,
    pub word_wrap: bool,
    pub page_size: Option<u16>,
    pub search_skip_screen: bool,
    pub hilite_only_match: bool,
    pub tilde_eof: bool,
    /// The pane's place in its own file list (the first) and the list's
    /// length (one).
    pub file_index: usize,
    pub file_count: usize,
}

/// The view settings the shared display flags give a pane.
pub open spec fn display_config_of(f: DisplayFlags) -> PaneDisplayConfig {
    PaneDisplayConfig {
        toggle_line_numbers: f.line_numbers,
        toggle_chop: f.chop,
        tab_width: f.tab_width,
        follow: f.follow,
        live: f.live,
        hex_mode: f.hex,
        hex_group: if f.hex && (f.hex_group == 2 || f.hex_group == 4 || f.hex_group == 8 || f.hex_group == 16 || f.hex_group == 32) {
            Some((f.hex_group / 2) as usize)
        } else {
            None
        },
        squeeze_blanks: f.squeeze_blanks,
        status_column: f.status_column,
        rscroll_char: if f.rscroll@.len() > 0 { Some(f.rscroll@[0]) } else { None },
        word_wrap: f.word_wrap,
        page_size: f.window,
        search_skip_screen: f.search_skip_screen,
        hilite_only_match: f.hilite_only_match,
        tilde_eof: f.tilde,
        file_index: 0usize,
        file_count: 1usize,
    }
}

/// The view settings every pane takes from the shared display flags: a
/// hex group width the dump does not know leaves the group size as it was.
pub fn pane_display_config(f: &DisplayFlags) -> (c: PaneDisplayConfig)
    ensures
        c == display_config_of(*f),
{
    let hex_group = if f.hex { hex_chars_to_bytes_per_group(f.hex_group) } else { None };
    let cs = chars_of(f.rscroll.as_str());
    let rscroll_char = if cs.len() > 0 { Some(cs[0]) } else { None };
    PaneDisplayConfig {
        toggle_line_numbers: f.line_numbers,
        toggle_chop: f.chop,
        tab_width: f.tab_width,
        follow: f.follow,
        live: f.live,
        hex_mode: f.hex,
        hex_group,
        squeeze_blanks: f.squeeze_blanks,
        status_column: f.status_column,
        rscroll_char,
        word_wrap: f.word_wrap,
        page_size: f.window,
        search_skip_screen: f.search_skip_screen,
        hilite_only_match: f.hilite_only_match,
        tilde_eof: f.tilde,
        file_index: 0,
        file_count: 1,
    }
}


/// A `--`-delimited pane section's own flags: its file, its predicates and
/// its case policy.
pub struct SectionArgs {
    pub file: Option<String>,
    pub grep: Vec<String>,
    pub filter: Vec<String>,
    pub format: Option<String>,
    pub display: Option<String>,
    /// Any of `--or-filter`, `--or-grep`, `--or-group`.
    pub has_or_flags: bool,
    /// `-i`: smart case.
    pub ignore_case: bool,
    /// `-I`: always ignore case.
    pub ignore_case_always: bool,
}

/// What a section's pane is built from: its file, its case policy and its
/// resolved predicates.
pub struct SectionPlan {
    pub file: String,
    pub case_mode: CaseMode,
    pub predicates: ResolvedPredicates,
}

pub open spec fn opt_text(o: Option<String>) -> Option<Seq<char>> {
    match o { Some(t) => Some(t@), None => None }
}

/// The checks' view of a section.
pub open spec fn flags_of(s: SectionArgs) -> SectionFlags {
    SectionFlags {
        file: s.file,
        has_filter: s.filter@.len() > 0,
        has_format: s.format is Some,
        has_display: s.display is Some,
        has_or_flags: s.has_or_flags,
        ignore_case: s.ignore_case,
        ignore_case_always: s.ignore_case_always,
    }
}

pub open spec fn section_case(s: SectionArgs) -> CaseMode {
    if s.ignore_case_always { CaseMode::Insensitive } else if s.ignore_case { CaseMode::Smart } else { CaseMode::Sensitive }
}

/// Why section `i` cannot become a pane: a failed check, else its
/// predicates' error.
pub open spec fn section_args_error(i: nat, s: SectionArgs, formats: Seq<LogFormat>) -> Option<Seq<char>> {
    match section_error(i, flags_of(s)) {
        Some(e) => Some(e),
        None => pane_predicates_error(
            crate::grep::string_views(s.grep@), string_views(s.filter@), formats,
            opt_text(s.format), opt_text(s.display), section_case(s),
        ),
    }
}

/// The first section, in order, that cannot become a pane, by its error.
pub open spec fn sections_error(ss: Seq<SectionArgs>, formats: Seq<LogFormat>) -> Option<Seq<char>>
    decreases ss.len(),
{
    if ss.len() == 0 {
        None
    } else {
        match sections_error(ss.drop_last(), formats) {
            Some(e) => Some(e),
            None => section_args_error((ss.len() - 1) as nat, ss.last(), formats),
        }
    }
}

/// What the plan of a section holds.
pub open spec fn section_planned(p: SectionPlan, s: SectionArgs, formats: Seq<LogFormat>) -> bool {
    &&& s.file matches Some(f) && p.file@ == f@
    &&& p.case_mode == section_case(s)
    &&& predicates_resolved(
        p.predicates, crate::grep::string_views(s.grep@), string_views(s.filter@), formats,
        opt_text(s.format), opt_text(s.display), section_case(s),
    )
}

proof fn lemma_section_error_spreads(ss: Seq<SectionArgs>, formats: Seq<LogFormat>, j: int, e: Seq<char>)
    requires
        0 <= j <= ss.len(),
        sections_error(ss.take(j), formats) == Some(e),
    ensures
        sections_error(ss, formats) == Some(e),
    decreases ss.len() - j,
{
    if j == ss.len() {
        assert(ss.take(j) =~= ss);
    } else {
        assert(ss.take(j + 1).drop_last() =~= ss.take(j));
        lemma_section_error_spreads(ss, formats, j + 1, e);
    }
}

/// Check every `--`-delimited section (section `i` is pane `i + 2`) and
/// resolve its predicates against the loaded `formats`, in order, stopping
/// at the first section that cannot become a pane.
pub fn plan_sections(sections: &[SectionArgs], formats: &[LogFormat]) -> (r: Result<Vec<SectionPlan>, Error>)
    requires
        sections@.len() + 2 <= usize::MAX,
    ensures
        (r is Ok <==> sections_error(sections@, formats@) is None),
        r matches Err(e) ==> sections_error(sections@, formats@) matches Some(m) && e matches Error::Runtime(t) && t@ == m,
        r matches Ok(plans) ==> plans@.len() == sections@.len()
            && forall|j: int| 0 <= j < plans@.len() ==> section_planned(#[trigger] plans@[j], sections@[j], formats@),
{
    let mut plans: Vec<SectionPlan> = Vec::new();
    let mut i: usize = 0;
    assert(sections@.take(0) =~= Seq::<SectionArgs>::empty());
    while i < sections.len()
        invariant
            i <= sections@.len(),
            sections@.len() + 2 <= usize::MAX,
            plans@.len() == i,
            sections_error(sections@.take(i as int), formats@) is None,
            forall|j: int| 0 <= j < i ==> section_planned(#[trigger] plans@[j], sections@[j], formats@),
        decreases sections@.len() - i,
    {
        let s = &sections[i];
        assert(sections@.take(i as int + 1).drop_last() =~= sections@.take(i as int));
        assert(sections@.take(i as int + 1).last() == sections@[i as int]);
        let flags = SectionFlags {
            file: match &s.file { Some(f) => Some(f.clone()), None => None },
            has_filter: s.filter.len() > 0,
            has_format: s.format.is_some(),
            has_display: s.display.is_some(),
            has_or_flags: s.has_or_flags,
            ignore_case: s.ignore_case,
            ignore_case_always: s.ignore_case_always,
        };
        assert(section_error(i as nat, flags) == section_error(i as nat, flags_of(*s)));
        match check_section(i, &flags) {
            Err(m) => {
                proof {
                    lemma_section_error_spreads(sections@, formats@, i as int + 1, m@);
                }
                return Err(Error::Runtime(m));
            },
            Ok(()) => {},
        }
        let case_mode = section_case_mode(&flags);
        let fmt_name: Option<&str> = match &s.format { Some(f) => Some(f.as_str()), None => None };
        let disp: Option<&str> = match &s.display { Some(d) => Some(d.as_str()), None => None };
        let predicates = match resolve_pane_predicates(s.grep.as_slice(), s.filter.as_slice(), formats, fmt_name, disp, case_mode) {
            Ok(p) => p,
            Err(e) => {
                proof {
                    let m = section_args_error(i as nat, *s, formats@)->0;
                    lemma_section_error_spreads(sections@, formats@, i as int + 1, m);
                }
                return Err(e);
            },
        };
        let file = match &s.file { Some(f) => f.clone(), None => String::new() };
        plans.push(SectionPlan { file, case_mode, predicates });
        i = i + 1;
    }
    assert(sections@.take(sections@.len() as int) =~= sections@);
    Ok(plans)
}

} // verus!
