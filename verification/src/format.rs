//! Display templates for named log formats, and the expansion of
//! user-defined `--<group>` / `--<layout>` shortcuts on the command line.

use vstd::prelude::*;
use crate::config_path::ConfigSource;
use crate::text::{
    chars_of, decimal_chars, decimal_of, eq_lit, join, join_strings, push_chars, push_str,
    slice_vec, string_of, string_views,
};
use crate::charset::{decode_line, decoded_text, TextEncoding};
use crate::pattern::{captured, opt_text, text_regex_capture_names, text_regex_captures, text_regex_error, TextRegex};
pub use vstd::hash_map::StringHashMap;

verus! {

// ---------------------------------------------------------------------------
// Display templates.
// ---------------------------------------------------------------------------

/// One piece of a compiled display template. `S` is the text type.
#[derive(Debug, Clone)]
pub enum DisplaySegmentOf<S> {
    /// Text copied to the output.
    Literal(S),
    /// A field reference, replaced by the field's value.
    Field(S),
}

pub type DisplaySegment = DisplaySegmentOf<String>;

pub type SegmentView = DisplaySegmentOf<Seq<char>>;

impl View for DisplaySegmentOf<String> {
    type V = SegmentView;

    open spec fn view(&self) -> SegmentView {
        match self {
            DisplaySegmentOf::Literal(s) => DisplaySegmentOf::Literal(s@),
            DisplaySegmentOf::Field(s) => DisplaySegmentOf::Field(s@),
        }
    }
}

pub open spec fn segments_view(v: Seq<DisplaySegment>) -> Seq<SegmentView> {
    Seq::new(v.len(), |i: int| v[i]@)
}

/// The segments so far, with the pending literal text appended if any.
pub open spec fn flush(acc: Seq<SegmentView>, buf: Seq<char>) -> Seq<SegmentView> {
    if buf.len() == 0 { acc } else { acc.push(DisplaySegmentOf::Literal(buf)) }
}

/// The value of a hexadecimal digit, either case.
pub open spec fn hex_value(c: char) -> Option<nat> {
    if '0' <= c && c <= '9' {
        Some((c as nat - '0' as nat) as nat)
    } else if 'a' <= c && c <= 'f' {
        Some((c as nat - 'a' as nat + 10) as nat)
    } else if 'A' <= c && c <= 'F' {
        Some((c as nat - 'A' as nat + 10) as nat)
    } else {
        None
    }
}

/// The byte that two characters spell in base 16, as std's
/// `u8::from_str_radix` reads them (an optional leading `+`, then digits).
pub open spec fn hex_escape_byte(h1: char, h2: char) -> Option<nat> {
    if h1 == '+' {
        hex_value(h2)
    } else {
        match (hex_value(h1), hex_value(h2)) {
            (Some(a), Some(b)) => Some(16 * a + b),
            _ => None,
        }
    }
}

/// The byte that `0`, `d1`, `d2` spell in base 8.
pub open spec fn octal_escape_byte(d1: char, d2: char) -> Option<nat> {
    if '0' <= d1 && d1 <= '7' && '0' <= d2 && d2 <= '7' {
        Some((8 * (d1 as nat - '0' as nat) + (d2 as nat - '0' as nat)) as nat)
    } else {
        None
    }
}

/// The template grammar, read left to right: `buf` is the literal text not
/// yet emitted and `acc` the segments emitted so far.
/// - `\<`, `\\`, `\n`, `\t`, `\r`, `\e` are escapes; `\xHH` and `\0NN` give
///   a byte by value; any other `\c` stays as both characters.
/// - `<name>` refers to a field, which must be one of `fields`.
/// - Anything else is literal.
pub open spec fn parse_template(
    s: Seq<char>,
    fields: Seq<Seq<char>>,
    buf: Seq<char>,
    acc: Seq<SegmentView>,
) -> Result<Seq<SegmentView>, Seq<char>>
    decreases s.len(),
{
    if s.len() == 0 {
        Ok(flush(acc, buf))
    } else if s[0] == '\\' {
        if s.len() == 1 {
            Err("template ends with a lone `\\`"@)
        } else {
            let e = s[1];
            if e == '<' || e == '\\' {
                parse_template(s.skip(2), fields, buf.push(e), acc)
            } else if e == 'n' {
                parse_template(s.skip(2), fields, buf.push('\n'), acc)
            } else if e == 't' {
                parse_template(s.skip(2), fields, buf.push('\t'), acc)
            } else if e == 'r' {
                parse_template(s.skip(2), fields, buf.push('\r'), acc)
            } else if e == 'e' {
                parse_template(s.skip(2), fields, buf.push('\x1b'), acc)
            } else if e == 'x' {
                if s.len() < 4 {
                    Err("incomplete `\\xHH` escape"@)
                } else {
                    match hex_escape_byte(s[2], s[3]) {
                        Some(b) => parse_template(s.skip(4), fields, buf.push(b as char), acc),
                        None => Err("invalid `\\x"@ + seq![s[2], s[3]] + "` escape"@),
                    }
                }
            } else if e == '0' {
                if s.len() < 4 {
                    Err("incomplete `\\NNN` escape"@)
                } else {
                    match octal_escape_byte(s[2], s[3]) {
                        Some(b) => parse_template(s.skip(4), fields, buf.push(b as char), acc),
                        None => Err("invalid `\\0"@ + seq![s[2], s[3]] + "` escape"@),
                    }
                }
            } else {
                parse_template(s.skip(2), fields, buf.push('\\').push(e), acc)
            }
        }
    } else if s[0] == '<' {
        let body = s.skip(1);
        match body.index_of_first('>') {
            None => Err("unterminated `<` (expected `<"@ + body + ">`)"@),
            Some(k) => {
                proof {
                    body.index_of_first_ensures('>');
                }
                let name = body.take(k);
                if name.len() == 0 {
                    Err("empty field reference `<>`"@)
                } else if !fields.contains(name) {
                    Err("unknown field `"@ + name + "` (available: "@ + join(fields, ", "@) + ")"@)
                } else {
                    parse_template(
                        body.skip(k + 1),
                        fields,
                        seq![],
                        flush(acc, buf).push(DisplaySegmentOf::Field(name)),
                    )
                }
            },
        }
    } else {
        parse_template(s.skip(1), fields, buf.push(s[0]), acc)
    }
}

/// What compiling `source` against the format's `fields` gives.
pub open spec fn compile_spec(source: Seq<char>, fields: Seq<Seq<char>>) -> Result<Seq<SegmentView>, Seq<char>> {
    if source.len() == 0 {
        Err("template is empty (would render every line as nothing)"@)
    } else {
        parse_template(source, fields, seq![], seq![])
    }
}

/// What a field segment contributes: the looked-up value, or nothing.
pub open spec fn piece(seg: SegmentView, val: Option<Seq<char>>) -> Seq<char> {
    match seg {
        DisplaySegmentOf::Literal(s) => s,
        DisplaySegmentOf::Field(_) => match val {
            Some(v) => v,
            None => seq![],
        },
    }
}

/// The rendered text, given one looked-up value per segment.
pub open spec fn render_spec(segs: Seq<SegmentView>, vals: Seq<Option<Seq<char>>>) -> Seq<char>
    decreases segs.len(),
{
    if segs.len() == 0 || vals.len() < segs.len() {
        seq![]
    } else {
        render_spec(segs.drop_last(), vals.take(segs.len() - 1)) + piece(segs.last(), vals[segs.len() - 1])
    }
}

pub open spec fn opt_string_view(o: Option<String>) -> Option<Seq<char>> {
    match o {
        Some(s) => Some(s@),
        None => None,
    }
}

/// `v` is a value that `lookup` can return when asked for field `name`.
pub open spec fn lookup_gives<F: Fn(&str) -> Option<String>>(lookup: F, name: Seq<char>, v: Option<Seq<char>>) -> bool {
    exists|a: &str, o: Option<String>| a@ == name && call_ensures(lookup, (a,), o) && opt_string_view(o) == v
}

/// A parsed display template (`display = '[<ts>] <level> <msg>'`).
#[derive(Debug, Clone)]
pub struct DisplayTemplate {
    segments: Vec<DisplaySegment>,
    source: String,
}

impl DisplayTemplate {
    /// The compiled segments.
    pub closed spec fn segs(&self) -> Seq<SegmentView> {
        segments_view(self.segments@)
    }

    /// The template text it was compiled from.
    pub closed spec fn source_text(&self) -> Seq<char> {
        self.source@
    }

    /// Compile `source` against the field names of a format.
    pub fn compile(source: &str, field_names: &[String]) -> (r: Result<Self, String>)
        ensures
            match r {
                Ok(t) => compile_spec(source@, string_views(field_names@)) == Ok::<Seq<SegmentView>, Seq<char>>(t.segs())
                    && t.source_text() == source@,
                Err(e) => compile_spec(source@, string_views(field_names@)) == Err::<Seq<SegmentView>, Seq<char>>(e@),
            },
    {
        let ghost fields = string_views(field_names@);
        let s = chars_of(source);
        if s.len() == 0 {
            return Err(String::from_str("template is empty (would render every line as nothing)"));
        }
        let mut segments: Vec<DisplaySegment> = Vec::new();
        let mut buf: Vec<char> = Vec::new();
        let mut i: usize = 0;
        assert(s@.skip(0) =~= s@);
        assert(segments_view(segments@) =~= seq![]);
        assert(buf@ =~= seq![]);
        while i < s.len()
            invariant
                s@ == source@,
                fields == string_views(field_names@),
                i <= s@.len(),
                compile_spec(source@, fields) == parse_template(s@.skip(i as int), fields, buf@, segments_view(segments@)),
            decreases s@.len() - i,
        {
            let ghost rest = s@.skip(i as int);
            let ghost acc = segments_view(segments@);
            let c = s[i];
            assert(rest[0] == c);
            if c == '\\' {
                if i + 1 >= s.len() {
                    return Err(String::from_str("template ends with a lone `\\`"));
                }
                let e = s[i + 1];
                assert(rest[1] == e);
                assert(rest.skip(2) =~= s@.skip(i + 2));
                if e == '<' || e == '\\' {
                    buf.push(e);
                    i = i + 2;
                } else if e == 'n' {
                    buf.push('\n');
                    i = i + 2;
                } else if e == 't' {
                    buf.push('\t');
                    i = i + 2;
                } else if e == 'r' {
                    buf.push('\r');
                    i = i + 2;
                } else if e == 'e' {
                    buf.push('\x1b');
                    i = i + 2;
                } else if e == 'x' || e == '0' {
                    if s.len() - i < 4 {
                        if e == 'x' {
                            return Err(String::from_str("incomplete `\\xHH` escape"));
                        } else {
                            return Err(String::from_str("incomplete `\\NNN` escape"));
                        }
                    }
                    let d1 = s[i + 2];
                    let d2 = s[i + 3];
                    assert(rest[2] == d1 && rest[3] == d2);
                    assert(rest.skip(4) =~= s@.skip(i + 4));
                    let v = if e == 'x' { hex_escape(d1, d2) } else { octal_escape(d1, d2) };
                    match v {
                        Some(b) => {
                            buf.push(b as char);
                            i = i + 4;
                        },
                        None => {
                            let mut msg: Vec<char> = Vec::new();
                            if e == 'x' {
                                push_str(&mut msg, "invalid `\\x");
                            } else {
                                push_str(&mut msg, "invalid `\\0");
                            }
                            msg.push(d1);
                            msg.push(d2);
                            push_str(&mut msg, "` escape");
                            proof {
                                if e == 'x' {
                                    assert(msg@ =~= "invalid `\\x"@ + seq![d1, d2] + "` escape"@);
                                } else {
                                    assert(msg@ =~= "invalid `\\0"@ + seq![d1, d2] + "` escape"@);
                                }
                            }
                            return Err(string_of(msg.as_slice()));
                        },
                    }
                } else {
                    buf.push('\\');
                    buf.push(e);
                    i = i + 2;
                }
            } else if c == '<' {
                let ghost body = rest.skip(1);
                let mut j: usize = i + 1;
                while j < s.len() && s[j] != '>'
                    invariant
                        i + 1 <= j <= s@.len(),
                        body == s@.skip(i + 1),
                        forall|m: int| 0 <= m < j - (i + 1) ==> body[m] != '>',
                    decreases s@.len() - j,
                {
                    j = j + 1;
                }
                let name = slice_vec(s.as_slice(), i + 1, j);
                assert(name@ =~= body.take(j - (i + 1)));
                proof {
                    body.index_of_first_ensures('>');
                }
                if j >= s.len() {
                    assert(!body.contains('>'));
                    assert(body =~= name@);
                    let mut msg: Vec<char> = Vec::new();
                    push_str(&mut msg, "unterminated `<` (expected `<");
                    push_chars(&mut msg, name.as_slice());
                    push_str(&mut msg, ">`)");
                    return Err(string_of(msg.as_slice()));
                }
                let ghost k = j - (i + 1);
                assert(body[k] == '>');
                assert(body.contains('>'));
                proof {
                    let k2 = body.index_of_first('>').unwrap();
                    if k2 < k {
                        assert(body[k2] != '>');
                    }
                    if k < k2 {
                        assert(body[k] != '>');
                    }
                    assert(k2 == k);
                }
                if name.len() == 0 {
                    return Err(String::from_str("empty field reference `<>`"));
                }
                let known = contains_name(field_names, &name);
                if !known {
                    let mut msg: Vec<char> = Vec::new();
                    push_str(&mut msg, "unknown field `");
                    push_chars(&mut msg, name.as_slice());
                    push_str(&mut msg, "` (available: ");
                    let joined = join_strings(field_names, ", ");
                    push_str(&mut msg, joined.as_str());
                    push_str(&mut msg, ")");
                    assert(msg@ =~= "unknown field `"@ + name@ + "` (available: "@ + join(fields, ", "@) + ")"@);
                    return Err(string_of(msg.as_slice()));
                }
                if buf.len() > 0 {
                    segments.push(DisplaySegmentOf::Literal(string_of(buf.as_slice())));
                }
                segments.push(DisplaySegmentOf::Field(string_of(name.as_slice())));
                assert(segments_view(segments@) =~= flush(acc, buf@).push(DisplaySegmentOf::Field(name@)));
                buf = Vec::new();
                assert(body.skip(k + 1) =~= s@.skip(j + 1));
                i = j + 1;
            } else {
                buf.push(c);
                assert(rest.skip(1) =~= s@.skip(i + 1));
                i = i + 1;
            }
        }
        let ghost acc = segments_view(segments@);
        if buf.len() > 0 {
            segments.push(DisplaySegmentOf::Literal(string_of(buf.as_slice())));
        }
        assert(segments_view(segments@) =~= flush(acc, buf@));
        Ok(DisplayTemplate { segments, source: string_of(s.as_slice()) })
    }

    /// Render the template, asking `lookup` for each field's value; a field
    /// it has no value for renders as nothing.
    pub fn render<F: Fn(&str) -> Option<String>>(&self, lookup: F) -> (r: String)
        requires
            forall|a: &str| call_requires(lookup, (a,)),
        ensures
            exists|vals: Seq<Option<Seq<char>>>| {
                &&& vals.len() == self.segs().len()
                &&& forall|k: int| 0 <= k < vals.len() ==> (#[trigger] self.segs()[k] matches DisplaySegmentOf::Field(name)
                    ==> lookup_gives(lookup, name, vals[k]))
                &&& r@ == render_spec(self.segs(), vals)
            },
    {
        let ghost segs = self.segs();
        let ghost mut vals: Seq<Option<Seq<char>>> = seq![];
        let mut out: Vec<char> = Vec::new();
        let mut i: usize = 0;
        while i < self.segments.len()
            invariant
                segs == self.segs(),
                segs == segments_view(self.segments@),
                i <= segs.len(),
                vals.len() == i,
                forall|a: &str| call_requires(lookup, (a,)),
                forall|k: int| 0 <= k < i ==> (#[trigger] segs[k] matches DisplaySegmentOf::Field(name)
                    ==> lookup_gives(lookup, name, vals[k])),
                out@ == render_spec(segs.take(i as int), vals),
            decreases segs.len() - i,
        {
            let ghost before = out@;
            let ghost v: Option<Seq<char>>;
            match &self.segments[i] {
                DisplaySegmentOf::Literal(t) => {
                    push_str(&mut out, t.as_str());
                    proof { v = None; }
                },
                DisplaySegmentOf::Field(name) => {
                    let a = name.as_str();
                    let o = lookup(a);
                    proof {
                        v = opt_string_view(o);
                        assert(lookup_gives(lookup, name@, v));
                    }
                    match o {
                        Some(val) => push_str(&mut out, val.as_str()),
                        None => {},
                    }
                },
            }
            proof {
                let t = segs.take(i + 1);
                let nv = vals.push(v);
                assert(t.drop_last() =~= segs.take(i as int));
                assert(nv.take(i as int) =~= vals);
                assert(t.last() == segs[i as int]);
                assert(out@ =~= before + piece(segs[i as int], v));
                vals = nv;
            }
            i = i + 1;
        }
        assert(segs.take(segs.len() as int) =~= segs);
        string_of(out.as_slice())
    }

    /// The template text.
    pub fn source(&self) -> (r: &str)
        ensures
            r@ == self.source_text(),
    {
        self.source.as_str()
    }

    /// A copy of the template: the same segments and source text.
    pub fn clone_template(&self) -> (r: Self)
        ensures
            r.segs() == self.segs(),
            r.source_text() == self.source_text(),
    {
        let mut segments: Vec<DisplaySegment> = Vec::new();
        let mut i: usize = 0;
        while i < self.segments.len()
            invariant
                i <= self.segments@.len(),
                segments@.len() == i,
                forall|k: int| 0 <= k < i ==> #[trigger] segments@[k]@ == self.segments@[k]@,
            decreases self.segments@.len() - i,
        {
            let seg = match &self.segments[i] {
                DisplaySegmentOf::Literal(s) => DisplaySegmentOf::Literal(s.clone()),
                DisplaySegmentOf::Field(s) => DisplaySegmentOf::Field(s.clone()),
            };
            segments.push(seg);
            i = i + 1;
        }
        let r = DisplayTemplate { segments, source: self.source.clone() };
        assert(segments_view(r.segments@) =~= segments_view(self.segments@));
        r
    }
}

/// Byte value of a `\xHH` escape.
fn hex_escape(h1: char, h2: char) -> (r: Option<u8>)
    ensures
        match hex_escape_byte(h1, h2) {
            Some(b) => r == Some(b as u8),
            None => r is None,
        },
{
    let b = hex_digit_value(h2);
    if h1 == '+' {
        return b;
    }
    match (hex_digit_value(h1), b) {
        (Some(x), Some(y)) => Some(16 * x + y),
        _ => None,
    }
}

fn hex_digit_value(c: char) -> (r: Option<u8>)
    ensures
        match hex_value(c) {
            Some(v) => r == Some(v as u8) && v < 16,
            None => r is None,
        },
{
    if '0' <= c && c <= '9' {
        Some(((c as u32) - ('0' as u32)) as u8)
    } else if 'a' <= c && c <= 'f' {
        Some(((c as u32) - ('a' as u32) + 10) as u8)
    } else if 'A' <= c && c <= 'F' {
        Some(((c as u32) - ('A' as u32) + 10) as u8)
    } else {
        None
    }
}

/// Byte value of a `\0NN` escape.
fn octal_escape(d1: char, d2: char) -> (r: Option<u8>)
    ensures
        match octal_escape_byte(d1, d2) {
            Some(b) => r == Some(b as u8) && b < 64,
            None => r is None,
        },
{
    if '0' <= d1 && d1 <= '7' && '0' <= d2 && d2 <= '7' {
        let a = ((d1 as u32) - ('0' as u32)) as u8;
        let b = ((d2 as u32) - ('0' as u32)) as u8;
        Some(8 * a + b)
    } else {
        None
    }
}

/// Whether `name` is one of `names`.
fn contains_name(names: &[String], name: &Vec<char>) -> (r: bool)
    ensures
        r == string_views(names@).contains(name@),
{
    let ghost v = string_views(names@);
    let mut i: usize = 0;
    while i < names.len()
        invariant
            i <= names@.len(),
            v == string_views(names@),
            forall|k: int| 0 <= k < i ==> v[k] != name@,
        decreases names@.len() - i,
    {
        if eq_lit(name.as_slice(), names[i].as_str()) {
            assert(v[i as int] == name@);
            return true;
        }
        i = i + 1;
    }
    false
}


// ---------------------------------------------------------------------------
// Log formats.
// ---------------------------------------------------------------------------

/// The names of the named groups, in order.
pub open spec fn named_only(names: Seq<Option<Seq<char>>>) -> Seq<Seq<char>>
    decreases names.len(),
{
    if names.len() == 0 {
        seq![]
    } else {
        match names.last() {
            Some(n) => named_only(names.drop_last()).push(n),
            None => named_only(names.drop_last()),
        }
    }
}

/// The field names of a format pattern: its named capture groups in order.
pub open spec fn format_fields(pattern: Seq<char>) -> Seq<Seq<char>> {
    named_only(text_regex_capture_names(pattern))
}

/// Why a format does not compile, if it does not: the first of its
/// pattern not compiling, declaring no named group, its display template
/// not compiling against the fields, or its record-start pattern not
/// compiling. Every message names the format.
pub open spec fn format_error(name: Seq<char>, pattern: Seq<char>, display: Option<Seq<char>>, record_start: Option<Seq<char>>) -> Option<Seq<char>> {
    let head = "format `"@ + name + "`: "@;
    if text_regex_error(pattern) is Some {
        Some(head + text_regex_error(pattern).unwrap())
    } else if format_fields(pattern).len() == 0 {
        Some(head + "regex must declare at least one named capture group"@)
    } else if display is Some && compile_spec(display.unwrap(), format_fields(pattern)) is Err {
        Some(head + "display: "@ + compile_spec(display.unwrap(), format_fields(pattern))->Err_0)
    } else if record_start is Some && text_regex_error(record_start.unwrap()) is Some {
        Some(head + "record_start: "@ + text_regex_error(record_start.unwrap()).unwrap())
    } else {
        None
    }
}

/// A named log format: a regex whose named capture groups are the fields
/// of one log line, with an optional default display template and an
/// optional record-start pattern.
pub struct LogFormat {
    pub name: String,
    pub regex: TextRegex,
    /// The named capture groups, in declaration order.
    pub field_names: Vec<String>,
    pub display: Option<DisplayTemplate>,
    pub record_start: Option<TextRegex>,
    /// The configuration layer it came from, and the one it overrode.
    pub source: ConfigSource,
    pub overrides: Option<ConfigSource>,
}

impl LogFormat {
    /// What a compiled format holds, given what it was compiled from.
    pub open spec fn compiled_from(&self, name: Seq<char>, pattern: Seq<char>, display: Option<Seq<char>>, record_start: Option<Seq<char>>) -> bool {
        &&& self.name@ == name
        &&& self.regex@ == pattern
        &&& string_views(self.field_names@) == format_fields(pattern)
        &&& match display {
            None => self.display is None,
            Some(d) => self.display matches Some(t)
                && compile_spec(d, format_fields(pattern)) == Ok::<Seq<SegmentView>, Seq<char>>(t.segs())
                && t.source_text() == d,
        }
        &&& match record_start {
            None => self.record_start is None,
            Some(rs) => self.record_start matches Some(re) && re@ == rs,
        }
        &&& self.source == ConfigSource::Builtin
        &&& self.overrides is None
    }

    /// Compile a format with only a pattern.
    pub fn compile(name: &str, pattern: &str) -> (r: Result<Self, String>)
        ensures
            r is Ok <==> format_error(name@, pattern@, None, None) is None,
            r matches Ok(f) ==> f.compiled_from(name@, pattern@, None, None),
            r matches Err(m) ==> format_error(name@, pattern@, None, None) == Some(m@),
    {
        Self::compile_full(name, pattern, None, None)
    }

    /// Compile a format with a pattern and a display template.
    pub fn compile_with_display(name: &str, pattern: &str, display: Option<&str>) -> (r: Result<Self, String>)
        ensures
            r is Ok <==> format_error(name@, pattern@, opt_str_view(display), None) is None,
            r matches Ok(f) ==> f.compiled_from(name@, pattern@, opt_str_view(display), None),
            r matches Err(m) ==> format_error(name@, pattern@, opt_str_view(display), None) == Some(m@),
    {
        Self::compile_full(name, pattern, display, None)
    }

    /// Compile a format: its pattern, which must declare at least one named
    /// group; its display template against those fields; its record-start
    /// pattern.
    pub fn compile_full(name: &str, pattern: &str, display: Option<&str>, record_start: Option<&str>) -> (r: Result<Self, String>)
        ensures
            r is Ok <==> format_error(name@, pattern@, opt_str_view(display), opt_str_view(record_start)) is None,
            r matches Ok(f) ==> f.compiled_from(name@, pattern@, opt_str_view(display), opt_str_view(record_start)),
            r matches Err(m) ==> format_error(name@, pattern@, opt_str_view(display), opt_str_view(record_start)) == Some(m@),
    {
        proof {
            reveal_strlit("");
        }
        let regex = match TextRegex::new(pattern) {
            Ok(re) => re,
            Err(e) => return Err(format_message(name, "", e.as_str())),
        };
        let all = regex.capture_names();
        let mut field_names: Vec<String> = Vec::new();
        let mut i: usize = 0;
        while i < all.len()
            invariant
                i <= all@.len(),
                all@.len() == text_regex_capture_names(pattern@).len(),
                forall|k: int| 0 <= k < all@.len() ==> opt_text(#[trigger] all@[k]) == text_regex_capture_names(pattern@)[k],
                string_views(field_names@) == named_only(text_regex_capture_names(pattern@).take(i as int)),
            decreases all@.len() - i,
        {
            let ghost ns = text_regex_capture_names(pattern@);
            assert(ns.take(i + 1).drop_last() =~= ns.take(i as int));
            match &all[i] {
                Some(n) => {
                    field_names.push(n.clone());
                    assert(string_views(field_names@) =~= named_only(ns.take(i as int)).push(n@));
                },
                None => {},
            }
            i = i + 1;
        }
        assert(text_regex_capture_names(pattern@).take(all@.len() as int) =~= text_regex_capture_names(pattern@));
        if field_names.len() == 0 {
            return Err(format_message(name, "", "regex must declare at least one named capture group"));
        }
        let display = match display {
            None => None,
            Some(d) => match DisplayTemplate::compile(d, field_names.as_slice()) {
                Ok(t) => Some(t),
                Err(e) => return Err(format_message(name, "display: ", e.as_str())),
            },
        };
        let record_start = match record_start {
            None => None,
            Some(rs) => match TextRegex::new(rs) {
                Ok(re) => Some(re),
                Err(e) => return Err(format_message(name, "record_start: ", e.as_str())),
            },
        };
        Ok(LogFormat {
            name: name.to_owned(),
            regex,
            field_names,
            display,
            record_start,
            source: ConfigSource::Builtin,
            overrides: None,
        })
    }
}

/// The text of an optional `&str`.
pub open spec fn opt_str_view(o: Option<&str>) -> Option<Seq<char>> {
    match o {
        Some(s) => Some(s@),
        None => None,
    }
}

/// "format `<name>`: <part><detail>".
fn format_message(name: &str, part: &str, detail: &str) -> (m: String)
    ensures
        m@ == "format `"@ + name@ + "`: "@ + part@ + detail@,
{
    let mut out: Vec<char> = Vec::new();
    push_str(&mut out, "format `");
    push_str(&mut out, name);
    push_str(&mut out, "`: ");
    push_str(&mut out, part);
    push_str(&mut out, detail);
    string_of(out.as_slice())
}

/// The built-in formats, by name and pattern.
pub open spec fn builtin_table() -> Seq<(Seq<char>, Seq<char>)> {
    seq![
        ("apache-common"@, r#"^(?P<ip>\S+) \S+ (?P<user>\S+) \[(?P<time>[^\]]+)\] "(?P<method>\S+) (?P<url>\S+) (?P<protocol>[^"]+)" (?P<status>\d+) (?P<size>\S+)$"#@),
        ("apache-combined"@, r#"^(?P<ip>\S+) \S+ (?P<user>\S+) \[(?P<time>[^\]]+)\] "(?P<method>\S+) (?P<url>\S+) (?P<protocol>[^"]+)" (?P<status>\d+) (?P<size>\S+) "(?P<referer>[^"]*)" "(?P<agent>[^"]*)"$"#@),
        ("nginx-combined"@, r#"^(?P<ip>\S+) - (?P<user>\S+) \[(?P<time>[^\]]+)\] "(?P<method>\S+) (?P<url>\S+) (?P<protocol>[^"]+)" (?P<status>\d+) (?P<size>\S+) "(?P<referer>[^"]*)" "(?P<agent>[^"]*)"$"#@),
    ]
}

/// The built-in formats: (name, pattern).
pub fn builtin_formats() -> (v: Vec<(&'static str, &'static str)>)
    ensures
        v@.len() == builtin_table().len(),
        forall|i: int| 0 <= i < v@.len() ==> (#[trigger] v@[i]).0@ == builtin_table()[i].0 && v@[i].1@ == builtin_table()[i].1,
{
    vec![
        (
            "apache-common",
            r#"^(?P<ip>\S+) \S+ (?P<user>\S+) \[(?P<time>[^\]]+)\] "(?P<method>\S+) (?P<url>\S+) (?P<protocol>[^"]+)" (?P<status>\d+) (?P<size>\S+)$"#,
        ),
        (
            "apache-combined",
            r#"^(?P<ip>\S+) \S+ (?P<user>\S+) \[(?P<time>[^\]]+)\] "(?P<method>\S+) (?P<url>\S+) (?P<protocol>[^"]+)" (?P<status>\d+) (?P<size>\S+) "(?P<referer>[^"]*)" "(?P<agent>[^"]*)"$"#,
        ),
        (
            "nginx-combined",
            r#"^(?P<ip>\S+) - (?P<user>\S+) \[(?P<time>[^\]]+)\] "(?P<method>\S+) (?P<url>\S+) (?P<protocol>[^"]+)" (?P<status>\d+) (?P<size>\S+) "(?P<referer>[^"]*)" "(?P<agent>[^"]*)"$"#,
        ),
    ]
}

// ---------------------------------------------------------------------------
// Rendering lines through a template.
// ---------------------------------------------------------------------------

/// The value each segment's field has in a capture map (literals get none).
pub open spec fn field_values(segs: Seq<SegmentView>, m: Map<Seq<char>, Seq<char>>) -> Seq<Option<Seq<char>>> {
    Seq::new(segs.len(), |k: int| match segs[k] {
        DisplaySegmentOf::Field(n) => captured(m, n),
        DisplaySegmentOf::Literal(_) => None,
    })
}

/// The field names of the segments, in order.
pub open spec fn field_names_of(segs: Seq<SegmentView>) -> Seq<Seq<char>>
    decreases segs.len(),
{
    if segs.len() == 0 {
        seq![]
    } else {
        match segs.last() {
            DisplaySegmentOf::Field(n) => field_names_of(segs.drop_last()).push(n),
            DisplaySegmentOf::Literal(_) => field_names_of(segs.drop_last()),
        }
    }
}

/// A display template paired with the format regex that parses each line
/// for it.
pub struct DisplayRenderer {
    template: DisplayTemplate,
    regex: TextRegex,
}

impl DisplayRenderer {
    /// The template.
    pub closed spec fn template_spec(&self) -> DisplayTemplate {
        self.template
    }

    /// The format pattern.
    pub closed spec fn pattern(&self) -> Seq<char> {
        self.regex@
    }

    pub fn new(template: DisplayTemplate, regex: TextRegex) -> (r: Self)
        ensures
            r.template_spec() == template,
            r.pattern() == regex@,
    {
        DisplayRenderer { template, regex }
    }

    pub fn template(&self) -> (t: &DisplayTemplate)
        ensures
            *t == self.template_spec(),
    {
        &self.template
    }

    /// Render `line` (raw bytes, decoded by `enc`) through the template; a
    /// field the regex did not capture renders as nothing. `None` when the
    /// line does not parse against the format regex.
    pub fn render_line(&self, line: &[u8], enc: TextEncoding) -> (r: Option<String>)
        ensures
            match text_regex_captures(self.pattern(), decoded_text(enc@, line@)) {
                None => r is None,
                Some(m) => r matches Some(out) && out@ == render_spec(self.template_spec().segs(),
                    field_values(self.template_spec().segs(), m)),
            },
    {
        let decoded = decode_line(line, enc);
        let text: &str = match &decoded {
            std::borrow::Cow::Borrowed(b) => b,
            std::borrow::Cow::Owned(o) => o.as_str(),
        };
        let names = self.template.field_names();
        let caps = match self.regex.captures(text, names.as_slice()) {
            None => return None,
            Some(c) => c,
        };
        let gm: Ghost<Map<Seq<char>, Seq<char>>> = Ghost(text_regex_captures(self.regex@, text@).unwrap());
        let gnv: Ghost<Seq<Seq<char>>> = Ghost(string_views(names@));
        let lookup = |a: &str| -> (o: Option<String>)
            ensures
                gnv@.contains(a@) ==> opt_text(o) == captured(gm@, a@),
        {
            let mut i: usize = 0;
            while i < names.len()
                invariant
                    i <= names@.len(),
                    gnv@ == string_views(names@),
                    caps@.len() == names@.len(),
                    forall|j: int| 0 <= j < names@.len() ==> opt_text(#[trigger] caps@[j]) == captured(gm@, names@[j]@),
                    forall|k: int| 0 <= k < i ==> gnv@[k] != a@,
                decreases names@.len() - i,
            {
                let c = chars_of(names[i].as_str());
                if eq_lit(c.as_slice(), a) {
                    assert(opt_text(caps@[i as int]) == captured(gm@, names@[i as int]@));
                    return match &caps[i] {
                        Some(v) => Some(v.clone()),
                        None => None,
                    };
                }
                i = i + 1;
            }
            None
        };
        let out = self.template.render(lookup);
        proof {
            let m = gm@;
            let segs = self.template.segs();
            let want = field_values(segs, m);
            let vals = choose|vals: Seq<Option<Seq<char>>>| {
                &&& vals.len() == segs.len()
                &&& forall|k: int| 0 <= k < vals.len() ==> (#[trigger] segs[k] matches DisplaySegmentOf::Field(name)
                    ==> lookup_gives(lookup, name, vals[k]))
                &&& out@ == render_spec(segs, vals)
            };
            assert forall|k: int| 0 <= k < segs.len() && (#[trigger] segs[k] is Field) implies vals[k] == want[k] by {
                let name = segs[k]->Field_0;
                lemma_field_name_listed(segs, k);
                assert(lookup_gives(lookup, name, vals[k]));
                let (a, o) = choose|a: &str, o: Option<String>| a@ == name && call_ensures(lookup, (a,), o) && opt_string_view(o) == vals[k];
                assert(opt_text(o) == opt_string_view(o));
            }
            lemma_render_spec_fields(segs, vals, want);
        }
        Some(out)
    }
}

impl DisplayTemplate {
    /// The field names the template refers to, in order.
    pub fn field_names(&self) -> (v: Vec<String>)
        ensures
            string_views(v@) == field_names_of(self.segs()),
    {
        let ghost segs = self.segs();
        let mut v: Vec<String> = Vec::new();
        let mut i: usize = 0;
        while i < self.segments.len()
            invariant
                segs == self.segs(),
                segs == segments_view(self.segments@),
                i <= segs.len(),
                string_views(v@) == field_names_of(segs.take(i as int)),
            decreases segs.len() - i,
        {
            proof {
                assert(segs.take(i + 1).drop_last() =~= segs.take(i as int));
            }
            match &self.segments[i] {
                DisplaySegmentOf::Field(n) => {
                    v.push(n.clone());
                    assert(string_views(v@) =~= field_names_of(segs.take(i as int)).push(n@));
                },
                DisplaySegmentOf::Literal(_) => {},
            }
            i = i + 1;
        }
        assert(segs.take(segs.len() as int) =~= segs);
        v
    }
}

/// A field segment's name is among the template's field names.
proof fn lemma_field_name_listed(segs: Seq<SegmentView>, k: int)
    requires
        0 <= k < segs.len(),
        segs[k] is Field,
    ensures
        field_names_of(segs).contains(segs[k]->Field_0),
    decreases segs.len(),
{
    let n = segs[k]->Field_0;
    if k == segs.len() - 1 {
        assert(field_names_of(segs) == field_names_of(segs.drop_last()).push(n));
        assert(field_names_of(segs).last() == n);
    } else {
        lemma_field_name_listed(segs.drop_last(), k);
        let w = field_names_of(segs.drop_last());
        let j = choose|j: int| 0 <= j < w.len() && w[j] == n;
        match segs.last() {
            DisplaySegmentOf::Field(x) => {
                assert(field_names_of(segs)[j] == n);
            },
            DisplaySegmentOf::Literal(_) => {},
        }
    }
}

/// Only the values at field segments matter to the rendering.
proof fn lemma_render_spec_fields(segs: Seq<SegmentView>, v1: Seq<Option<Seq<char>>>, v2: Seq<Option<Seq<char>>>)
    requires
        v1.len() == segs.len(),
        v2.len() == segs.len(),
        forall|k: int| 0 <= k < segs.len() && (#[trigger] segs[k] is Field) ==> v1[k] == v2[k],
    ensures
        render_spec(segs, v1) == render_spec(segs, v2),
    decreases segs.len(),
{
    if segs.len() > 0 {
        let n = segs.len() - 1;
        lemma_render_spec_fields(segs.drop_last(), v1.take(n), v2.take(n));
        assert(segs[n] is Field ==> v1[n] == v2[n]);
    }
}

// ---------------------------------------------------------------------------
// Groups and layouts: named command-line shortcuts.
// ---------------------------------------------------------------------------

/// A user-defined command-line shortcut. `tess --<name>` expands to the
/// group's flags, and later bare positionals become `--filter` arguments.
#[derive(Debug, Clone)]
pub struct Group {
    pub name: String,
    pub format: Option<String>,
    pub file: Option<String>,
    pub follow: bool,
    pub tail: Option<usize>,
    pub head: Option<usize>,
    pub dim: bool,
    pub line_numbers: bool,
    pub chop: bool,
    pub tab_width: Option<u8>,
    /// Default `--display` template; a later command-line `--display` wins.
    pub display: Option<String>,
    pub filter: Vec<String>,
    pub grep: Vec<String>,
    /// Conditions of the default (unnamed) OR-group.
    pub or_filter: Vec<String>,
    pub or_grep: Vec<String>,
    /// Named OR-groups: (name, filter specs, grep patterns), by name.
    pub or_named: Vec<(String, Vec<String>, Vec<String>)>,
    /// The configuration layer the group came from, and the one it replaced.
    pub source: ConfigSource,
    pub overrides: Option<ConfigSource>,
}

impl Default for Group {
    fn default() -> (g: Self)
        ensures
            g.name@ == Seq::<char>::empty(),
            g.format is None,
            g.file is None,
            !g.follow,
            g.tail is None,
            g.head is None,
            !g.dim,
            !g.line_numbers,
            !g.chop,
            g.tab_width is None,
            g.display is None,
            g.filter@.len() == 0,
            g.grep@.len() == 0,
            g.or_filter@.len() == 0,
            g.or_grep@.len() == 0,
            g.or_named@.len() == 0,
            g.source == ConfigSource::Builtin,
            g.overrides is None,
    {
        Group {
            name: String::new(),
            format: None,
            file: None,
            follow: false,
            tail: None,
            head: None,
            dim: false,
            line_numbers: false,
            chop: false,
            tab_width: None,
            display: None,
            filter: Vec::new(),
            grep: Vec::new(),
            or_filter: Vec::new(),
            or_grep: Vec::new(),
            or_named: Vec::new(),
            source: ConfigSource::Builtin,
            overrides: None,
        }
    }
}

/// A saved split arrangement: an orientation and one view per pane.
#[derive(Debug, Clone)]
pub struct Layout {
    pub name: String,
    pub horizontal: bool,
    pub panes: Vec<Group>,
}

/// `[flag, v]` when there is a value.
pub open spec fn opt_pair(flag: Seq<char>, v: Option<String>) -> Seq<Seq<char>> {
    match v {
        Some(x) => seq![flag, x@],
        None => seq![],
    }
}

/// `[flag]` when set.
pub open spec fn opt_flag(flag: Seq<char>, on: bool) -> Seq<Seq<char>> {
    if on { seq![flag] } else { seq![] }
}

/// `[flag, decimal]` when there is a number.
pub open spec fn opt_number(flag: Seq<char>, v: Option<nat>) -> Seq<Seq<char>> {
    match v {
        Some(n) => seq![flag, decimal_of(n)],
        None => seq![],
    }
}

pub open spec fn opt_usize(v: Option<usize>) -> Option<nat> {
    match v {
        Some(n) => Some(n as nat),
        None => None,
    }
}

pub open spec fn opt_u8(v: Option<u8>) -> Option<nat> {
    match v {
        Some(n) => Some(n as nat),
        None => None,
    }
}

/// `flag, item` for each item, in order.
pub open spec fn flag_pairs(flag: Seq<char>, items: Seq<Seq<char>>) -> Seq<Seq<char>>
    decreases items.len(),
{
    if items.len() == 0 {
        seq![]
    } else {
        flag_pairs(flag, items.drop_last()) + seq![flag, items.last()]
    }
}

/// The named OR-groups: `--or-group NAME` followed by its conditions.
pub open spec fn named_tokens(named: Seq<(String, Vec<String>, Vec<String>)>) -> Seq<Seq<char>>
    decreases named.len(),
{
    if named.len() == 0 {
        seq![]
    } else {
        let (n, f, g) = named.last();
        named_tokens(named.drop_last()) + seq!["--or-group"@, n@]
            + flag_pairs("--or-filter"@, string_views(f@)) + flag_pairs("--or-grep"@, string_views(g@))
    }
}

/// A group's view settings as flags.
pub open spec fn setting_tokens(g: Group) -> Seq<Seq<char>> {
    opt_pair("--format"@, g.format)
        + opt_pair("--display"@, g.display)
        + opt_flag("--follow"@, g.follow)
        + opt_number("--tail"@, opt_usize(g.tail))
        + opt_number("--head"@, opt_usize(g.head))
        + opt_flag("--dim"@, g.dim)
        + opt_flag("-N"@, g.line_numbers)
        + opt_flag("-S"@, g.chop)
        + opt_number("--tab-width"@, opt_u8(g.tab_width))
}

/// A group's conditions as flags: its filters and greps, then the default
/// OR-group's, then the named OR-groups'.
pub open spec fn condition_tokens(g: Group) -> Seq<Seq<char>> {
    flag_pairs("--filter"@, string_views(g.filter@))
        + flag_pairs("--grep"@, string_views(g.grep@))
        + flag_pairs("--or-filter"@, string_views(g.or_filter@))
        + flag_pairs("--or-grep"@, string_views(g.or_grep@))
        + named_tokens(g.or_named@)
}

/// The command-line tokens a group stands for: its settings, its
/// conditions, then its file.
pub open spec fn group_tokens(g: Group) -> Seq<Seq<char>> {
    setting_tokens(g) + condition_tokens(g) + (match g.file {
        Some(f) => seq![f@],
        None => seq![],
    })
}

pub proof fn lemma_views_push(v: Seq<String>, x: String)
    ensures
        string_views(v.push(x)) == string_views(v).push(x@),
{
    assert(string_views(v.push(x)) =~= string_views(v).push(x@));
}

fn push_pair(out: &mut Vec<String>, flag: &str, v: &String)
    ensures
        string_views(final(out)@) == string_views(old(out)@) + seq![flag@, v@],
{
    let ghost o = out@;
    let f = String::from_str(flag);
    out.push(f);
    let ghost o1 = out@;
    let c = v.clone();
    out.push(c);
    proof {
        lemma_views_push(o, f);
        lemma_views_push(o1, c);
    }
    assert(string_views(out@) =~= string_views(o) + seq![flag@, v@]);
}

fn push_flag(out: &mut Vec<String>, flag: &str)
    ensures
        string_views(final(out)@) == string_views(old(out)@) + seq![flag@],
{
    let ghost o = out@;
    let f = String::from_str(flag);
    out.push(f);
    proof {
        lemma_views_push(o, f);
    }
    assert(string_views(out@) =~= string_views(o) + seq![flag@]);
}

fn push_number(out: &mut Vec<String>, flag: &str, n: u64)
    ensures
        string_views(final(out)@) == string_views(old(out)@) + seq![flag@, decimal_of(n as nat)],
{
    let ghost o = out@;
    let f = String::from_str(flag);
    out.push(f);
    let ghost o1 = out@;
    let d = decimal_chars(n);
    let ds = string_of(d.as_slice());
    out.push(ds);
    proof {
        lemma_views_push(o, f);
        lemma_views_push(o1, ds);
    }
    assert(string_views(out@) =~= string_views(o) + seq![flag@, decimal_of(n as nat)]);
}

fn push_flag_pairs(out: &mut Vec<String>, flag: &str, items: &Vec<String>)
    ensures
        string_views(final(out)@) == string_views(old(out)@) + flag_pairs(flag@, string_views(items@)),
{
    let ghost o = string_views(out@);
    let ghost v = string_views(items@);
    let mut i: usize = 0;
    while i < items.len()
        invariant
            i <= items@.len(),
            v == string_views(items@),
            string_views(out@) == o + flag_pairs(flag@, v.take(i as int)),
        decreases items@.len() - i,
    {
        push_pair(out, flag, &items[i]);
        assert(v.take(i + 1).drop_last() =~= v.take(i as int));
        i = i + 1;
    }
    assert(v.take(items@.len() as int) =~= v);
}

fn push_opt_pair(out: &mut Vec<String>, flag: &str, v: &Option<String>)
    ensures
        string_views(final(out)@) == string_views(old(out)@) + opt_pair(flag@, *v),
{
    if let Some(x) = v {
        push_pair(out, flag, x);
    } else {
        assert(string_views(out@) + seq![] =~= string_views(out@));
    }
}

fn push_opt_flag(out: &mut Vec<String>, flag: &str, on: bool)
    ensures
        string_views(final(out)@) == string_views(old(out)@) + opt_flag(flag@, on),
{
    if on {
        push_flag(out, flag);
    } else {
        assert(string_views(out@) + seq![] =~= string_views(out@));
    }
}

pub open spec fn opt_u64(v: Option<u64>) -> Option<nat> {
    match v {
        Some(n) => Some(n as nat),
        None => None,
    }
}

fn push_opt_number(out: &mut Vec<String>, flag: &str, v: Option<u64>)
    ensures
        string_views(final(out)@) == string_views(old(out)@) + opt_number(flag@, opt_u64(v)),
{
    if let Some(x) = v {
        push_number(out, flag, x);
    } else {
        assert(string_views(out@) + seq![] =~= string_views(out@));
    }
}

fn expand_settings(g: &Group, out: &mut Vec<String>)
    ensures
        string_views(final(out)@) == string_views(old(out)@) + setting_tokens(*g),
{
    let ghost o = string_views(out@);
    let ghost p1 = opt_pair("--format"@, g.format);
    let ghost p2 = opt_pair("--display"@, g.display);
    let ghost p3 = opt_flag("--follow"@, g.follow);
    let ghost p4 = opt_number("--tail"@, opt_usize(g.tail));
    let ghost p5 = opt_number("--head"@, opt_usize(g.head));
    let ghost p6 = opt_flag("--dim"@, g.dim);
    let ghost p7 = opt_flag("-N"@, g.line_numbers);
    let ghost p8 = opt_flag("-S"@, g.chop);
    let ghost p9 = opt_number("--tab-width"@, opt_u8(g.tab_width));
    push_opt_pair(out, "--format", &g.format);
    push_opt_pair(out, "--display", &g.display);
    push_opt_flag(out, "--follow", g.follow);
    let tail = match g.tail { Some(t) => Some(t as u64), None => None };
    assert(opt_u64(tail) == opt_usize(g.tail));
    push_opt_number(out, "--tail", tail);
    let head = match g.head { Some(t) => Some(t as u64), None => None };
    assert(opt_u64(head) == opt_usize(g.head));
    push_opt_number(out, "--head", head);
    push_opt_flag(out, "--dim", g.dim);
    push_opt_flag(out, "-N", g.line_numbers);
    push_opt_flag(out, "-S", g.chop);
    let tw = match g.tab_width { Some(t) => Some(t as u64), None => None };
    assert(opt_u64(tw) == opt_u8(g.tab_width));
    push_opt_number(out, "--tab-width", tw);
    proof {
        vstd::seq_lib::lemma_concat_associative(o, p1, p2);
        vstd::seq_lib::lemma_concat_associative(o, p1 + p2, p3);
        vstd::seq_lib::lemma_concat_associative(o, p1 + p2 + p3, p4);
        vstd::seq_lib::lemma_concat_associative(o, p1 + p2 + p3 + p4, p5);
        vstd::seq_lib::lemma_concat_associative(o, p1 + p2 + p3 + p4 + p5, p6);
        vstd::seq_lib::lemma_concat_associative(o, p1 + p2 + p3 + p4 + p5 + p6, p7);
        vstd::seq_lib::lemma_concat_associative(o, p1 + p2 + p3 + p4 + p5 + p6 + p7, p8);
        vstd::seq_lib::lemma_concat_associative(o, p1 + p2 + p3 + p4 + p5 + p6 + p7 + p8, p9);
    }
}

fn expand_conditions(g: &Group, out: &mut Vec<String>)
    ensures
        string_views(final(out)@) == string_views(old(out)@) + condition_tokens(*g),
{
    let ghost o = string_views(out@);
    push_flag_pairs(out, "--filter", &g.filter);
    push_flag_pairs(out, "--grep", &g.grep);
    push_flag_pairs(out, "--or-filter", &g.or_filter);
    push_flag_pairs(out, "--or-grep", &g.or_grep);
    let ghost s10 = string_views(out@);
    let ghost named = g.or_named@;
    let mut i: usize = 0;
    assert(named.take(0) =~= seq![]);
    assert(s10 + named_tokens(named.take(0)) =~= s10);
    while i < g.or_named.len()
        invariant
            i <= named.len(),
            named == g.or_named@,
            string_views(out@) == s10 + named_tokens(named.take(i as int)),
        decreases named.len() - i,
    {
        let ghost b = string_views(out@);
        let (name, filters, greps) = &g.or_named[i];
        push_pair(out, "--or-group", name);
        push_flag_pairs(out, "--or-filter", filters);
        push_flag_pairs(out, "--or-grep", greps);
        proof {
            let t = named.take(i + 1);
            assert(t.drop_last() =~= named.take(i as int));
            assert(t.last() == named[i as int]);
            assert(string_views(out@) =~= s10 + named_tokens(t));
        }
        i = i + 1;
    }
    assert(named.take(named.len() as int) =~= named);
    assert(string_views(out@) =~= o + condition_tokens(*g));
}

/// Emit a group's view flags followed by its `file` positional into `out`.
fn expand_group(g: &Group, out: &mut Vec<String>)
    ensures
        string_views(final(out)@) == string_views(old(out)@) + group_tokens(*g),
{
    let ghost o = string_views(out@);
    expand_settings(g, out);
    expand_conditions(g, out);
    let ghost s = string_views(out@);
    if let Some(f) = &g.file {
        out.push(f.clone());
        proof {
            lemma_views_push(old(out)@, *f);
        }
        assert(string_views(out@) =~= s + seq![f@]);
    }
    assert(string_views(out@) =~= o + group_tokens(*g));
}

/// Emit a group's view flags followed by its `file` positional into `out`
/// (shared with the runtime `:layout` command).
pub fn expand_group_tokens(g: &Group, out: &mut Vec<String>)
    ensures
        string_views(final(out)@) == string_views(old(out)@) + group_tokens(*g),
{
    expand_group(g, out)
}

/// Long flags that take their value as the next token.
pub open spec fn value_taking_flag(a: Seq<char>) -> bool {
    a == "--content-type"@ || a == "--display"@ || a == "--filter"@ || a == "--format"@
        || a == "--grep"@ || a == "--head"@ || a == "--header"@ || a == "--hex-group"@
        || a == "--image-width"@ || a == "--or-filter"@ || a == "--or-grep"@
        || a == "--or-group"@ || a == "--output"@ || a == "--preprocess"@ || a == "--prompt"@
        || a == "--prompt-style"@ || a == "--record-start"@ || a == "--rscroll"@
        || a == "--status-style"@ || a == "--tab-width"@ || a == "--tag"@ || a == "--tag-file"@
        || a == "--tail"@ || a == "--truecolor"@ || a == "--window"@
        || a == "-o"@ || a == "-z"@ || a == "-t"@ || a == "-T"@
}

fn is_value_taking_flag(a: &str) -> (r: bool)
    ensures
        r == value_taking_flag(a@),
{
    let c = chars_of(a);
    let v = c.as_slice();
    eq_lit(v, "--content-type") || eq_lit(v, "--display") || eq_lit(v, "--filter")
        || eq_lit(v, "--format") || eq_lit(v, "--grep") || eq_lit(v, "--head")
        || eq_lit(v, "--header") || eq_lit(v, "--hex-group") || eq_lit(v, "--image-width")
        || eq_lit(v, "--or-filter") || eq_lit(v, "--or-grep") || eq_lit(v, "--or-group")
        || eq_lit(v, "--output") || eq_lit(v, "--preprocess") || eq_lit(v, "--prompt")
        || eq_lit(v, "--prompt-style") || eq_lit(v, "--record-start") || eq_lit(v, "--rscroll")
        || eq_lit(v, "--status-style") || eq_lit(v, "--tab-width") || eq_lit(v, "--tag")
        || eq_lit(v, "--tag-file") || eq_lit(v, "--tail") || eq_lit(v, "--truecolor")
        || eq_lit(v, "--window") || eq_lit(v, "-o") || eq_lit(v, "-z") || eq_lit(v, "-t")
        || eq_lit(v, "-T")
}

/// `a` is `--NAME` for a NAME without `=`: the name, else nothing.
pub open spec fn long_flag_name(a: Seq<char>) -> Option<Seq<char>> {
    if a.len() >= 2 && a[0] == '-' && a[1] == '-' && !a.skip(2).contains('=') {
        Some(a.skip(2))
    } else {
        None
    }
}

/// The rest of the command line after the program name: `filter_mode`
/// says a group has been seen, `pass_next` that the previous token was a
/// flag whose value this token is.
pub open spec fn expand_rest(
    args: Seq<Seq<char>>,
    groups: Map<Seq<char>, Group>,
    filter_mode: bool,
    pass_next: bool,
) -> Seq<Seq<char>>
    decreases args.len(),
{
    if args.len() == 0 {
        seq![]
    } else {
        let a = args[0];
        let rest = args.skip(1);
        if pass_next {
            seq![a] + expand_rest(rest, groups, filter_mode, false)
        } else if long_flag_name(a) is Some && groups.contains_key(long_flag_name(a).unwrap()) {
            group_tokens(groups[long_flag_name(a).unwrap()]) + expand_rest(rest, groups, true, false)
        } else if value_taking_flag(a) {
            seq![a] + expand_rest(rest, groups, filter_mode, true)
        } else if filter_mode && !(a.len() > 0 && a[0] == '-') {
            seq!["--filter"@, a] + expand_rest(rest, groups, filter_mode, false)
        } else {
            seq![a] + expand_rest(rest, groups, filter_mode, false)
        }
    }
}

/// The command line with group shortcuts expanded (the program name stays).
pub open spec fn expand_argv_spec(argv: Seq<Seq<char>>, groups: Map<Seq<char>, Group>) -> Seq<Seq<char>> {
    if argv.len() == 0 {
        argv
    } else {
        seq![argv[0]] + expand_rest(argv.skip(1), groups, false, false)
    }
}

/// The `NAME` of a `--NAME` token whose name has no `=`.
fn flag_name(a: &str) -> (r: Option<String>)
    ensures
        opt_string_view(r) == long_flag_name(a@),
{
    let c = chars_of(a);
    if c.len() >= 2 && c[0] == '-' && c[1] == '-' {
        let name = slice_vec(c.as_slice(), 2, c.len());
        assert(name@ =~= a@.skip(2));
        let mut k: usize = 0;
        while k < name.len()
            invariant
                k <= name@.len(),
                name@ == a@.skip(2),
                forall|m: int| 0 <= m < k ==> name@[m] != '=',
            decreases name@.len() - k,
        {
            if name[k] == '=' {
                assert(name@[k as int] == '=');
                assert(a@.skip(2)[k as int] == '=');
                assert(name@.contains('='));
                return None;
            }
            k = k + 1;
        }
        Some(string_of(name.as_slice()))
    } else {
        None
    }
}

/// Pre-process the command line before argument parsing: each `--<group>`
/// token is replaced by the group's flags, and bare positionals after a
/// group become `--filter` arguments. The value of a value-taking flag is
/// passed through untouched.
pub fn expand_argv(argv: Vec<String>, groups: &StringHashMap<Group>) -> (out: Vec<String>)
    ensures
        string_views(out@) == expand_argv_spec(string_views(argv@), groups@),
{
    let ghost av = string_views(argv@);
    if argv.len() == 0 {
        return argv;
    }
    let mut out: Vec<String> = Vec::new();
    out.push(argv[0].clone());
    let mut filter_mode = false;
    let mut pass_next = false;
    let mut i: usize = 1;
    assert(string_views(out@) =~= seq![av[0]]);
    while i < argv.len()
        invariant
            1 <= i <= argv@.len(),
            av == string_views(argv@),
            expand_argv_spec(av, groups@)
                == string_views(out@) + expand_rest(av.skip(i as int), groups@, filter_mode, pass_next),
        decreases argv@.len() - i,
    {
        let ghost before = string_views(out@);
        let ghost rest = av.skip(i as int);
        assert(rest[0] == argv@[i as int]@);
        assert(rest.skip(1) =~= av.skip(i + 1));
        let arg = &argv[i];
        if pass_next {
            pass_next = false;
            out.push(arg.clone());
            assert(string_views(out@) =~= before + seq![rest[0]]);
        } else {
            let name = flag_name(arg.as_str());
            let mut handled = false;
            if let Some(n) = &name {
                if let Some(g) = groups.get(n.as_str()) {
                    expand_group(g, &mut out);
                    filter_mode = true;
                    handled = true;
                }
            }
            if !handled {
                if is_value_taking_flag(arg.as_str()) {
                    out.push(arg.clone());
                    pass_next = true;
                    assert(string_views(out@) =~= before + seq![rest[0]]);
                } else {
                    let first_dash = starts_with_dash(arg.as_str());
                    if filter_mode && !first_dash {
                        out.push(String::from_str("--filter"));
                        out.push(arg.clone());
                        assert(string_views(out@) =~= before + seq!["--filter"@, rest[0]]);
                    } else {
                        out.push(arg.clone());
                        assert(string_views(out@) =~= before + seq![rest[0]]);
                    }
                }
            }
        }
        i = i + 1;
    }
    assert(av.skip(argv@.len() as int) =~= seq![]);
    assert(string_views(out@) + seq![] =~= string_views(out@));
    out
}

/// Whether `a` begins with `-`.
fn starts_with_dash(a: &str) -> (r: bool)
    ensures
        r == (a@.len() > 0 && a@[0] == '-'),
{
    let c = chars_of(a);
    c.len() > 0 && c[0] == '-'
}

/// The tokens of a layout's panes: each pane's group tokens, `--` between.
pub open spec fn layout_tokens(panes: Seq<Group>) -> Seq<Seq<char>>
    decreases panes.len(),
{
    if panes.len() == 0 {
        seq![]
    } else if panes.len() == 1 {
        group_tokens(panes[0])
    } else {
        layout_tokens(panes.drop_last()) + seq!["--"@] + group_tokens(panes.last())
    }
}

/// Whether token `a` is `--NAME` for a known layout NAME.
pub open spec fn names_layout(a: Seq<char>, layouts: Map<Seq<char>, Layout>) -> bool {
    a.len() >= 2 && a[0] == '-' && a[1] == '-' && layouts.contains_key(a.skip(2))
}

/// The first position, from `i` on, of a layout token.
pub open spec fn find_layout(argv: Seq<Seq<char>>, layouts: Map<Seq<char>, Layout>, i: int) -> Option<int>
    decreases argv.len() - i,
{
    if i < 0 || i >= argv.len() {
        None
    } else if names_layout(argv[i], layouts) {
        Some(i)
    } else {
        find_layout(argv, layouts, i + 1)
    }
}

/// The command line with the first `--<layout>` token (after the program
/// name) replaced by the layout's panes, and the layout's orientation.
pub open spec fn expand_layout_spec(argv: Seq<Seq<char>>, layouts: Map<Seq<char>, Layout>) -> (Seq<Seq<char>>, Option<bool>) {
    match find_layout(argv, layouts, 1) {
        None => (argv, None),
        Some(i) => {
            let l = layouts[argv[i].skip(2)];
            (argv.take(i) + layout_tokens(l.panes@) + argv.skip(i + 1), Some(l.horizontal))
        },
    }
}

/// The `NAME` of a token starting with `--`.
fn dashed_name(a: &str) -> (r: Option<String>)
    ensures
        match r {
            Some(n) => a@.len() >= 2 && a@[0] == '-' && a@[1] == '-' && n@ == a@.skip(2),
            None => !(a@.len() >= 2 && a@[0] == '-' && a@[1] == '-'),
        },
{
    let c = chars_of(a);
    if c.len() >= 2 && c[0] == '-' && c[1] == '-' {
        let name = slice_vec(c.as_slice(), 2, c.len());
        assert(name@ =~= a@.skip(2));
        Some(string_of(name.as_slice()))
    } else {
        None
    }
}

/// Append `items[lo..hi]` to `out`.
fn push_range(out: &mut Vec<String>, items: &Vec<String>, lo: usize, hi: usize)
    requires
        lo <= hi <= items@.len(),
    ensures
        string_views(final(out)@) == string_views(old(out)@) + string_views(items@).subrange(lo as int, hi as int),
{
    let ghost o = string_views(out@);
    let ghost v = string_views(items@);
    let mut k: usize = lo;
    while k < hi
        invariant
            lo <= k <= hi <= items@.len(),
            v == string_views(items@),
            string_views(out@) == o + v.subrange(lo as int, k as int),
        decreases hi - k,
    {
        let ghost b = out@;
        out.push(items[k].clone());
        proof {
            lemma_views_push(b, items@[k as int]);
        }
        assert(string_views(out@) =~= o + v.subrange(lo as int, k + 1));
        k = k + 1;
    }
}

/// Append the tokens of a layout's panes to `out`.
fn push_layout(out: &mut Vec<String>, panes: &Vec<Group>)
    ensures
        string_views(final(out)@) == string_views(old(out)@) + layout_tokens(panes@),
{
    let ghost head = string_views(out@);
    let mut p: usize = 0;
    assert(head + layout_tokens(panes@.take(0)) =~= head);
    while p < panes.len()
        invariant
            p <= panes@.len(),
            string_views(out@) == head + layout_tokens(panes@.take(p as int)),
        decreases panes@.len() - p,
    {
        if p > 0 {
            push_flag(out, "--");
        }
        expand_group(&panes[p], out);
        proof {
            let t = panes@.take(p + 1);
            assert(t.drop_last() =~= panes@.take(p as int));
            assert(t.last() == panes@[p as int]);
            if p == 0 {
                assert(t =~= seq![panes@[0]]);
            }
            assert(string_views(out@) =~= head + layout_tokens(t));
        }
        p = p + 1;
    }
    assert(panes@.take(panes@.len() as int) =~= panes@);
}

/// Replace the first `--<layout>` token with the layout's panes rendered as
/// `--`-separated sections, each a pane's flags and file. Tokens before it
/// stay ahead; tokens after it follow the last section. Without a layout
/// token the command line is returned unchanged with no orientation.
pub fn expand_layout_argv(argv: Vec<String>, layouts: &StringHashMap<Layout>) -> (r: (Vec<String>, Option<bool>))
    ensures
        string_views(r.0@) == expand_layout_spec(string_views(argv@), layouts@).0,
        r.1 == expand_layout_spec(string_views(argv@), layouts@).1,
{
    let ghost av = string_views(argv@);
    let mut i: usize = 1;
    while i < argv.len()
        invariant
            1 <= i,
            av == string_views(argv@),
            find_layout(av, layouts@, 1) == find_layout(av, layouts@, i as int),
        decreases argv@.len() - i,
    {
        assert(av[i as int] == argv@[i as int]@);
        if let Some(name) = dashed_name(argv[i].as_str()) {
            if let Some(layout) = layouts.get(name.as_str()) {
                let mut out: Vec<String> = Vec::new();
                push_range(&mut out, &argv, 0, i);
                push_layout(&mut out, &layout.panes);
                push_range(&mut out, &argv, i + 1, argv.len());
                assert(av.subrange(0, i as int) =~= av.take(i as int));
                assert(av.subrange(i + 1, argv@.len() as int) =~= av.skip(i + 1));
                assert(string_views(out@) =~= av.take(i as int) + layout_tokens(layout.panes@) + av.skip(i + 1));
                return (out, Some(layout.horizontal));
            }
        }
        i = i + 1;
    }
    (argv, None)
}

/// The bracketed source annotation for a format in `--list-formats`.
pub open spec fn source_label_spec(source: ConfigSource, overrides: Option<ConfigSource>) -> Seq<char> {
    let layer = match source {
        ConfigSource::Builtin => "built-in"@,
        ConfigSource::Global => "global"@,
        ConfigSource::Local => "local"@,
    };
    match overrides {
        None => "["@ + layer + "]"@,
        Some(ConfigSource::Builtin) => "["@ + layer + ", overrides built-in]"@,
        Some(ConfigSource::Global) => "["@ + layer + ", overrides global]"@,
        Some(ConfigSource::Local) => "["@ + layer + ", overrides local]"@,
    }
}

/// Render the bracketed source annotation for a format: its layer, and the
/// layer it replaced.
pub fn format_source_label(source: ConfigSource, overrides: Option<ConfigSource>) -> (s: String)
    ensures
        s@ == source_label_spec(source, overrides),
{
    let mut out: Vec<char> = Vec::new();
    push_str(&mut out, "[");
    match source {
        ConfigSource::Builtin => push_str(&mut out, "built-in"),
        ConfigSource::Global => push_str(&mut out, "global"),
        ConfigSource::Local => push_str(&mut out, "local"),
    }
    match overrides {
        None => push_str(&mut out, "]"),
        Some(ConfigSource::Builtin) => push_str(&mut out, ", overrides built-in]"),
        Some(ConfigSource::Global) => push_str(&mut out, ", overrides global]"),
        Some(ConfigSource::Local) => push_str(&mut out, ", overrides local]"),
    }
    string_of(out.as_slice())
}

/// Long-form names of the built-in flags, which a group or layout name may
/// not shadow.
pub open spec fn reserved_flag(n: Seq<char>) -> bool {
    n == "format"@ || n == "filter"@ || n == "grep"@ || n == "dim"@ || n == "head"@
        || n == "tail"@ || n == "follow"@ || n == "LINE-NUMBERS"@ || n == "chop-long-lines"@
        || n == "tab-width"@ || n == "list-formats"@ || n == "live"@ || n == "manual"@
        || n == "examples"@ || n == "prettify"@ || n == "content-type"@ || n == "help"@
        || n == "version"@ || n == "record-start"@ || n == "hex"@ || n == "prompt"@
        || n == "display"@ || n == "or-filter"@ || n == "or-grep"@ || n == "or-group"@
        || n == "preprocess"@ || n == "no-preprocess"@ || n == "no-color"@
        || n == "raw-control-chars"@ || n == "tag"@ || n == "tag-file"@ || n == "split"@
}

/// Whether `name` is the long name of a built-in flag.
pub fn is_reserved_flag(name: &str) -> (r: bool)
    ensures
        r == reserved_flag(name@),
{
    let c = chars_of(name);
    let v = c.as_slice();
    eq_lit(v, "format") || eq_lit(v, "filter") || eq_lit(v, "grep") || eq_lit(v, "dim")
        || eq_lit(v, "head") || eq_lit(v, "tail") || eq_lit(v, "follow")
        || eq_lit(v, "LINE-NUMBERS") || eq_lit(v, "chop-long-lines") || eq_lit(v, "tab-width")
        || eq_lit(v, "list-formats") || eq_lit(v, "live") || eq_lit(v, "manual")
        || eq_lit(v, "examples") || eq_lit(v, "prettify") || eq_lit(v, "content-type")
        || eq_lit(v, "help") || eq_lit(v, "version") || eq_lit(v, "record-start")
        || eq_lit(v, "hex") || eq_lit(v, "prompt") || eq_lit(v, "display")
        || eq_lit(v, "or-filter") || eq_lit(v, "or-grep") || eq_lit(v, "or-group")
        || eq_lit(v, "preprocess") || eq_lit(v, "no-preprocess") || eq_lit(v, "no-color")
        || eq_lit(v, "raw-control-chars") || eq_lit(v, "tag") || eq_lit(v, "tag-file")
        || eq_lit(v, "split")
}

/// The long names of the built-in flags, in the order the manual lists them.
pub open spec fn reserved_names() -> Seq<Seq<char>> {
    seq![
        "format"@,
        "filter"@,
        "grep"@,
        "dim"@,
        "head"@,
        "tail"@,
        "follow"@,
        "LINE-NUMBERS"@,
        "chop-long-lines"@,
        "tab-width"@,
        "list-formats"@,
        "live"@,
        "manual"@,
        "examples"@,
        "prettify"@,
        "content-type"@,
        "help"@,
        "version"@,
        "record-start"@,
        "hex"@,
        "prompt"@,
        "display"@,
        "or-filter"@,
        "or-grep"@,
        "or-group"@,
        "preprocess"@,
        "no-preprocess"@,
        "no-color"@,
        "raw-control-chars"@,
        "tag"@,
        "tag-file"@,
        "split"@,
    ]
}

/// The names a group may not take: the long names of the built-in flags.
pub fn reserved_group_names() -> (v: Vec<&'static str>)
    ensures
        v@.len() == reserved_names().len(),
        forall|i: int| 0 <= i < v@.len() ==> (#[trigger] v@[i])@ == reserved_names()[i],
{
    vec![
        "format",
        "filter",
        "grep",
        "dim",
        "head",
        "tail",
        "follow",
        "LINE-NUMBERS",
        "chop-long-lines",
        "tab-width",
        "list-formats",
        "live",
        "manual",
        "examples",
        "prettify",
        "content-type",
        "help",
        "version",
        "record-start",
        "hex",
        "prompt",
        "display",
        "or-filter",
        "or-grep",
        "or-group",
        "preprocess",
        "no-preprocess",
        "no-color",
        "raw-control-chars",
        "tag",
        "tag-file",
        "split",
    ]
}

/// The manual's list of reserved names and the names the loader refuses
/// are the same.
pub proof fn lemma_reserved_names_are_the_refused_ones(n: Seq<char>)
    ensures
        reserved_flag(n) <==> reserved_names().contains(n),
{
    if reserved_flag(n) {
        assert(reserved_names().contains(n)) by {
            if n == "format"@ { assert(reserved_names()[0] == n); }
            else if n == "filter"@ { assert(reserved_names()[1] == n); }
            else if n == "grep"@ { assert(reserved_names()[2] == n); }
            else if n == "dim"@ { assert(reserved_names()[3] == n); }
            else if n == "head"@ { assert(reserved_names()[4] == n); }
            else if n == "tail"@ { assert(reserved_names()[5] == n); }
            else if n == "follow"@ { assert(reserved_names()[6] == n); }
            else if n == "LINE-NUMBERS"@ { assert(reserved_names()[7] == n); }
            else if n == "chop-long-lines"@ { assert(reserved_names()[8] == n); }
            else if n == "tab-width"@ { assert(reserved_names()[9] == n); }
            else if n == "list-formats"@ { assert(reserved_names()[10] == n); }
            else if n == "live"@ { assert(reserved_names()[11] == n); }
            else if n == "manual"@ { assert(reserved_names()[12] == n); }
            else if n == "examples"@ { assert(reserved_names()[13] == n); }
            else if n == "prettify"@ { assert(reserved_names()[14] == n); }
            else if n == "content-type"@ { assert(reserved_names()[15] == n); }
            else if n == "help"@ { assert(reserved_names()[16] == n); }
            else if n == "version"@ { assert(reserved_names()[17] == n); }
            else if n == "record-start"@ { assert(reserved_names()[18] == n); }
            else if n == "hex"@ { assert(reserved_names()[19] == n); }
            else if n == "prompt"@ { assert(reserved_names()[20] == n); }
            else if n == "display"@ { assert(reserved_names()[21] == n); }
            else if n == "or-filter"@ { assert(reserved_names()[22] == n); }
            else if n == "or-grep"@ { assert(reserved_names()[23] == n); }
            else if n == "or-group"@ { assert(reserved_names()[24] == n); }
            else if n == "preprocess"@ { assert(reserved_names()[25] == n); }
            else if n == "no-preprocess"@ { assert(reserved_names()[26] == n); }
            else if n == "no-color"@ { assert(reserved_names()[27] == n); }
            else if n == "raw-control-chars"@ { assert(reserved_names()[28] == n); }
            else if n == "tag"@ { assert(reserved_names()[29] == n); }
            else if n == "tag-file"@ { assert(reserved_names()[30] == n); }
            else if n == "split"@ { assert(reserved_names()[31] == n); }
        }
    }
    if reserved_names().contains(n) {
        let i = choose|i: int| 0 <= i < reserved_names().len() && reserved_names()[i] == n;
        assert(reserved_flag(reserved_names()[i]));
    }
}

} // verus!
