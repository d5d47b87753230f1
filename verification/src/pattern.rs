//! Regular expressions, compiled and run by the `regex` crate. Each compiled
//! expression keeps the pattern it came from, so that what it matches can be
//! stated as a function of that pattern.

use vstd::prelude::*;

verus! {

#[verifier::external_type_specification]
#[verifier::external_body]
pub struct ExBytesRegex(regex::bytes::Regex);

#[verifier::external_type_specification]
#[verifier::external_body]
pub struct ExTextRegex(regex::Regex);

/// What `regex::bytes::Regex::new` reports for `pattern`: `None` when it
/// compiles, else the text of its error.
pub uninterp spec fn bytes_regex_error(pattern: Seq<char>) -> Option<Seq<char>>;

/// What `regex::Regex::new` reports for `pattern`: `None` when it compiles,
/// else the text of its error.
pub uninterp spec fn text_regex_error(pattern: Seq<char>) -> Option<Seq<char>>;

/// Whether the byte regex compiled from `pattern` matches somewhere in
/// `haystack` (`regex::bytes::Regex::is_match`).
pub uninterp spec fn bytes_regex_is_match(pattern: Seq<char>, haystack: Seq<u8>) -> bool;

/// Whether the text regex compiled from `pattern` matches somewhere in
/// `haystack` (`regex::Regex::is_match`).
pub uninterp spec fn text_regex_is_match(pattern: Seq<char>, haystack: Seq<char>) -> bool;

/// What the named groups of the text regex compiled from `pattern` capture
/// in its first match in `haystack` (`regex::Regex::captures`), by group
/// name; a group that took no part in the match is absent. `None` when the
/// regex does not match.
pub uninterp spec fn text_regex_captures(pattern: Seq<char>, haystack: Seq<char>) -> Option<Map<Seq<char>, Seq<char>>>;

/// The capture groups of the text regex compiled from `pattern`, in group
/// order (group 0, the whole match, first), each with its name if it has
/// one (`regex::Regex::capture_names`).
pub uninterp spec fn text_regex_capture_names(pattern: Seq<char>) -> Seq<Option<Seq<char>>>;

/// What `regex::RegexBuilder` reports for `pattern` built with
/// `dot_matches_new_line` and `multi_line` on: `None` when it compiles,
/// else the text of its error.
pub uninterp spec fn record_regex_error(pattern: Seq<char>) -> Option<Seq<char>>;

/// What the named groups of the regex built from `pattern` with
/// `dot_matches_new_line` and `multi_line` on capture in its first match
/// in `haystack`, by group name (as `text_regex_captures`).
pub uninterp spec fn record_regex_captures(pattern: Seq<char>, haystack: Seq<char>) -> Option<Map<Seq<char>, Seq<char>>>;

/// What a capture map holds for `name`.
pub open spec fn captured(m: Map<Seq<char>, Seq<char>>, name: Seq<char>) -> Option<Seq<char>> {
    if m.contains_key(name) { Some(m[name]) } else { None }
}

/// The text of an optional string.
pub open spec fn opt_text(o: Option<String>) -> Option<Seq<char>> {
    match o {
        Some(s) => Some(s@),
        None => None,
    }
}

/// `regex::bytes::Regex::new`; the error is turned into its display text.
/// Claims that the outcome depends on the pattern alone.
#[verifier::external_body]
fn compile_bytes(pattern: &str) -> (r: Result<regex::bytes::Regex, String>)
    ensures
        r is Ok <==> bytes_regex_error(pattern@) is None,
        r matches Err(m) ==> bytes_regex_error(pattern@) == Some(m@),
{
    regex::bytes::Regex::new(pattern).map_err(|e| e.to_string())
}

/// `regex::Regex::new`; the error is turned into its display text. Claims
/// that the outcome depends on the pattern alone.
#[verifier::external_body]
fn compile_text(pattern: &str) -> (r: Result<regex::Regex, String>)
    ensures
        r is Ok <==> text_regex_error(pattern@) is None,
        r matches Err(m) ==> text_regex_error(pattern@) == Some(m@),
{
    regex::Regex::new(pattern).map_err(|e| e.to_string())
}

/// A byte-oriented regex and the pattern it was compiled from.
pub struct ByteRegex {
    re: regex::bytes::Regex,
    pattern: String,
}

/// `regex::bytes::Regex::is_match` on the regex that `re` holds. Claims
/// that the answer is that of the regex compiled from `re`'s pattern, which
/// `ByteRegex::new` is the only way to pair with it.
#[verifier::external_body]
fn bytes_is_match(re: &ByteRegex, haystack: &[u8]) -> (r: bool)
    ensures
        r == bytes_regex_is_match(re@, haystack@),
{
    re.re.is_match(haystack)
}

impl View for ByteRegex {
    type V = Seq<char>;

    closed spec fn view(&self) -> Seq<char> {
        self.pattern@
    }
}

impl ByteRegex {
    /// Compile `pattern`, or give the error's text.
    pub fn new(pattern: &str) -> (r: Result<ByteRegex, String>)
        ensures
            r matches Ok(b) ==> b@ == pattern@ && bytes_regex_error(pattern@) is None,
            r matches Err(m) ==> bytes_regex_error(pattern@) == Some(m@),
    {
        match compile_bytes(pattern) {
            Ok(re) => Ok(ByteRegex { re, pattern: pattern.to_owned() }),
            Err(m) => Err(m),
        }
    }

    /// Whether the regex matches somewhere in `haystack`.
    pub fn is_match(&self, haystack: &[u8]) -> (r: bool)
        ensures
            r == bytes_regex_is_match(self@, haystack@),
    {
        bytes_is_match(self, haystack)
    }

    /// The pattern the regex was compiled from.
    pub fn as_str(&self) -> (s: &str)
        ensures
            s@ == self@,
    {
        self.pattern.as_str()
    }
}

/// A regex over text and the pattern it was compiled from.
pub struct TextRegex {
    re: regex::Regex,
    pattern: String,
}

/// `regex::Regex::is_match` on the regex that `re` holds. Claims that the
/// answer is that of the regex compiled from `re`'s pattern, which
/// `TextRegex::new` is the only way to pair with it.
#[verifier::external_body]
fn text_is_match(re: &TextRegex, haystack: &str) -> (r: bool)
    ensures
        r == text_regex_is_match(re@, haystack@),
{
    re.re.is_match(haystack)
}

/// `regex::Regex::clone` on the regex that `re` holds, kept with the same
/// pattern.
#[verifier::external_body]
fn clone_text(re: &TextRegex) -> (r: TextRegex)
    ensures
        r@ == re@,
{
    TextRegex { re: re.re.clone(), pattern: re.pattern.clone() }
}

/// `regex::Regex::captures` on the regex that `re` holds, read out for the
/// group names `names`: `None` when there is no match, else for each name
/// the text its group captured (`Captures::name`), if it took part.
/// Claims that this is a function of `re`'s pattern and the haystack.
#[verifier::external_body]
fn captures_by_name(re: &TextRegex, haystack: &str, names: &[String]) -> (r: Option<Vec<Option<String>>>)
    ensures
        match text_regex_captures(re@, haystack@) {
            None => r is None,
            Some(m) => r matches Some(v) && v@.len() == names@.len()
                && forall|i: int| 0 <= i < names@.len() ==> opt_text(#[trigger] v@[i]) == captured(m, names@[i]@),
        },
{
    let caps = re.re.captures(haystack)?;
    let mut out: Vec<Option<String>> = Vec::with_capacity(names.len());
    for n in names {
        out.push(caps.name(n).map(|m| m.as_str().to_string()));
    }
    Some(out)
}

/// `regex::Regex::capture_names` on the regex that `re` holds, each name
/// turned into a `String`. Claims that this is a function of `re`'s
/// pattern.
#[verifier::external_body]
fn group_names(re: &TextRegex) -> (r: Vec<Option<String>>)
    ensures
        r@.len() == text_regex_capture_names(re@).len(),
        forall|i: int| 0 <= i < r@.len() ==> opt_text(#[trigger] r@[i]) == text_regex_capture_names(re@)[i],
{
    re.re.capture_names().map(|n| n.map(|s| s.to_string())).collect()
}

/// `regex::RegexBuilder::new(pattern)` with `dot_matches_new_line(true)`
/// and `multi_line(true)`, then `build`; the error is turned into its
/// display text. Claims that the outcome depends on the pattern alone.
#[verifier::external_body]
fn compile_record(pattern: &str) -> (r: Result<regex::Regex, String>)
    ensures
        r is Ok <==> record_regex_error(pattern@) is None,
        r matches Err(m) ==> record_regex_error(pattern@) == Some(m@),
{
    regex::RegexBuilder::new(pattern).dot_matches_new_line(true).multi_line(true).build().map_err(|e| e.to_string())
}

/// A regex built for whole multi-line records (`.` matches a newline, `^`
/// and `$` match at line breaks) and the pattern it was built from.
pub struct RecordRegex {
    re: regex::Regex,
    pattern: String,
}

/// `regex::Regex::captures` on the record regex that `re` holds, read out
/// for `names` as `captures_by_name` does. Claims that this is a function
/// of `re`'s pattern and the haystack.
#[verifier::external_body]
fn record_captures_by_name(re: &RecordRegex, haystack: &str, names: &[String]) -> (r: Option<Vec<Option<String>>>)
    ensures
        match record_regex_captures(re@, haystack@) {
            None => r is None,
            Some(m) => r matches Some(v) && v@.len() == names@.len()
                && forall|i: int| 0 <= i < names@.len() ==> opt_text(#[trigger] v@[i]) == captured(m, names@[i]@),
        },
{
    let caps = re.re.captures(haystack)?;
    let mut out: Vec<Option<String>> = Vec::with_capacity(names.len());
    for n in names {
        out.push(caps.name(n).map(|m| m.as_str().to_string()));
    }
    Some(out)
}

impl View for RecordRegex {
    type V = Seq<char>;

    closed spec fn view(&self) -> Seq<char> {
        self.pattern@
    }
}

impl RecordRegex {
    /// Build the record regex for `pattern`, or give the error's text.
    pub fn new(pattern: &str) -> (r: Result<RecordRegex, String>)
        ensures
            r matches Ok(t) ==> t@ == pattern@ && record_regex_error(pattern@) is None,
            r matches Err(m) ==> record_regex_error(pattern@) == Some(m@),
    {
        match compile_record(pattern) {
            Ok(re) => Ok(RecordRegex { re, pattern: pattern.to_owned() }),
            Err(m) => Err(m),
        }
    }

    /// What the groups `names` capture in the first match in `haystack`;
    /// `None` when the regex does not match.
    pub fn captures(&self, haystack: &str, names: &[String]) -> (r: Option<Vec<Option<String>>>)
        ensures
            match record_regex_captures(self@, haystack@) {
                None => r is None,
                Some(m) => r matches Some(v) && v@.len() == names@.len()
                    && forall|i: int| 0 <= i < names@.len() ==> opt_text(#[trigger] v@[i]) == captured(m, names@[i]@),
            },
    {
        record_captures_by_name(self, haystack, names)
    }
}

impl View for TextRegex {
    type V = Seq<char>;

    closed spec fn view(&self) -> Seq<char> {
        self.pattern@
    }
}

impl TextRegex {
    /// Compile `pattern`, or give the error's text.
    pub fn new(pattern: &str) -> (r: Result<TextRegex, String>)
        ensures
            r matches Ok(t) ==> t@ == pattern@ && text_regex_error(pattern@) is None,
            r matches Err(m) ==> text_regex_error(pattern@) == Some(m@),
    {
        match compile_text(pattern) {
            Ok(re) => Ok(TextRegex { re, pattern: pattern.to_owned() }),
            Err(m) => Err(m),
        }
    }

    /// Whether the regex matches somewhere in `haystack`.
    pub fn is_match(&self, haystack: &str) -> (r: bool)
        ensures
            r == text_regex_is_match(self@, haystack@),
    {
        text_is_match(self, haystack)
    }

    /// A copy of the regex.
    pub fn clone_regex(&self) -> (r: TextRegex)
        ensures
            r@ == self@,
    {
        clone_text(self)
    }

    /// Every capture group, in order, with its name if it has one.
    pub fn capture_names(&self) -> (r: Vec<Option<String>>)
        ensures
            r@.len() == text_regex_capture_names(self@).len(),
            forall|i: int| 0 <= i < r@.len() ==> opt_text(#[trigger] r@[i]) == text_regex_capture_names(self@)[i],
    {
        group_names(self)
    }

    /// What the groups `names` capture in the first match in `haystack`;
    /// `None` when the regex does not match.
    pub fn captures(&self, haystack: &str, names: &[String]) -> (r: Option<Vec<Option<String>>>)
        ensures
            match text_regex_captures(self@, haystack@) {
                None => r is None,
                Some(m) => r matches Some(v) && v@.len() == names@.len()
                    && forall|i: int| 0 <= i < names@.len() ==> opt_text(#[trigger] v@[i]) == captured(m, names@[i]@),
            },
    {
        captures_by_name(self, haystack, names)
    }

    /// The pattern the regex was compiled from.
    pub fn as_str(&self) -> (s: &str)
        ensures
            s@ == self@,
    {
        self.pattern.as_str()
    }
}

} // verus!
