//! `--grep`: several regexes that a line must all match. Lines that are not
//! well-formed UTF-8 never match, as in the interactive search.

use vstd::prelude::*;
use crate::pattern::{text_regex_error, text_regex_is_match, TextRegex};
use crate::text::{is_valid_utf8, push_chars, push_str, string_from_utf8, string_of, chars_of};

verus! {

/// The index of the first pattern that does not compile, if any.
pub open spec fn first_bad_pattern(ps: Seq<Seq<char>>) -> Option<int>
    decreases ps.len(),
{
    if ps.len() == 0 {
        None
    } else {
        match first_bad_pattern(ps.drop_last()) {
            Some(k) => Some(k),
            None => if text_regex_error(ps.last()) is Some { Some(ps.len() - 1) } else { None },
        }
    }
}

/// The error for the bad pattern `p`: it names the argument.
pub open spec fn grep_error_text(p: Seq<char>) -> Seq<char> {
    "--grep `"@ + p + "`: "@ + text_regex_error(p).unwrap()
}

/// The views of some strings.
pub open spec fn string_views(ps: Seq<String>) -> Seq<Seq<char>> {
    ps.map_values(|p: String| p@)
}

/// Whether every pattern matches the text of `line`.
pub open spec fn all_match(ps: Seq<Seq<char>>, line: Seq<u8>) -> bool {
    &&& vstd::utf8::valid_utf8(line)
    &&& forall|i: int| 0 <= i < ps.len() ==> #[trigger] text_regex_is_match(ps[i], vstd::utf8::decode_utf8(line))
}

/// Compiled `--grep` patterns, all of which a line must match.
pub struct GrepPredicate {
    regexes: Vec<TextRegex>,
}

impl GrepPredicate {
    /// The patterns, in the order given.
    pub closed spec fn patterns(&self) -> Seq<Seq<char>> {
        self.regexes@.map_values(|r: TextRegex| r@)
    }

    /// Compile each pattern; the first that does not compile is reported,
    /// named, as the error.
    pub fn compile(patterns: &[String]) -> (r: Result<Self, String>)
        ensures
            r is Ok <==> first_bad_pattern(string_views(patterns@)) is None,
            r matches Ok(g) ==> g.patterns() == string_views(patterns@),
            r matches Err(m) ==> first_bad_pattern(string_views(patterns@)) matches Some(k)
                && m@ == grep_error_text(patterns@[k]@),
    {
        let mut regexes: Vec<TextRegex> = Vec::new();
        let mut i: usize = 0;
        while i < patterns.len()
            invariant
                i <= patterns.len(),
                regexes@.len() == i,
                forall|j: int| 0 <= j < i ==> #[trigger] regexes@[j]@ == patterns@[j]@,
                first_bad_pattern(string_views(patterns@).take(i as int)) is None,
            decreases patterns.len() - i,
        {
            let ghost ps = string_views(patterns@);
            assert(ps.take(i as int + 1).drop_last() =~= ps.take(i as int));
            match TextRegex::new(patterns[i].as_str()) {
                Ok(t) => {
                    regexes.push(t);
                },
                Err(e) => {
                    let mut msg: Vec<char> = Vec::new();
                    push_str(&mut msg, "--grep `");
                    let p = chars_of(patterns[i].as_str());
                    push_chars(&mut msg, p.as_slice());
                    push_str(&mut msg, "`: ");
                    let ec = chars_of(e.as_str());
                    push_chars(&mut msg, ec.as_slice());
                    proof {
                        assert(ps.take(i as int + 1).last() == patterns@[i as int]@);
                        assert(first_bad_pattern(ps.take(i as int + 1)) == Some(i as int));
                        lemma_first_bad_prefix(ps, i as int + 1, ps.len() as int);
                        assert(ps.take(ps.len() as int) =~= ps);
                    }
                    return Err(string_of(msg.as_slice()));
                },
            }
            i = i + 1;
        }
        proof {
            assert(string_views(patterns@).take(i as int) =~= string_views(patterns@));
        }
        let g = GrepPredicate { regexes };
        assert(g.patterns() =~= string_views(patterns@));
        Ok(g)
    }

    /// No pattern was given.
    pub fn is_empty(&self) -> (r: bool)
        ensures
            r == (self.patterns().len() == 0),
    {
        self.regexes.len() == 0
    }

    /// Whether `line` is well-formed UTF-8 and every pattern matches its
    /// text; with no patterns, every well-formed line matches.
    pub fn matches(&self, line: &[u8]) -> (r: bool)
        ensures
            r == all_match(self.patterns(), line@),
    {
        if !is_valid_utf8(line) {
            return false;
        }
        let s = string_from_utf8(line);
        let mut i: usize = 0;
        while i < self.regexes.len()
            invariant
                i <= self.regexes@.len(),
                vstd::utf8::valid_utf8(line@),
                s@ == vstd::utf8::decode_utf8(line@),
                forall|j: int| 0 <= j < i ==> #[trigger] text_regex_is_match(self.patterns()[j], s@),
            decreases self.regexes@.len() - i,
        {
            assert(self.patterns()[i as int] == self.regexes@[i as int]@);
            if !self.regexes[i].is_match(s.as_str()) {
                return false;
            }
            i = i + 1;
        }
        true
    }
}

/// A bad pattern in a prefix stays the first bad pattern of any longer
/// prefix.
proof fn lemma_first_bad_prefix(ps: Seq<Seq<char>>, n: int, m: int)
    requires
        0 <= n <= m <= ps.len(),
        first_bad_pattern(ps.take(n)) is Some,
    ensures
        first_bad_pattern(ps.take(m)) == first_bad_pattern(ps.take(n)),
    decreases m - n,
{
    if m > n {
        lemma_first_bad_prefix(ps, n, m - 1);
        assert(ps.take(m).drop_last() =~= ps.take(m - 1));
    }
}

} // verus!
