//! Viewport-level settings shared by the colon commands.

use vstd::prelude::*;
use crate::text::{chars_of, push_str, string_of};

verus! {

/// Search case policy.
#[derive(Debug, Clone, Copy, PartialEq, Eq, Structural)]
pub enum CaseMode {
    Sensitive,
    Smart,
    Insensitive,
}

/// Whether std's `char::is_uppercase` holds of `c` (the Unicode
/// `Uppercase` property).
pub uninterp spec fn unicode_uppercase(c: char) -> bool;

/// std's `char::is_uppercase`. Its documentation: the Unicode `Uppercase`
/// property; `'A'..='Z'` have it and `'a'..='z'` do not.
#[verifier::external_body]
fn is_uppercase(c: char) -> (r: bool)
    ensures
        r == unicode_uppercase(c),
        'A' <= c <= 'Z' ==> r,
        'a' <= c <= 'z' ==> !r,
{
    c.is_uppercase()
}

/// Whether the text holds an uppercase character.
pub open spec fn has_uppercase(s: Seq<char>) -> bool {
    exists|i: int| 0 <= i < s.len() && unicode_uppercase(#[trigger] s[i])
}

/// A search pattern under a case policy: unchanged when case-sensitive,
/// made case-insensitive (`(?i)` in front) when insensitive, and under
/// smart case insensitive unless it holds an uppercase character.
pub open spec fn case_pattern(mode: CaseMode, p: Seq<char>) -> Seq<char> {
    match mode {
        CaseMode::Sensitive => p,
        CaseMode::Insensitive => "(?i)"@ + p,
        CaseMode::Smart => if has_uppercase(p) { p } else { "(?i)"@ + p },
    }
}

impl CaseMode {
    /// The regex pattern to compile for `pattern` under this policy.
    pub fn apply_to_pattern(&self, pattern: &str) -> (r: String)
        ensures
            r@ == case_pattern(*self, pattern@),
    {
        let insensitive = match self {
            CaseMode::Sensitive => false,
            CaseMode::Insensitive => true,
            CaseMode::Smart => {
                let c = chars_of(pattern);
                let mut upper = false;
                let mut i: usize = 0;
                while i < c.len()
                    invariant
                        c@ == pattern@,
                        i <= c@.len(),
                        upper <==> exists|j: int| 0 <= j < i && unicode_uppercase(#[trigger] c@[j]),
                    decreases c@.len() - i,
                {
                    if is_uppercase(c[i]) {
                        upper = true;
                    }
                    i = i + 1;
                }
                !upper
            },
        };
        if insensitive {
            let mut out: Vec<char> = Vec::new();
            push_str(&mut out, "(?i)");
            push_str(&mut out, pattern);
            string_of(out.as_slice())
        } else {
            pattern.to_owned()
        }
    }
}

} // verus!
