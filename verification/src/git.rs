//! A file's committed `HEAD` version, for `--gitdiff`: how a failed
//! `git show` is classified from its error output, and what its result
//! means. Running git is the caller's.

use vstd::prelude::*;
use crate::text::{
    chars_of, contains_lit, contains_sub, push_str, string_of, to_lowercase, trim, trim_bounds,
    slice_vec, unicode_lowercase,
};

verus! {

/// What `git show HEAD:<path>` produced.
#[derive(Debug)]
pub enum BlobOutcome {
    /// The committed bytes (may be empty for an empty file).
    Bytes(Vec<u8>),
    /// The path is not in HEAD (a new or untracked file).
    NotInHead,
    /// HEAD does not resolve (the repository has no commits yet).
    NoCommits,
}

/// Classification of a failed `git show`, from its error output.
#[derive(Debug, PartialEq, Eq, Structural)]
pub enum FailKind {
    NotInHead,
    NoCommits,
    Other,
}

/// How the (lower-cased) error output of a failed `git show` reads.
pub open spec fn classify_spec(stderr: Seq<char>) -> FailKind {
    let s = unicode_lowercase(stderr);
    if contains_sub(s, "does not exist in"@) || contains_sub(s, "exists on disk, but not in"@) {
        FailKind::NotInHead
    } else if contains_sub(s, "unknown revision"@) || contains_sub(s, "bad revision"@)
        || contains_sub(s, "ambiguous argument 'head'"@) {
        FailKind::NoCommits
    } else {
        FailKind::Other
    }
}

/// Map the error output of a failed `git show` to what went wrong.
pub fn classify(stderr: &str) -> (k: FailKind)
    ensures
        k == classify_spec(stderr@),
{
    let lower = to_lowercase(stderr);
    let c = chars_of(lower.as_str());
    let s = c.as_slice();
    if contains_lit(s, "does not exist in") || contains_lit(s, "exists on disk, but not in") {
        FailKind::NotInHead
    } else if contains_lit(s, "unknown revision") || contains_lit(s, "bad revision")
        || contains_lit(s, "ambiguous argument 'head'") {
        FailKind::NoCommits
    } else {
        FailKind::Other
    }
}

/// A file located within a git repository.
pub struct GitFile {
    pub repo_root: String,
    /// Repository-relative, forward-slash path (the form `git show HEAD:<x>` wants).
    pub rel_path: String,
}

/// The revision argument that names a file's committed version.
pub fn show_spec(file: &GitFile) -> (s: String)
    ensures
        s@ == "HEAD:"@ + file.rel_path@,
{
    let mut out: Vec<char> = Vec::new();
    push_str(&mut out, "HEAD:");
    push_str(&mut out, file.rel_path.as_str());
    string_of(out.as_slice())
}

/// What a finished `git show <spec>` means: its output when it succeeded;
/// otherwise the failure, classified from its error output, with the
/// trimmed error output in the message when it is not a known case.
pub fn blob_outcome(spec: &str, success: bool, stdout: Vec<u8>, stderr: &str) -> (r: Result<BlobOutcome, String>)
    ensures
        success ==> (r matches Ok(BlobOutcome::Bytes(b)) && b@ == stdout@),
        !success ==> match classify_spec(stderr@) {
            FailKind::NotInHead => r matches Ok(BlobOutcome::NotInHead),
            FailKind::NoCommits => r matches Ok(BlobOutcome::NoCommits),
            FailKind::Other => (r matches Err(m) && m@ == "git show "@ + spec@ + ": "@ + trim(stderr@)),
        },
{
    if success {
        return Ok(BlobOutcome::Bytes(stdout));
    }
    match classify(stderr) {
        FailKind::NotInHead => Ok(BlobOutcome::NotInHead),
        FailKind::NoCommits => Ok(BlobOutcome::NoCommits),
        FailKind::Other => {
            let e = chars_of(stderr);
            let (a, b) = trim_bounds(e.as_slice(), 0, e.len());
            assert(e@.subrange(0, e@.len() as int) =~= e@);
            let t = slice_vec(e.as_slice(), a, b);
            let mut out: Vec<char> = Vec::new();
            push_str(&mut out, "git show ");
            push_str(&mut out, spec);
            push_str(&mut out, ": ");
            crate::text::push_chars(&mut out, t.as_slice());
            Err(string_of(out.as_slice()))
        },
    }
}

} // verus!
