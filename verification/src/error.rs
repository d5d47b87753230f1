//! Startup and runtime errors, with their process exit codes.

use vstd::prelude::*;
use crate::text::{decimal_chars, decimal_of, push_chars, push_str, string_of};

verus! {

/// An error that ends the program. Paths and I/O failures are carried as
/// their printed text.
#[derive(Debug)]
pub enum Error {
    OpenFile { path: String, source: String },
    NotAFile { path: String },
    NoInput,
    Runtime(String),
    /// Tags file specified by `-T` or required by `-t` could not be opened.
    TagFileNotFound,
    /// Tags file is malformed: (reason, path, line number).
    TagFileParse(String, String, usize),
}

/// The text printed for each error.
pub open spec fn error_text(e: &Error) -> Seq<char> {
    match e {
        Error::OpenFile { path, source } => "tess: "@ + path@ + ": "@ + source@,
        Error::NotAFile { path } => "tess: "@ + path@ + ": not a regular file"@,
        Error::NoInput => "tess: no input (specify a file or pipe stdin)"@,
        Error::Runtime(msg) => "tess: "@ + msg@,
        Error::TagFileNotFound => "tags file not found"@,
        Error::TagFileParse(reason, path, line) =>
            "tags file parse error: "@ + reason@ + " at "@ + path@ + ":"@ + decimal_of(*line as nat),
    }
}

impl Error {
    /// Startup failures exit with 1, runtime failures with 2.
    pub fn exit_code(&self) -> (code: i32)
        ensures
            code == (if self is Runtime { 2i32 } else { 1i32 }),
    {
        match self {
            Error::OpenFile { .. }
            | Error::NotAFile { .. }
            | Error::NoInput
            | Error::TagFileNotFound
            | Error::TagFileParse(..) => 1,
            Error::Runtime(_) => 2,
        }
    }

    /// The text printed for the error.
    pub fn message(&self) -> (s: String)
        ensures
            s@ == error_text(self),
    {
        let mut out: Vec<char> = Vec::new();
        match self {
            Error::OpenFile { path, source } => {
                push_str(&mut out, "tess: ");
                push_str(&mut out, path.as_str());
                push_str(&mut out, ": ");
                push_str(&mut out, source.as_str());
            },
            Error::NotAFile { path } => {
                push_str(&mut out, "tess: ");
                push_str(&mut out, path.as_str());
                push_str(&mut out, ": not a regular file");
            },
            Error::NoInput => {
                push_str(&mut out, "tess: no input (specify a file or pipe stdin)");
            },
            Error::Runtime(msg) => {
                push_str(&mut out, "tess: ");
                push_str(&mut out, msg.as_str());
            },
            Error::TagFileNotFound => {
                push_str(&mut out, "tags file not found");
            },
            Error::TagFileParse(reason, path, line) => {
                push_str(&mut out, "tags file parse error: ");
                push_str(&mut out, reason.as_str());
                push_str(&mut out, " at ");
                push_str(&mut out, path.as_str());
                push_str(&mut out, ":");
                let digits = decimal_chars(*line as u64);
                push_chars(&mut out, digits.as_slice());
            },
        }
        string_of(out.as_slice())
    }
}

} // verus!
