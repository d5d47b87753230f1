//! Shared rendering vocabulary: the ANSI interpretation mode and the cell
//! grid that renderers produce.

use vstd::prelude::*;
use crate::ansi::Style;

verus! {

/// How escape sequences in the source are shown.
#[derive(Debug, Clone, Copy, PartialEq, Eq, Structural)]
pub enum AnsiMode {
    Strict,
    Interpret,
    Raw,
}

/// One terminal cell of a rendered row.
#[derive(Debug, Clone, PartialEq, Eq)]
pub enum Cell {
    /// A visible character, `width` columns wide, with its style and the
    /// hyperlink it belongs to.
    Char { ch: char, width: u8, style: Style, hyperlink: Option<String> },
    /// The trailing column of a wide character.
    Continuation,
    /// Nothing drawn.
    Empty,
}

} // verus!
