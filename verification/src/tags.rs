//! Tag-file entries that the tag commands jump to.

use vstd::prelude::*;

verus! {

/// Where inside a file a tag points.
#[derive(Debug, Clone, PartialEq, Eq)]
pub enum TagAddress {
    /// A 1-based line number.
    Line(usize),
    /// A search pattern.
    Pattern(String),
}

/// One match for a tag name.
#[derive(Debug, Clone, PartialEq, Eq)]
pub struct TagEntry {
    pub file: String,
    pub address: TagAddress,
}

} // verus!
