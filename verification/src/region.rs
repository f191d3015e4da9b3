//! Source regions and values that carry one.

use vstd::prelude::*;

verus! {

/// A span of source text: where it starts and where it ends.
/// Lines are zero-based; columns count bytes from the start of the line.
#[derive(Debug, Clone, Copy, PartialEq, Eq, Structural)]
pub struct Region {
    pub start_line: u32,
    pub start_col: u16,
    pub end_line: u32,
    pub end_col: u16,
}

/// A value together with the region of source text it was read from.
#[derive(Debug, Clone, Copy, PartialEq, Eq)]
pub struct Located<T> {
    pub region: Region,
    pub value: T,
}

impl Region {
    /// The region that lies on one line, between two columns.
    pub open spec fn on_line(line: u32, start_col: u16, end_col: u16) -> Region {
        Region { start_line: line, start_col, end_line: line, end_col }
    }
}

} // verus!
