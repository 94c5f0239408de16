//! Errors that the filter and its bitmap report.
use vstd::prelude::*;

verus! {

/// What can go wrong with a filter or its bitmap.
#[derive(Debug, Clone, Copy, PartialEq, Eq, Structural)]
pub enum FilterError {
    /// The counter store cannot back a filter of the requested size.
    Storage,
    /// A requested flush of the counter store failed.
    Io,
    /// A slot index at or past the end of a bitmap.
    IndexOutOfRange { index: usize, size: usize },
}

} // verus!
