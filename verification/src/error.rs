use vstd::prelude::*;

verus! {

/// Error for an invalid offset pair or index: a precondition violation that
/// callers are expected to prevent rather than recover from.
#[derive(Debug, Clone, Copy, PartialEq, Eq)]
pub enum RangeError {
    /// A history slice request whose offsets do not fit the log:
    /// `start > end`, or an offset at or past `len`.
    BadSlice { start: usize, end: usize, len: usize },
    /// An index at or past the length of the indexed collection.
    BadIndex { index: usize, len: usize },
}

} // verus!
