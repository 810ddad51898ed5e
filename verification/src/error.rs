//! Errors reported by the coder.
use vstd::prelude::*;

verus! {

/// Why a coding step could not be carried out.
#[derive(Debug, Clone, Copy, PartialEq, Eq, Structural)]
pub enum RangeCoderError {
    /// Adding `add_val` to `lower_bound` does not fit in 64 bits.
    LowerBoundOverflow { lower_bound: u64, add_val: u64, range: u64 },
    /// The interval `[lower_bound, lower_bound + range)` has no upper end in
    /// 64 bits, or it is empty.
    UpperBoundOverflow { lower_bound: u64, range: u64 },
    /// The code stream cannot have been produced by an encoder.
    MalformedStream,
}

} // verus!
