//! The ways in which an operation on a permutation can fail.

use vstd::prelude::*;

verus! {

/// Why a permutation refused an operation.
#[derive(Clone, Copy, Debug, PartialEq, Eq, Structural)]
pub enum PermError {
    /// The number of full rounds is odd, so it cannot be split into two
    /// equal halves around the partial rounds.
    FullRoundsOdd,
    /// The input buffer cannot take what was offered.
    InputFull,
    /// A round asked for a constant after the last one.
    NoMoreConstants,
}

} // verus!
