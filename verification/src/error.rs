//! Why a request for a position table is turned down.

use vstd::prelude::*;

verus! {

/// The precondition of a position table that the inputs fail to meet.
#[derive(Clone, Copy, Debug, PartialEq, Eq, Structural)]
pub enum PosIdsError {
    /// The patch edge length is zero, so no patch grid exists.
    ZeroPatchSize,
    /// The pixel height or width is not a whole number of patches.
    NonDivisible,
    /// The patch grid has an odd number of rows or columns, so it does not
    /// split into 2×2 merge blocks.
    OddPatchGrid,
    /// A vision axis has length zero although text follows the vision block:
    /// the text would have no vision position to continue from.
    EmptyVisionBeforeText,
    /// The table would be longer than a table can be, or hold a position
    /// that does not fit in 32 bits.
    TooLarge,
}

} // verus!
