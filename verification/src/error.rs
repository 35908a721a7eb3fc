//! Errors surfaced by the core pipeline.

use vstd::prelude::*;

verus! {

/// Why an averaging or comparison request was rejected.
#[derive(Clone, Copy, PartialEq, Eq, Structural, Debug)]
pub enum CoreError {
    /// A segment count is zero or exceeds the raster dimension it divides,
    /// which would give some block a zero pixel count.
    InvalidGridDimensions,
    /// A grid handed to the lane-parallel comparator has a block count that
    /// is not a multiple of the lane width.
    LaneAlignmentError,
}

} // verus!
