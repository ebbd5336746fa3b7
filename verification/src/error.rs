//! The error taxonomy: every fallible operation returns one of these values;
//! nothing on the hot path panics.

use vstd::prelude::*;

verus! {

/// Result alias used by every fallible operation of the crate.
pub type ArrResult<T> = Result<T, Error>;

#[derive(Debug, PartialEq)]
pub enum Error {
    /// The two shapes have, at some axis, unequal lengths neither of which
    /// is 1 nor absent.
    Broadcast { dims1: Vec<usize>, dims2: Vec<usize> },
    /// A shape was constructed from an empty dimension list.
    ShapeZeroDims,
    /// A shape was constructed with an axis of length zero.
    ShapeZeroLenDim { dims: Vec<usize> },
    /// The shape's volume does not match the element buffer's length.
    ShapeDataMisalignment { volume: usize, len: usize },
    /// The index along the outermost axis is past its length.
    DerankIndexOutOfBounds { len: usize, index: usize },
    /// A single value was read from an array of more than one dimension.
    ReadNDim { ndims: usize },
    /// A rank-1 view cannot be deranked further.
    Derank1D,
    /// A slice with `start == stop` selects nothing.
    SliceZeroWidth { index: usize },
    /// A slice whose `stop` lies before its `start`.
    SliceStopBeforeStart { start: usize, stop: usize },
    /// A slice whose `stop` lies past the axis length.
    SliceStopPastEnd { stop: usize, len: usize },
    /// An underlying I/O failure, reported by the caller that did the I/O.
    IdxIO { message: String },
    /// The byte stream ended before the announced content.
    IdxReadUnaccepted,
    /// The byte sink stopped accepting bytes.
    IdxWriteUnaccepted,
    /// The stream's element-type tag differs from the requested one.
    IdxMismatchDTypeIDs { expected: u8, actual: u8 },
    /// The stream's rank differs from the expected one.
    IdxMismatchNDims { expected: u8, actual: u8 },
}

} // verus!
