//! The error values that the fallible operations return.
use vstd::prelude::*;

verus! {

/// An out-of-bounds index, naming the axis (or both axes) that failed.
#[derive(Clone, Copy, Debug, PartialEq, Eq, Structural)]
pub enum IndexError {
    Row(usize),
    Column(usize),
    Both(usize, usize),
}

/// An invalid shape argument to a constructor, resize, insert or join,
/// naming the axis (or both axes) that could not be reconciled.
#[derive(Clone, Copy, Debug, PartialEq, Eq, Structural)]
pub enum SizingError {
    Row(usize),
    Column(usize),
    Both(usize, usize),
}

/// Why a minor could not be computed: the matrix is not square, or the
/// removed position is out of bounds.
#[derive(Clone, Copy, Debug, PartialEq, Eq, Structural)]
pub enum MinorError {
    NotSquare,
    BoundsError(IndexError),
}

/// Why a matrix could not be inverted.
#[derive(Clone, Copy, Debug, PartialEq, Eq, Structural)]
pub enum InversionError {
    NotSquare,
    InvalidDeterminant,
}

} // verus!
