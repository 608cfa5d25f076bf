//! The two ways in which an operation of this library can fail.

use vstd::prelude::*;

verus! {

/// A failed operation. Nothing is ever truncated, padded or clamped instead.
#[derive(Debug, Clone, Copy, PartialEq, Eq, Structural)]
pub enum Error {
    /// The number of elements handed to a constructor is not the size of the
    /// shape.
    ShapeMismatch,
    /// A coordinate lies outside `start..end` along one axis. The bounds are
    /// those of the axis that rejected `index`; an axis given by its extent
    /// alone starts at zero.
    IndexOutOfBounds { start: i128, end: i128, index: i128 },
}

} // verus!
