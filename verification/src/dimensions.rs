//! Shapes: what a shape is, and the three kinds of single axis.

use crate::error::Error;
use std::ops::Range;
use vstd::prelude::*;

verus! {

/// A shape: one axis of an array, or all of them.
///
/// A shape has a size, the number of coordinates within its bounds, and maps
/// each such coordinate to an offset, its position in row-major order. The
/// offsets of a shape are exactly the numbers below its size, each the offset
/// of one coordinate, and they grow as the coordinates do.
///
/// The size of a shape is a natural number, which need not fit in `usize`.
/// `size` and `offset` are for the shapes whose size does, and `checked_size`
/// tells which these are; `check` is for every shape.
pub trait Dimensions: Sized {
    /// A coordinate in this shape.
    type Index;

    /// The number of coordinates within bounds.
    spec fn spec_size(&self) -> nat;

    /// Whether `index` is within bounds along every axis.
    spec fn in_bounds(&self, index: Self::Index) -> bool;

    /// The position of `index` in row-major order. It means something only
    /// for an `index` within bounds.
    spec fn spec_offset(&self, index: Self::Index) -> nat;

    /// The failure that an `index` out of bounds is answered with: that of the
    /// first axis, in the order of the axes, that rejects its coordinate.
    spec fn fault(&self, index: Self::Index) -> Error;

    /// Whether `a` comes before `b` in row-major order: whether, at the first
    /// axis where the two differ, the coordinate of `a` is the lower.
    spec fn precedes(&self, a: Self::Index, b: Self::Index) -> bool;

    /// The offset of a coordinate within bounds is below the size.
    proof fn lemma_offset_in_range(&self, index: Self::Index)
        requires
            self.in_bounds(index),
        ensures
            self.spec_offset(index) < self.spec_size(),
    ;

    /// No two coordinates within bounds share an offset.
    proof fn lemma_offset_injective(&self, a: Self::Index, b: Self::Index)
        requires
            self.in_bounds(a),
            self.in_bounds(b),
            self.spec_offset(a) == self.spec_offset(b),
        ensures
            a == b,
    ;

    /// Offsets are ordered as their coordinates are in row-major order.
    proof fn lemma_offset_ordered(&self, a: Self::Index, b: Self::Index)
        requires
            self.in_bounds(a),
            self.in_bounds(b),
        ensures
            self.precedes(a, b) <==> self.spec_offset(a) < self.spec_offset(b),
    ;

    /// Every number below the size is the offset of a coordinate within
    /// bounds, which this returns.
    proof fn lemma_offset_onto(&self, k: nat) -> (index: Self::Index)
        requires
            k < self.spec_size(),
        ensures
            self.in_bounds(index),
            self.spec_offset(index) == k,
    ;

    /// The size of this shape, or `None` where it does not fit in `usize`.
    fn checked_size(&self) -> (n: Option<usize>)
        ensures
            n matches Some(s) ==> s == self.spec_size(),
            n is None ==> self.spec_size() > usize::MAX,
    ;

    /// The number of elements in an array of this shape.
    fn size(&self) -> (n: usize)
        requires
            self.spec_size() <= usize::MAX,
        ensures
            n == self.spec_size(),
    {
        self.checked_size().unwrap()
    }

    /// Validates a coordinate: reports the axis that rejects it, if there is
    /// one.
    fn check(&self, index: &Self::Index) -> (r: Result<(), Error>)
        ensures
            r is Ok <==> self.in_bounds(*index),
            r matches Err(e) ==> e == self.fault(*index),
    ;

    /// Converts a coordinate to its offset, or reports the axis that rejects
    /// it.
    fn offset(&self, index: Self::Index) -> (r: Result<usize, Error>)
        requires
            self.spec_size() <= usize::MAX,
        ensures
            r is Ok <==> self.in_bounds(index),
            r matches Ok(o) ==> o == self.spec_offset(index) && o < self.spec_size(),
            r matches Err(e) ==> e == self.fault(index),
    ;

    /// Whether the two shapes are the same: the same kind of axes with the
    /// same bounds, in the same order.
    fn same(&self, other: &Self) -> (r: bool)
        ensures
            r == (*self == *other),
    ;

    /// A copy of this shape.
    fn duplicate(&self) -> (r: Self)
        ensures
            r == *self,
    ;
}

/// An axis given by its extent: the coordinates are `0..n`.
impl Dimensions for usize {
    type Index = usize;

    open spec fn spec_size(&self) -> nat {
        *self as nat
    }

    open spec fn in_bounds(&self, index: usize) -> bool {
        index < *self
    }

    open spec fn spec_offset(&self, index: usize) -> nat {
        index as nat
    }

    open spec fn fault(&self, index: usize) -> Error {
        Error::IndexOutOfBounds { start: 0, end: *self as i128, index: index as i128 }
    }

    open spec fn precedes(&self, a: usize, b: usize) -> bool {
        a < b
    }

    proof fn lemma_offset_in_range(&self, index: usize) {
    }

    proof fn lemma_offset_injective(&self, a: usize, b: usize) {
    }

    proof fn lemma_offset_ordered(&self, a: usize, b: usize) {
    }

    proof fn lemma_offset_onto(&self, k: nat) -> (index: usize) {
        k as usize
    }

    fn checked_size(&self) -> (n: Option<usize>) {
        Some(*self)
    }

    fn size(&self) -> (n: usize) {
        *self
    }

    fn check(&self, index: &usize) -> (r: Result<(), Error>) {
        if *index < *self {
            Ok(())
        } else {
            Err(Error::IndexOutOfBounds { start: 0, end: *self as i128, index: *index as i128 })
        }
    }

    fn offset(&self, index: usize) -> (r: Result<usize, Error>) {
        self.check(&index)?;
        Ok(index)
    }

    fn same(&self, other: &Self) -> (r: bool) {
        *self == *other
    }

    fn duplicate(&self) -> (r: Self) {
        *self
    }
}

/// An axis given by a range of unsigned coordinates, `start..end`. A range
/// that is empty or inverted is an axis of size zero, with no coordinate
/// within bounds.
impl Dimensions for Range<usize> {
    type Index = usize;

    open spec fn spec_size(&self) -> nat {
        if self.start <= self.end {
            (self.end - self.start) as nat
        } else {
            0
        }
    }

    open spec fn in_bounds(&self, index: usize) -> bool {
        self.start <= index < self.end
    }

    open spec fn spec_offset(&self, index: usize) -> nat {
        (index - self.start) as nat
    }

    open spec fn fault(&self, index: usize) -> Error {
        Error::IndexOutOfBounds {
            start: self.start as i128,
            end: self.end as i128,
            index: index as i128,
        }
    }

    open spec fn precedes(&self, a: usize, b: usize) -> bool {
        a < b
    }

    proof fn lemma_offset_in_range(&self, index: usize) {
    }

    proof fn lemma_offset_injective(&self, a: usize, b: usize) {
    }

    proof fn lemma_offset_ordered(&self, a: usize, b: usize) {
    }

    proof fn lemma_offset_onto(&self, k: nat) -> (index: usize) {
        (self.start + k) as usize
    }

    fn checked_size(&self) -> (n: Option<usize>) {
        Some(self.size())
    }

    fn size(&self) -> (n: usize) {
        if self.start <= self.end {
            self.end - self.start
        } else {
            0
        }
    }

    fn check(&self, index: &usize) -> (r: Result<(), Error>) {
        if self.start <= *index && *index < self.end {
            Ok(())
        } else {
            Err(
                Error::IndexOutOfBounds {
                    start: self.start as i128,
                    end: self.end as i128,
                    index: *index as i128,
                },
            )
        }
    }

    fn offset(&self, index: usize) -> (r: Result<usize, Error>) {
        self.check(&index)?;
        Ok(index - self.start)
    }

    fn same(&self, other: &Self) -> (r: bool) {
        self.start == other.start && self.end == other.end
    }

    fn duplicate(&self) -> (r: Self) {
        self.start..self.end
    }
}

/// An axis given by a range of signed coordinates, `start..end`, either of
/// which may be negative. A range that is empty or inverted is an axis of
/// size zero, with no coordinate within bounds.
impl Dimensions for Range<i32> {
    type Index = i32;

    open spec fn spec_size(&self) -> nat {
        if self.start <= self.end {
            (self.end - self.start) as nat
        } else {
            0
        }
    }

    open spec fn in_bounds(&self, index: i32) -> bool {
        self.start <= index < self.end
    }

    open spec fn spec_offset(&self, index: i32) -> nat {
        (index - self.start) as nat
    }

    open spec fn fault(&self, index: i32) -> Error {
        Error::IndexOutOfBounds {
            start: self.start as i128,
            end: self.end as i128,
            index: index as i128,
        }
    }

    open spec fn precedes(&self, a: i32, b: i32) -> bool {
        a < b
    }

    proof fn lemma_offset_in_range(&self, index: i32) {
    }

    proof fn lemma_offset_injective(&self, a: i32, b: i32) {
    }

    proof fn lemma_offset_ordered(&self, a: i32, b: i32) {
    }

    proof fn lemma_offset_onto(&self, k: nat) -> (index: i32) {
        (self.start + k) as i32
    }

    fn checked_size(&self) -> (n: Option<usize>) {
        Some(self.size())
    }

    fn size(&self) -> (n: usize) {
        if self.start <= self.end {
            (self.end as i64 - self.start as i64) as usize
        } else {
            0
        }
    }

    fn check(&self, index: &i32) -> (r: Result<(), Error>) {
        if self.start <= *index && *index < self.end {
            Ok(())
        } else {
            Err(
                Error::IndexOutOfBounds {
                    start: self.start as i128,
                    end: self.end as i128,
                    index: *index as i128,
                },
            )
        }
    }

    fn offset(&self, index: i32) -> (r: Result<usize, Error>) {
        self.check(&index)?;
        Ok((index as i64 - self.start as i64) as usize)
    }

    fn same(&self, other: &Self) -> (r: bool) {
        self.start == other.start && self.end == other.end
    }

    fn duplicate(&self) -> (r: Self) {
        self.start..self.end
    }
}

} // verus!
