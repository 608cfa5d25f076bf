//! One axis whose kind is chosen at run time.

use crate::dimensions::Dimensions;
use crate::error::Error;
use vstd::prelude::*;

verus! {

/// One axis of any of the three kinds. Its coordinates are of one type
/// whatever the kind, so that axes of different kinds can stand in one list;
/// a negative coordinate along an axis without negative coordinates is out of
/// bounds like any other that the axis does not have.
#[derive(Debug, Clone, Copy, PartialEq, Eq, Structural)]
pub enum Axis {
    /// The coordinates `0..n`.
    FixedExtent(usize),
    /// The unsigned coordinates `start..end`, given as `start` and `end`.
    ZeroBasedRange(usize, usize),
    /// The signed coordinates `start..end`, given as `start` and `end`.
    SignedRange(i32, i32),
}

impl Axis {
    /// The lowest coordinate of the axis.
    pub open spec fn spec_start(&self) -> int {
        match *self {
            Axis::FixedExtent(_) => 0,
            Axis::ZeroBasedRange(start, _) => start as int,
            Axis::SignedRange(start, _) => start as int,
        }
    }

    /// The coordinate that follows the highest coordinate of the axis.
    pub open spec fn spec_end(&self) -> int {
        match *self {
            Axis::FixedExtent(n) => n as int,
            Axis::ZeroBasedRange(_, end) => end as int,
            Axis::SignedRange(_, end) => end as int,
        }
    }

    /// The lowest coordinate of the axis.
    pub fn start(&self) -> (s: i128)
        ensures
            s == self.spec_start(),
    {
        match *self {
            Axis::FixedExtent(_) => 0,
            Axis::ZeroBasedRange(start, _) => start as i128,
            Axis::SignedRange(start, _) => start as i128,
        }
    }

    /// The coordinate that follows the highest coordinate of the axis.
    pub fn end(&self) -> (e: i128)
        ensures
            e == self.spec_end(),
    {
        match *self {
            Axis::FixedExtent(n) => n as i128,
            Axis::ZeroBasedRange(_, end) => end as i128,
            Axis::SignedRange(_, end) => end as i128,
        }
    }
}

/// An axis is a shape of the size of its range. A range that is empty or
/// inverted is an axis of size zero, with no coordinate within bounds.
impl Dimensions for Axis {
    type Index = i128;

    open spec fn spec_size(&self) -> nat {
        if self.spec_start() <= self.spec_end() {
            (self.spec_end() - self.spec_start()) as nat
        } else {
            0
        }
    }

    open spec fn in_bounds(&self, index: i128) -> bool {
        self.spec_start() <= index < self.spec_end()
    }

    open spec fn spec_offset(&self, index: i128) -> nat {
        (index - self.spec_start()) as nat
    }

    open spec fn fault(&self, index: i128) -> Error {
        Error::IndexOutOfBounds {
            start: self.spec_start() as i128,
            end: self.spec_end() as i128,
            index,
        }
    }

    open spec fn precedes(&self, a: i128, b: i128) -> bool {
        a < b
    }

    proof fn lemma_offset_in_range(&self, index: i128) {
    }

    proof fn lemma_offset_injective(&self, a: i128, b: i128) {
    }

    proof fn lemma_offset_ordered(&self, a: i128, b: i128) {
    }

    proof fn lemma_offset_onto(&self, k: nat) -> (index: i128) {
        (self.spec_start() + k) as i128
    }

    fn checked_size(&self) -> (n: Option<usize>) {
        Some(self.size())
    }

    fn size(&self) -> (n: usize) {
        let start = self.start();
        let end = self.end();
        if start <= end {
            (end - start) as usize
        } else {
            0
        }
    }

    fn check(&self, index: &i128) -> (r: Result<(), Error>) {
        let start = self.start();
        let end = self.end();
        if start <= *index && *index < end {
            Ok(())
        } else {
            Err(Error::IndexOutOfBounds { start, end, index: *index })
        }
    }

    fn offset(&self, index: i128) -> (r: Result<usize, Error>) {
        self.check(&index)?;
        Ok((index - self.start()) as usize)
    }

    fn same(&self, other: &Self) -> (r: bool) {
        match (*self, *other) {
            (Axis::FixedExtent(n), Axis::FixedExtent(m)) => n == m,
            (Axis::ZeroBasedRange(s1, e1), Axis::ZeroBasedRange(s2, e2)) => s1 == s2 && e1 == e2,
            (Axis::SignedRange(s1, e1), Axis::SignedRange(s2, e2)) => s1 == s2 && e1 == e2,
            _ => false,
        }
    }

    fn duplicate(&self) -> (r: Self) {
        *self
    }
}

} // verus!
