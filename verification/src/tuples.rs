//! Composite shapes of two to seven axes, written as tuples.
//!
//! The shape `(a, b)` puts `b` last: its offsets are those of `a`, each
//! scaled by the size of `b`, plus those of `b`. A longer tuple is its leading
//! axes taken as one shape, followed by its last axis, and every proof about
//! it goes back to the pair. An axis of a tuple may itself be a tuple.
//!
//! A coordinate is validated along every axis, in the order of the axes,
//! before any offset is computed: a tuple of which one axis has no coordinate
//! has size zero whatever the sizes of its other axes, which need not fit in
//! `usize`.

use crate::dimensions::Dimensions;
use crate::error::Error;
use crate::row_major::{
    extend_size, lemma_factors_fit, lemma_scale_stride, lemma_step_in_range,
    lemma_step_injective, lemma_step_onto, lemma_step_ordered, stands_for,
};
use vstd::prelude::*;

verus! {

impl<A: Dimensions, B: Dimensions> Dimensions for (A, B) {
    type Index = (A::Index, B::Index);

    open spec fn spec_size(&self) -> nat {
        self.0.spec_size() * self.1.spec_size()
    }

    open spec fn in_bounds(&self, index: Self::Index) -> bool {
        &&& self.0.in_bounds(index.0)
        &&& self.1.in_bounds(index.1)
    }

    open spec fn spec_offset(&self, index: Self::Index) -> nat {
        self.0.spec_offset(index.0) * self.1.spec_size() + self.1.spec_offset(index.1)
    }

    open spec fn fault(&self, index: Self::Index) -> Error {
        if !self.0.in_bounds(index.0) {
            self.0.fault(index.0)
        } else {
            self.1.fault(index.1)
        }
    }

    open spec fn precedes(&self, a: Self::Index, b: Self::Index) -> bool {
        self.0.precedes(a.0, b.0) || (a.0 == b.0 && self.1.precedes(a.1, b.1))
    }

    proof fn lemma_offset_in_range(&self, index: Self::Index) {
        self.0.lemma_offset_in_range(index.0);
        self.1.lemma_offset_in_range(index.1);
        lemma_step_in_range(
            self.0.spec_offset(index.0),
            self.1.spec_offset(index.1),
            self.0.spec_size(),
            self.1.spec_size(),
        );
    }

    proof fn lemma_offset_injective(&self, a: Self::Index, b: Self::Index) {
        self.1.lemma_offset_in_range(a.1);
        self.1.lemma_offset_in_range(b.1);
        lemma_step_injective(
            self.0.spec_offset(a.0),
            self.1.spec_offset(a.1),
            self.0.spec_offset(b.0),
            self.1.spec_offset(b.1),
            self.1.spec_size(),
        );
        self.0.lemma_offset_injective(a.0, b.0);
        self.1.lemma_offset_injective(a.1, b.1);
    }

    proof fn lemma_offset_ordered(&self, a: Self::Index, b: Self::Index) {
        self.1.lemma_offset_in_range(a.1);
        self.1.lemma_offset_in_range(b.1);
        lemma_step_ordered(
            self.0.spec_offset(a.0),
            self.1.spec_offset(a.1),
            self.0.spec_offset(b.0),
            self.1.spec_offset(b.1),
            self.1.spec_size(),
        );
        self.0.lemma_offset_ordered(a.0, b.0);
        self.1.lemma_offset_ordered(a.1, b.1);
        if self.0.spec_offset(a.0) == self.0.spec_offset(b.0) {
            self.0.lemma_offset_injective(a.0, b.0);
        }
    }

    proof fn lemma_offset_onto(&self, k: nat) -> (index: Self::Index) {
        lemma_step_onto(k, self.0.spec_size(), self.1.spec_size());
        let high = self.0.lemma_offset_onto(k / self.1.spec_size());
        let low = self.1.lemma_offset_onto(k % self.1.spec_size());
        (high, low)
    }

    fn checked_size(&self) -> (n: Option<usize>) {
        let n = extend_size(self.0.checked_size(), self.1.checked_size());
        assert(stands_for(n, self.spec_size()));
        n
    }

    fn check(&self, index: &Self::Index) -> (r: Result<(), Error>) {
        self.0.check(&index.0)?;
        self.1.check(&index.1)
    }

    fn offset(&self, index: Self::Index) -> (r: Result<usize, Error>) {
        self.check(&index)?;
        proof {
            lemma_pair_fits(*self, index);
            self.lemma_offset_in_range(index);
        }
        let o0 = self.0.offset(index.0)?;
        let o1 = self.1.offset(index.1)?;
        Ok(o0 * self.1.size() + o1)
    }

    fn same(&self, other: &Self) -> (r: bool) {
        self.0.same(&other.0) && self.1.same(&other.1)
    }

    fn duplicate(&self) -> (r: Self) {
        (self.0.duplicate(), self.1.duplicate())
    }
}

impl<A: Dimensions, B: Dimensions, C: Dimensions> Dimensions for (A, B, C) {
    type Index = (A::Index, B::Index, C::Index);

    open spec fn spec_size(&self) -> nat {
        self.0.spec_size() * self.1.spec_size() * self.2.spec_size()
    }

    open spec fn in_bounds(&self, index: Self::Index) -> bool {
        &&& self.0.in_bounds(index.0)
        &&& self.1.in_bounds(index.1)
        &&& self.2.in_bounds(index.2)
    }

    open spec fn spec_offset(&self, index: Self::Index) -> nat {
        (self.0.spec_offset(index.0) * self.1.spec_size() + self.1.spec_offset(index.1))
            * self.2.spec_size() + self.2.spec_offset(index.2)
    }

    open spec fn fault(&self, index: Self::Index) -> Error {
        if !self.0.in_bounds(index.0) {
            self.0.fault(index.0)
        } else if !self.1.in_bounds(index.1) {
            self.1.fault(index.1)
        } else {
            self.2.fault(index.2)
        }
    }

    open spec fn precedes(&self, a: Self::Index, b: Self::Index) -> bool {
        self.0.precedes(a.0, b.0) || (a.0 == b.0 && (
            self.1.precedes(a.1, b.1) || (a.1 == b.1 && self.2.precedes(a.2, b.2))
        ))
    }

    proof fn lemma_offset_in_range(&self, index: Self::Index) {
        ((self.0, self.1), self.2).lemma_offset_in_range(((index.0, index.1), index.2));
    }

    proof fn lemma_offset_injective(&self, a: Self::Index, b: Self::Index) {
        ((self.0, self.1), self.2).lemma_offset_injective(((a.0, a.1), a.2), ((b.0, b.1), b.2));
    }

    proof fn lemma_offset_ordered(&self, a: Self::Index, b: Self::Index) {
        ((self.0, self.1), self.2).lemma_offset_ordered(((a.0, a.1), a.2), ((b.0, b.1), b.2));
    }

    proof fn lemma_offset_onto(&self, k: nat) -> (index: Self::Index) {
        let (lead, last) = ((self.0, self.1), self.2).lemma_offset_onto(k);
        (lead.0, lead.1, last)
    }

    fn checked_size(&self) -> (n: Option<usize>) {
        let n = extend_size(self.0.checked_size(), self.1.checked_size());
        assert(stands_for(n, (self.0, self.1).spec_size()));
        let n = extend_size(n, self.2.checked_size());
        assert(stands_for(n, self.spec_size()));
        n
    }

    fn check(&self, index: &Self::Index) -> (r: Result<(), Error>) {
        self.0.check(&index.0)?;
        self.1.check(&index.1)?;
        self.2.check(&index.2)
    }

    fn offset(&self, index: Self::Index) -> (r: Result<usize, Error>) {
        self.check(&index)?;
        proof {
            lemma_triple_fits(*self, index);
            (self.0, self.1).lemma_offset_in_range((index.0, index.1));
            self.lemma_offset_in_range(index);
        }
        let o0 = self.0.offset(index.0)?;
        let o1 = self.1.offset(index.1)?;
        let o2 = self.2.offset(index.2)?;
        let o = o0 * self.1.size() + o1;
        Ok(o * self.2.size() + o2)
    }

    fn same(&self, other: &Self) -> (r: bool) {
        self.0.same(&other.0) && self.1.same(&other.1) && self.2.same(&other.2)
    }

    fn duplicate(&self) -> (r: Self) {
        (self.0.duplicate(), self.1.duplicate(), self.2.duplicate())
    }
}

impl<A: Dimensions, B: Dimensions, C: Dimensions, D: Dimensions> Dimensions for (A, B, C, D) {
    type Index = (A::Index, B::Index, C::Index, D::Index);

    open spec fn spec_size(&self) -> nat {
        self.0.spec_size() * self.1.spec_size() * self.2.spec_size() * self.3.spec_size()
    }

    open spec fn in_bounds(&self, index: Self::Index) -> bool {
        &&& self.0.in_bounds(index.0)
        &&& self.1.in_bounds(index.1)
        &&& self.2.in_bounds(index.2)
        &&& self.3.in_bounds(index.3)
    }

    open spec fn spec_offset(&self, index: Self::Index) -> nat {
        ((self.0.spec_offset(index.0) * self.1.spec_size() + self.1.spec_offset(index.1))
            * self.2.spec_size() + self.2.spec_offset(index.2))
            * self.3.spec_size() + self.3.spec_offset(index.3)
    }

    open spec fn fault(&self, index: Self::Index) -> Error {
        if !self.0.in_bounds(index.0) {
            self.0.fault(index.0)
        } else if !self.1.in_bounds(index.1) {
            self.1.fault(index.1)
        } else if !self.2.in_bounds(index.2) {
            self.2.fault(index.2)
        } else {
            self.3.fault(index.3)
        }
    }

    open spec fn precedes(&self, a: Self::Index, b: Self::Index) -> bool {
        self.0.precedes(a.0, b.0) || (a.0 == b.0 && (
            self.1.precedes(a.1, b.1) || (a.1 == b.1 && (
                self.2.precedes(a.2, b.2) || (a.2 == b.2 && self.3.precedes(a.3, b.3))
            ))
        ))
    }

    proof fn lemma_offset_in_range(&self, index: Self::Index) {
        ((self.0, self.1, self.2), self.3).lemma_offset_in_range(
            ((index.0, index.1, index.2), index.3),
        );
    }

    proof fn lemma_offset_injective(&self, a: Self::Index, b: Self::Index) {
        ((self.0, self.1, self.2), self.3).lemma_offset_injective(
            ((a.0, a.1, a.2), a.3),
            ((b.0, b.1, b.2), b.3),
        );
    }

    proof fn lemma_offset_ordered(&self, a: Self::Index, b: Self::Index) {
        ((self.0, self.1, self.2), self.3).lemma_offset_ordered(
            ((a.0, a.1, a.2), a.3),
            ((b.0, b.1, b.2), b.3),
        );
    }

    proof fn lemma_offset_onto(&self, k: nat) -> (index: Self::Index) {
        let (lead, last) = ((self.0, self.1, self.2), self.3).lemma_offset_onto(k);
        (lead.0, lead.1, lead.2, last)
    }

    fn checked_size(&self) -> (n: Option<usize>) {
        let n = extend_size(self.0.checked_size(), self.1.checked_size());
        assert(stands_for(n, (self.0, self.1).spec_size()));
        let n = extend_size(n, self.2.checked_size());
        assert(stands_for(n, (self.0, self.1, self.2).spec_size()));
        let n = extend_size(n, self.3.checked_size());
        assert(stands_for(n, self.spec_size()));
        n
    }

    fn check(&self, index: &Self::Index) -> (r: Result<(), Error>) {
        self.0.check(&index.0)?;
        self.1.check(&index.1)?;
        self.2.check(&index.2)?;
        self.3.check(&index.3)
    }

    fn offset(&self, index: Self::Index) -> (r: Result<usize, Error>) {
        self.check(&index)?;
        proof {
            lemma_quadruple_fits(*self, index);
            (self.0, self.1).lemma_offset_in_range((index.0, index.1));
            (self.0, self.1, self.2).lemma_offset_in_range((index.0, index.1, index.2));
            self.lemma_offset_in_range(index);
        }
        let o0 = self.0.offset(index.0)?;
        let o1 = self.1.offset(index.1)?;
        let o2 = self.2.offset(index.2)?;
        let o3 = self.3.offset(index.3)?;
        let o = o0 * self.1.size() + o1;
        let o = o * self.2.size() + o2;
        Ok(o * self.3.size() + o3)
    }

    fn same(&self, other: &Self) -> (r: bool) {
        self.0.same(&other.0)
            && self.1.same(&other.1)
            && self.2.same(&other.2)
            && self.3.same(&other.3)
    }

    fn duplicate(&self) -> (r: Self) {
        (self.0.duplicate(), self.1.duplicate(), self.2.duplicate(), self.3.duplicate())
    }
}

impl<
    A: Dimensions,
    B: Dimensions,
    C: Dimensions,
    D: Dimensions,
    E: Dimensions,
> Dimensions for (A, B, C, D, E) {
    type Index = (A::Index, B::Index, C::Index, D::Index, E::Index);

    open spec fn spec_size(&self) -> nat {
        self.0.spec_size()
            * self.1.spec_size()
            * self.2.spec_size()
            * self.3.spec_size()
            * self.4.spec_size()
    }

    open spec fn in_bounds(&self, index: Self::Index) -> bool {
        &&& self.0.in_bounds(index.0)
        &&& self.1.in_bounds(index.1)
        &&& self.2.in_bounds(index.2)
        &&& self.3.in_bounds(index.3)
        &&& self.4.in_bounds(index.4)
    }

    open spec fn spec_offset(&self, index: Self::Index) -> nat {
        (((self.0.spec_offset(index.0) * self.1.spec_size() + self.1.spec_offset(index.1))
            * self.2.spec_size() + self.2.spec_offset(index.2))
            * self.3.spec_size() + self.3.spec_offset(index.3))
            * self.4.spec_size() + self.4.spec_offset(index.4)
    }

    open spec fn fault(&self, index: Self::Index) -> Error {
        if !self.0.in_bounds(index.0) {
            self.0.fault(index.0)
        } else if !self.1.in_bounds(index.1) {
            self.1.fault(index.1)
        } else if !self.2.in_bounds(index.2) {
            self.2.fault(index.2)
        } else if !self.3.in_bounds(index.3) {
            self.3.fault(index.3)
        } else {
            self.4.fault(index.4)
        }
    }

    open spec fn precedes(&self, a: Self::Index, b: Self::Index) -> bool {
        self.0.precedes(a.0, b.0) || (a.0 == b.0 && (
            self.1.precedes(a.1, b.1) || (a.1 == b.1 && (
                self.2.precedes(a.2, b.2) || (a.2 == b.2 && (
                    self.3.precedes(a.3, b.3) || (a.3 == b.3 && self.4.precedes(a.4, b.4))
                ))
            ))
        ))
    }

    proof fn lemma_offset_in_range(&self, index: Self::Index) {
        ((self.0, self.1, self.2, self.3), self.4).lemma_offset_in_range(
            ((index.0, index.1, index.2, index.3), index.4),
        );
    }

    proof fn lemma_offset_injective(&self, a: Self::Index, b: Self::Index) {
        ((self.0, self.1, self.2, self.3), self.4).lemma_offset_injective(
            ((a.0, a.1, a.2, a.3), a.4),
            ((b.0, b.1, b.2, b.3), b.4),
        );
    }

    proof fn lemma_offset_ordered(&self, a: Self::Index, b: Self::Index) {
        ((self.0, self.1, self.2, self.3), self.4).lemma_offset_ordered(
            ((a.0, a.1, a.2, a.3), a.4),
            ((b.0, b.1, b.2, b.3), b.4),
        );
    }

    proof fn lemma_offset_onto(&self, k: nat) -> (index: Self::Index) {
        let (lead, last) = ((self.0, self.1, self.2, self.3), self.4).lemma_offset_onto(k);
        (lead.0, lead.1, lead.2, lead.3, last)
    }

    fn checked_size(&self) -> (n: Option<usize>) {
        let n = extend_size(self.0.checked_size(), self.1.checked_size());
        assert(stands_for(n, (self.0, self.1).spec_size()));
        let n = extend_size(n, self.2.checked_size());
        assert(stands_for(n, (self.0, self.1, self.2).spec_size()));
        let n = extend_size(n, self.3.checked_size());
        assert(stands_for(n, (self.0, self.1, self.2, self.3).spec_size()));
        let n = extend_size(n, self.4.checked_size());
        assert(stands_for(n, self.spec_size()));
        n
    }

    fn check(&self, index: &Self::Index) -> (r: Result<(), Error>) {
        self.0.check(&index.0)?;
        self.1.check(&index.1)?;
        self.2.check(&index.2)?;
        self.3.check(&index.3)?;
        self.4.check(&index.4)
    }

    fn offset(&self, index: Self::Index) -> (r: Result<usize, Error>) {
        self.check(&index)?;
        proof {
            lemma_quintuple_fits(*self, index);
            (self.0, self.1).lemma_offset_in_range((index.0, index.1));
            (self.0, self.1, self.2).lemma_offset_in_range((index.0, index.1, index.2));
            (self.0, self.1, self.2, self.3).lemma_offset_in_range(
                (index.0, index.1, index.2, index.3),
            );
            self.lemma_offset_in_range(index);
        }
        let o0 = self.0.offset(index.0)?;
        let o1 = self.1.offset(index.1)?;
        let o2 = self.2.offset(index.2)?;
        let o3 = self.3.offset(index.3)?;
        let o4 = self.4.offset(index.4)?;
        let o = o0 * self.1.size() + o1;
        let o = o * self.2.size() + o2;
        let o = o * self.3.size() + o3;
        Ok(o * self.4.size() + o4)
    }

    fn same(&self, other: &Self) -> (r: bool) {
        self.0.same(&other.0)
            && self.1.same(&other.1)
            && self.2.same(&other.2)
            && self.3.same(&other.3)
            && self.4.same(&other.4)
    }

    fn duplicate(&self) -> (r: Self) {
        (
            self.0.duplicate(),
            self.1.duplicate(),
            self.2.duplicate(),
            self.3.duplicate(),
            self.4.duplicate(),
        )
    }
}

impl<
    A: Dimensions,
    B: Dimensions,
    C: Dimensions,
    D: Dimensions,
    E: Dimensions,
    F: Dimensions,
> Dimensions for (A, B, C, D, E, F) {
    type Index = (A::Index, B::Index, C::Index, D::Index, E::Index, F::Index);

    open spec fn spec_size(&self) -> nat {
        self.0.spec_size()
            * self.1.spec_size()
            * self.2.spec_size()
            * self.3.spec_size()
            * self.4.spec_size()
            * self.5.spec_size()
    }

    open spec fn in_bounds(&self, index: Self::Index) -> bool {
        &&& self.0.in_bounds(index.0)
        &&& self.1.in_bounds(index.1)
        &&& self.2.in_bounds(index.2)
        &&& self.3.in_bounds(index.3)
        &&& self.4.in_bounds(index.4)
        &&& self.5.in_bounds(index.5)
    }

    open spec fn spec_offset(&self, index: Self::Index) -> nat {
        ((((self.0.spec_offset(index.0) * self.1.spec_size() + self.1.spec_offset(index.1))
            * self.2.spec_size() + self.2.spec_offset(index.2))
            * self.3.spec_size() + self.3.spec_offset(index.3))
            * self.4.spec_size() + self.4.spec_offset(index.4))
            * self.5.spec_size() + self.5.spec_offset(index.5)
    }

    open spec fn fault(&self, index: Self::Index) -> Error {
        if !self.0.in_bounds(index.0) {
            self.0.fault(index.0)
        } else if !self.1.in_bounds(index.1) {
            self.1.fault(index.1)
        } else if !self.2.in_bounds(index.2) {
            self.2.fault(index.2)
        } else if !self.3.in_bounds(index.3) {
            self.3.fault(index.3)
        } else if !self.4.in_bounds(index.4) {
            self.4.fault(index.4)
        } else {
            self.5.fault(index.5)
        }
    }

    open spec fn precedes(&self, a: Self::Index, b: Self::Index) -> bool {
        self.0.precedes(a.0, b.0) || (a.0 == b.0 && (
            self.1.precedes(a.1, b.1) || (a.1 == b.1 && (
                self.2.precedes(a.2, b.2) || (a.2 == b.2 && (
                    self.3.precedes(a.3, b.3) || (a.3 == b.3 && (
                        self.4.precedes(a.4, b.4) || (a.4 == b.4 && self.5.precedes(a.5, b.5))
                    ))
                ))
            ))
        ))
    }

    proof fn lemma_offset_in_range(&self, index: Self::Index) {
        ((self.0, self.1, self.2, self.3, self.4), self.5).lemma_offset_in_range(
            ((index.0, index.1, index.2, index.3, index.4), index.5),
        );
    }

    proof fn lemma_offset_injective(&self, a: Self::Index, b: Self::Index) {
        ((self.0, self.1, self.2, self.3, self.4), self.5).lemma_offset_injective(
            ((a.0, a.1, a.2, a.3, a.4), a.5),
            ((b.0, b.1, b.2, b.3, b.4), b.5),
        );
    }

    proof fn lemma_offset_ordered(&self, a: Self::Index, b: Self::Index) {
        ((self.0, self.1, self.2, self.3, self.4), self.5).lemma_offset_ordered(
            ((a.0, a.1, a.2, a.3, a.4), a.5),
            ((b.0, b.1, b.2, b.3, b.4), b.5),
        );
    }

    proof fn lemma_offset_onto(&self, k: nat) -> (index: Self::Index) {
        let (lead, last) = ((self.0, self.1, self.2, self.3, self.4), self.5).lemma_offset_onto(k);
        (lead.0, lead.1, lead.2, lead.3, lead.4, last)
    }

    fn checked_size(&self) -> (n: Option<usize>) {
        let n = extend_size(self.0.checked_size(), self.1.checked_size());
        assert(stands_for(n, (self.0, self.1).spec_size()));
        let n = extend_size(n, self.2.checked_size());
        assert(stands_for(n, (self.0, self.1, self.2).spec_size()));
        let n = extend_size(n, self.3.checked_size());
        assert(stands_for(n, (self.0, self.1, self.2, self.3).spec_size()));
        let n = extend_size(n, self.4.checked_size());
        assert(stands_for(n, (self.0, self.1, self.2, self.3, self.4).spec_size()));
        let n = extend_size(n, self.5.checked_size());
        assert(stands_for(n, self.spec_size()));
        n
    }

    fn check(&self, index: &Self::Index) -> (r: Result<(), Error>) {
        self.0.check(&index.0)?;
        self.1.check(&index.1)?;
        self.2.check(&index.2)?;
        self.3.check(&index.3)?;
        self.4.check(&index.4)?;
        self.5.check(&index.5)
    }

    fn offset(&self, index: Self::Index) -> (r: Result<usize, Error>) {
        self.check(&index)?;
        proof {
            lemma_sextuple_fits(*self, index);
            (self.0, self.1).lemma_offset_in_range((index.0, index.1));
            (self.0, self.1, self.2).lemma_offset_in_range((index.0, index.1, index.2));
            (self.0, self.1, self.2, self.3).lemma_offset_in_range(
                (index.0, index.1, index.2, index.3),
            );
            (self.0, self.1, self.2, self.3, self.4).lemma_offset_in_range(
                (index.0, index.1, index.2, index.3, index.4),
            );
            self.lemma_offset_in_range(index);
        }
        let o0 = self.0.offset(index.0)?;
        let o1 = self.1.offset(index.1)?;
        let o2 = self.2.offset(index.2)?;
        let o3 = self.3.offset(index.3)?;
        let o4 = self.4.offset(index.4)?;
        let o5 = self.5.offset(index.5)?;
        let o = o0 * self.1.size() + o1;
        let o = o * self.2.size() + o2;
        let o = o * self.3.size() + o3;
        let o = o * self.4.size() + o4;
        Ok(o * self.5.size() + o5)
    }

    fn same(&self, other: &Self) -> (r: bool) {
        self.0.same(&other.0)
            && self.1.same(&other.1)
            && self.2.same(&other.2)
            && self.3.same(&other.3)
            && self.4.same(&other.4)
            && self.5.same(&other.5)
    }

    fn duplicate(&self) -> (r: Self) {
        (
            self.0.duplicate(),
            self.1.duplicate(),
            self.2.duplicate(),
            self.3.duplicate(),
            self.4.duplicate(),
            self.5.duplicate(),
        )
    }
}

impl<
    A: Dimensions,
    B: Dimensions,
    C: Dimensions,
    D: Dimensions,
    E: Dimensions,
    F: Dimensions,
    G: Dimensions,
> Dimensions for (A, B, C, D, E, F, G) {
    type Index = (A::Index, B::Index, C::Index, D::Index, E::Index, F::Index, G::Index);

    open spec fn spec_size(&self) -> nat {
        self.0.spec_size()
            * self.1.spec_size()
            * self.2.spec_size()
            * self.3.spec_size()
            * self.4.spec_size()
            * self.5.spec_size()
            * self.6.spec_size()
    }

    open spec fn in_bounds(&self, index: Self::Index) -> bool {
        &&& self.0.in_bounds(index.0)
        &&& self.1.in_bounds(index.1)
        &&& self.2.in_bounds(index.2)
        &&& self.3.in_bounds(index.3)
        &&& self.4.in_bounds(index.4)
        &&& self.5.in_bounds(index.5)
        &&& self.6.in_bounds(index.6)
    }

    open spec fn spec_offset(&self, index: Self::Index) -> nat {
        (((((self.0.spec_offset(index.0) * self.1.spec_size() + self.1.spec_offset(index.1))
            * self.2.spec_size() + self.2.spec_offset(index.2))
            * self.3.spec_size() + self.3.spec_offset(index.3))
            * self.4.spec_size() + self.4.spec_offset(index.4))
            * self.5.spec_size() + self.5.spec_offset(index.5))
            * self.6.spec_size() + self.6.spec_offset(index.6)
    }

    open spec fn fault(&self, index: Self::Index) -> Error {
        if !self.0.in_bounds(index.0) {
            self.0.fault(index.0)
        } else if !self.1.in_bounds(index.1) {
            self.1.fault(index.1)
        } else if !self.2.in_bounds(index.2) {
            self.2.fault(index.2)
        } else if !self.3.in_bounds(index.3) {
            self.3.fault(index.3)
        } else if !self.4.in_bounds(index.4) {
            self.4.fault(index.4)
        } else if !self.5.in_bounds(index.5) {
            self.5.fault(index.5)
        } else {
            self.6.fault(index.6)
        }
    }

    open spec fn precedes(&self, a: Self::Index, b: Self::Index) -> bool {
        self.0.precedes(a.0, b.0) || (a.0 == b.0 && (
            self.1.precedes(a.1, b.1) || (a.1 == b.1 && (
                self.2.precedes(a.2, b.2) || (a.2 == b.2 && (
                    self.3.precedes(a.3, b.3) || (a.3 == b.3 && (
                        self.4.precedes(a.4, b.4) || (a.4 == b.4 && (
                            self.5.precedes(a.5, b.5) || (a.5 == b.5 && self.6.precedes(a.6, b.6))
                        ))
                    ))
                ))
            ))
        ))
    }

    proof fn lemma_offset_in_range(&self, index: Self::Index) {
        ((self.0, self.1, self.2, self.3, self.4, self.5), self.6).lemma_offset_in_range(
            ((index.0, index.1, index.2, index.3, index.4, index.5), index.6),
        );
    }

    proof fn lemma_offset_injective(&self, a: Self::Index, b: Self::Index) {
        ((self.0, self.1, self.2, self.3, self.4, self.5), self.6).lemma_offset_injective(
            ((a.0, a.1, a.2, a.3, a.4, a.5), a.6),
            ((b.0, b.1, b.2, b.3, b.4, b.5), b.6),
        );
    }

    proof fn lemma_offset_ordered(&self, a: Self::Index, b: Self::Index) {
        ((self.0, self.1, self.2, self.3, self.4, self.5), self.6).lemma_offset_ordered(
            ((a.0, a.1, a.2, a.3, a.4, a.5), a.6),
            ((b.0, b.1, b.2, b.3, b.4, b.5), b.6),
        );
    }

    proof fn lemma_offset_onto(&self, k: nat) -> (index: Self::Index) {
        let (lead, last) = (
            (self.0, self.1, self.2, self.3, self.4, self.5),
            self.6,
        ).lemma_offset_onto(k);
        (lead.0, lead.1, lead.2, lead.3, lead.4, lead.5, last)
    }

    fn checked_size(&self) -> (n: Option<usize>) {
        let n = extend_size(self.0.checked_size(), self.1.checked_size());
        assert(stands_for(n, (self.0, self.1).spec_size()));
        let n = extend_size(n, self.2.checked_size());
        assert(stands_for(n, (self.0, self.1, self.2).spec_size()));
        let n = extend_size(n, self.3.checked_size());
        assert(stands_for(n, (self.0, self.1, self.2, self.3).spec_size()));
        let n = extend_size(n, self.4.checked_size());
        assert(stands_for(n, (self.0, self.1, self.2, self.3, self.4).spec_size()));
        let n = extend_size(n, self.5.checked_size());
        assert(stands_for(n, (self.0, self.1, self.2, self.3, self.4, self.5).spec_size()));
        let n = extend_size(n, self.6.checked_size());
        assert(stands_for(n, self.spec_size()));
        n
    }

    fn check(&self, index: &Self::Index) -> (r: Result<(), Error>) {
        self.0.check(&index.0)?;
        self.1.check(&index.1)?;
        self.2.check(&index.2)?;
        self.3.check(&index.3)?;
        self.4.check(&index.4)?;
        self.5.check(&index.5)?;
        self.6.check(&index.6)
    }

    fn offset(&self, index: Self::Index) -> (r: Result<usize, Error>) {
        self.check(&index)?;
        proof {
            lemma_septuple_fits(*self, index);
            (self.0, self.1).lemma_offset_in_range((index.0, index.1));
            (self.0, self.1, self.2).lemma_offset_in_range((index.0, index.1, index.2));
            (self.0, self.1, self.2, self.3).lemma_offset_in_range(
                (index.0, index.1, index.2, index.3),
            );
            (self.0, self.1, self.2, self.3, self.4).lemma_offset_in_range(
                (index.0, index.1, index.2, index.3, index.4),
            );
            (self.0, self.1, self.2, self.3, self.4, self.5).lemma_offset_in_range(
                (index.0, index.1, index.2, index.3, index.4, index.5),
            );
            self.lemma_offset_in_range(index);
        }
        let o0 = self.0.offset(index.0)?;
        let o1 = self.1.offset(index.1)?;
        let o2 = self.2.offset(index.2)?;
        let o3 = self.3.offset(index.3)?;
        let o4 = self.4.offset(index.4)?;
        let o5 = self.5.offset(index.5)?;
        let o6 = self.6.offset(index.6)?;
        let o = o0 * self.1.size() + o1;
        let o = o * self.2.size() + o2;
        let o = o * self.3.size() + o3;
        let o = o * self.4.size() + o4;
        let o = o * self.5.size() + o5;
        Ok(o * self.6.size() + o6)
    }

    fn same(&self, other: &Self) -> (r: bool) {
        self.0.same(&other.0)
            && self.1.same(&other.1)
            && self.2.same(&other.2)
            && self.3.same(&other.3)
            && self.4.same(&other.4)
            && self.5.same(&other.5)
            && self.6.same(&other.6)
    }

    fn duplicate(&self) -> (r: Self) {
        (
            self.0.duplicate(),
            self.1.duplicate(),
            self.2.duplicate(),
            self.3.duplicate(),
            self.4.duplicate(),
            self.5.duplicate(),
            self.6.duplicate(),
        )
    }
}

/// In a shape of two axes that has a coordinate within bounds and a size
/// that fits in `usize`, the size of each axis fits.
proof fn lemma_pair_fits<A: Dimensions, B: Dimensions>(
    dims: (A, B),
    index: (A::Index, B::Index),
)
    requires
        dims.in_bounds(index),
        dims.spec_size() <= usize::MAX,
    ensures
        dims.0.spec_size() <= usize::MAX,
        dims.1.spec_size() <= usize::MAX,
{
    dims.0.lemma_offset_in_range(index.0);
    dims.1.lemma_offset_in_range(index.1);
    lemma_factors_fit(dims.0.spec_size(), dims.1.spec_size(), usize::MAX as nat);
}

/// In a shape of three axes that has a coordinate within bounds and a size
/// that fits in `usize`, the size of each axis fits, and so does the size of
/// the leading axes, however many are taken.
proof fn lemma_triple_fits<A: Dimensions, B: Dimensions, C: Dimensions>(
    dims: (A, B, C),
    index: (A::Index, B::Index, C::Index),
)
    requires
        dims.in_bounds(index),
        dims.spec_size() <= usize::MAX,
    ensures
        dims.0.spec_size() <= usize::MAX,
        dims.1.spec_size() <= usize::MAX,
        dims.2.spec_size() <= usize::MAX,
        (dims.0, dims.1).spec_size() <= usize::MAX,
{
    let lead = (dims.0, dims.1);
    let lead_index = (index.0, index.1);
    lead.lemma_offset_in_range(lead_index);
    dims.2.lemma_offset_in_range(index.2);
    lemma_factors_fit(lead.spec_size(), dims.2.spec_size(), usize::MAX as nat);
    lemma_pair_fits(lead, lead_index);
}

/// In a shape of four axes that has a coordinate within bounds and a size
/// that fits in `usize`, the size of each axis fits, and so does the size of
/// the leading axes, however many are taken.
proof fn lemma_quadruple_fits<A: Dimensions, B: Dimensions, C: Dimensions, D: Dimensions>(
    dims: (A, B, C, D),
    index: (A::Index, B::Index, C::Index, D::Index),
)
    requires
        dims.in_bounds(index),
        dims.spec_size() <= usize::MAX,
    ensures
        dims.0.spec_size() <= usize::MAX,
        dims.1.spec_size() <= usize::MAX,
        dims.2.spec_size() <= usize::MAX,
        dims.3.spec_size() <= usize::MAX,
        (dims.0, dims.1).spec_size() <= usize::MAX,
        (dims.0, dims.1, dims.2).spec_size() <= usize::MAX,
{
    let lead = (dims.0, dims.1, dims.2);
    let lead_index = (index.0, index.1, index.2);
    lead.lemma_offset_in_range(lead_index);
    dims.3.lemma_offset_in_range(index.3);
    lemma_factors_fit(lead.spec_size(), dims.3.spec_size(), usize::MAX as nat);
    lemma_triple_fits(lead, lead_index);
}

/// In a shape of five axes that has a coordinate within bounds and a size
/// that fits in `usize`, the size of each axis fits, and so does the size of
/// the leading axes, however many are taken.
proof fn lemma_quintuple_fits<
    A: Dimensions,
    B: Dimensions,
    C: Dimensions,
    D: Dimensions,
    E: Dimensions,
>(
    dims: (A, B, C, D, E),
    index: (A::Index, B::Index, C::Index, D::Index, E::Index),
)
    requires
        dims.in_bounds(index),
        dims.spec_size() <= usize::MAX,
    ensures
        dims.0.spec_size() <= usize::MAX,
        dims.1.spec_size() <= usize::MAX,
        dims.2.spec_size() <= usize::MAX,
        dims.3.spec_size() <= usize::MAX,
        dims.4.spec_size() <= usize::MAX,
        (dims.0, dims.1).spec_size() <= usize::MAX,
        (dims.0, dims.1, dims.2).spec_size() <= usize::MAX,
        (dims.0, dims.1, dims.2, dims.3).spec_size() <= usize::MAX,
{
    let lead = (dims.0, dims.1, dims.2, dims.3);
    let lead_index = (index.0, index.1, index.2, index.3);
    lead.lemma_offset_in_range(lead_index);
    dims.4.lemma_offset_in_range(index.4);
    lemma_factors_fit(lead.spec_size(), dims.4.spec_size(), usize::MAX as nat);
    lemma_quadruple_fits(lead, lead_index);
}

/// In a shape of six axes that has a coordinate within bounds and a size
/// that fits in `usize`, the size of each axis fits, and so does the size of
/// the leading axes, however many are taken.
proof fn lemma_sextuple_fits<
    A: Dimensions,
    B: Dimensions,
    C: Dimensions,
    D: Dimensions,
    E: Dimensions,
    F: Dimensions,
>(
    dims: (A, B, C, D, E, F),
    index: (A::Index, B::Index, C::Index, D::Index, E::Index, F::Index),
)
    requires
        dims.in_bounds(index),
        dims.spec_size() <= usize::MAX,
    ensures
        dims.0.spec_size() <= usize::MAX,
        dims.1.spec_size() <= usize::MAX,
        dims.2.spec_size() <= usize::MAX,
        dims.3.spec_size() <= usize::MAX,
        dims.4.spec_size() <= usize::MAX,
        dims.5.spec_size() <= usize::MAX,
        (dims.0, dims.1).spec_size() <= usize::MAX,
        (dims.0, dims.1, dims.2).spec_size() <= usize::MAX,
        (dims.0, dims.1, dims.2, dims.3).spec_size() <= usize::MAX,
        (dims.0, dims.1, dims.2, dims.3, dims.4).spec_size() <= usize::MAX,
{
    let lead = (dims.0, dims.1, dims.2, dims.3, dims.4);
    let lead_index = (index.0, index.1, index.2, index.3, index.4);
    lead.lemma_offset_in_range(lead_index);
    dims.5.lemma_offset_in_range(index.5);
    lemma_factors_fit(lead.spec_size(), dims.5.spec_size(), usize::MAX as nat);
    lemma_quintuple_fits(lead, lead_index);
}

/// In a shape of seven axes that has a coordinate within bounds and a size
/// that fits in `usize`, the size of each axis fits, and so does the size of
/// the leading axes, however many are taken.
proof fn lemma_septuple_fits<
    A: Dimensions,
    B: Dimensions,
    C: Dimensions,
    D: Dimensions,
    E: Dimensions,
    F: Dimensions,
    G: Dimensions,
>(
    dims: (A, B, C, D, E, F, G),
    index: (A::Index, B::Index, C::Index, D::Index, E::Index, F::Index, G::Index),
)
    requires
        dims.in_bounds(index),
        dims.spec_size() <= usize::MAX,
    ensures
        dims.0.spec_size() <= usize::MAX,
        dims.1.spec_size() <= usize::MAX,
        dims.2.spec_size() <= usize::MAX,
        dims.3.spec_size() <= usize::MAX,
        dims.4.spec_size() <= usize::MAX,
        dims.5.spec_size() <= usize::MAX,
        dims.6.spec_size() <= usize::MAX,
        (dims.0, dims.1).spec_size() <= usize::MAX,
        (dims.0, dims.1, dims.2).spec_size() <= usize::MAX,
        (dims.0, dims.1, dims.2, dims.3).spec_size() <= usize::MAX,
        (dims.0, dims.1, dims.2, dims.3, dims.4).spec_size() <= usize::MAX,
        (dims.0, dims.1, dims.2, dims.3, dims.4, dims.5).spec_size() <= usize::MAX,
{
    let lead = (dims.0, dims.1, dims.2, dims.3, dims.4, dims.5);
    let lead_index = (index.0, index.1, index.2, index.3, index.4, index.5);
    lead.lemma_offset_in_range(lead_index);
    dims.6.lemma_offset_in_range(index.6);
    lemma_factors_fit(lead.spec_size(), dims.6.spec_size(), usize::MAX as nat);
    lemma_sextuple_fits(lead, lead_index);
}

/// The offset in a shape of two axes is the sum, over the axes, of the
/// offset along the axis times the sizes of the axes that follow it.
pub proof fn lemma_pair_strides<A: Dimensions, B: Dimensions>(
    dims: (A, B),
    index: (A::Index, B::Index),
)
    ensures
        dims.spec_offset(index) == dims.0.spec_offset(index.0) * dims.1.spec_size()
            + dims.1.spec_offset(index.1),
{
}

/// The offset in a shape of three axes is the sum, over the axes, of the
/// offset along the axis times the sizes of the axes that follow it.
pub proof fn lemma_triple_strides<A: Dimensions, B: Dimensions, C: Dimensions>(
    dims: (A, B, C),
    index: (A::Index, B::Index, C::Index),
)
    ensures
        dims.spec_offset(index) == dims.0.spec_offset(index.0) * (dims.1.spec_size()
                * dims.2.spec_size())
            + dims.1.spec_offset(index.1) * dims.2.spec_size()
            + dims.2.spec_offset(index.2),
{
    lemma_pair_strides((dims.0, dims.1), (index.0, index.1));
    let o0 = dims.0.spec_offset(index.0);
    let o1 = dims.1.spec_offset(index.1);
    let size = dims.2.spec_size();
    let stride0 = dims.1.spec_size();
    lemma_scale_stride(0, o0, stride0, size);
    lemma_scale_stride(o0 * stride0, o1, 1, size);
}

/// The offset in a shape of four axes is the sum, over the axes, of the
/// offset along the axis times the sizes of the axes that follow it.
pub proof fn lemma_quadruple_strides<A: Dimensions, B: Dimensions, C: Dimensions, D: Dimensions>(
    dims: (A, B, C, D),
    index: (A::Index, B::Index, C::Index, D::Index),
)
    ensures
        dims.spec_offset(index) == dims.0.spec_offset(index.0) * (dims.1.spec_size()
                * dims.2.spec_size()
                * dims.3.spec_size())
            + dims.1.spec_offset(index.1) * (dims.2.spec_size()
                * dims.3.spec_size())
            + dims.2.spec_offset(index.2) * dims.3.spec_size()
            + dims.3.spec_offset(index.3),
{
    lemma_triple_strides((dims.0, dims.1, dims.2), (index.0, index.1, index.2));
    let o0 = dims.0.spec_offset(index.0);
    let o1 = dims.1.spec_offset(index.1);
    let o2 = dims.2.spec_offset(index.2);
    let size = dims.3.spec_size();
    let stride0 = dims.1.spec_size() * dims.2.spec_size();
    let stride1 = dims.2.spec_size();
    lemma_scale_stride(0, o0, stride0, size);
    lemma_scale_stride(o0 * stride0, o1, stride1, size);
    lemma_scale_stride(o0 * stride0 + o1 * stride1, o2, 1, size);
}

/// The offset in a shape of five axes is the sum, over the axes, of the
/// offset along the axis times the sizes of the axes that follow it.
pub proof fn lemma_quintuple_strides<
    A: Dimensions,
    B: Dimensions,
    C: Dimensions,
    D: Dimensions,
    E: Dimensions,
>(
    dims: (A, B, C, D, E),
    index: (A::Index, B::Index, C::Index, D::Index, E::Index),
)
    ensures
        dims.spec_offset(index) == dims.0.spec_offset(index.0) * (dims.1.spec_size()
                * dims.2.spec_size()
                * dims.3.spec_size()
                * dims.4.spec_size())
            + dims.1.spec_offset(index.1) * (dims.2.spec_size()
                * dims.3.spec_size()
                * dims.4.spec_size())
            + dims.2.spec_offset(index.2) * (dims.3.spec_size()
                * dims.4.spec_size())
            + dims.3.spec_offset(index.3) * dims.4.spec_size()
            + dims.4.spec_offset(index.4),
{
    lemma_quadruple_strides((dims.0, dims.1, dims.2, dims.3), (index.0, index.1, index.2, index.3));
    let o0 = dims.0.spec_offset(index.0);
    let o1 = dims.1.spec_offset(index.1);
    let o2 = dims.2.spec_offset(index.2);
    let o3 = dims.3.spec_offset(index.3);
    let size = dims.4.spec_size();
    let stride0 = dims.1.spec_size() * dims.2.spec_size() * dims.3.spec_size();
    let stride1 = dims.2.spec_size() * dims.3.spec_size();
    let stride2 = dims.3.spec_size();
    lemma_scale_stride(0, o0, stride0, size);
    lemma_scale_stride(o0 * stride0, o1, stride1, size);
    lemma_scale_stride(o0 * stride0 + o1 * stride1, o2, stride2, size);
    lemma_scale_stride(o0 * stride0 + o1 * stride1 + o2 * stride2, o3, 1, size);
}

/// The offset in a shape of six axes is the sum, over the axes, of the
/// offset along the axis times the sizes of the axes that follow it.
pub proof fn lemma_sextuple_strides<
    A: Dimensions,
    B: Dimensions,
    C: Dimensions,
    D: Dimensions,
    E: Dimensions,
    F: Dimensions,
>(
    dims: (A, B, C, D, E, F),
    index: (A::Index, B::Index, C::Index, D::Index, E::Index, F::Index),
)
    ensures
        dims.spec_offset(index) == dims.0.spec_offset(index.0) * (dims.1.spec_size()
                * dims.2.spec_size()
                * dims.3.spec_size()
                * dims.4.spec_size()
                * dims.5.spec_size())
            + dims.1.spec_offset(index.1) * (dims.2.spec_size()
                * dims.3.spec_size()
                * dims.4.spec_size()
                * dims.5.spec_size())
            + dims.2.spec_offset(index.2) * (dims.3.spec_size()
                * dims.4.spec_size()
                * dims.5.spec_size())
            + dims.3.spec_offset(index.3) * (dims.4.spec_size()
                * dims.5.spec_size())
            + dims.4.spec_offset(index.4) * dims.5.spec_size()
            + dims.5.spec_offset(index.5),
{
    lemma_quintuple_strides(
        (dims.0, dims.1, dims.2, dims.3, dims.4),
        (index.0, index.1, index.2, index.3, index.4),
    );
    let o0 = dims.0.spec_offset(index.0);
    let o1 = dims.1.spec_offset(index.1);
    let o2 = dims.2.spec_offset(index.2);
    let o3 = dims.3.spec_offset(index.3);
    let o4 = dims.4.spec_offset(index.4);
    let size = dims.5.spec_size();
    let stride0 = dims.1.spec_size() * dims.2.spec_size() * dims.3.spec_size() * dims.4.spec_size();
    let stride1 = dims.2.spec_size() * dims.3.spec_size() * dims.4.spec_size();
    let stride2 = dims.3.spec_size() * dims.4.spec_size();
    let stride3 = dims.4.spec_size();
    lemma_scale_stride(0, o0, stride0, size);
    lemma_scale_stride(o0 * stride0, o1, stride1, size);
    lemma_scale_stride(o0 * stride0 + o1 * stride1, o2, stride2, size);
    lemma_scale_stride(o0 * stride0 + o1 * stride1 + o2 * stride2, o3, stride3, size);
    lemma_scale_stride(o0 * stride0 + o1 * stride1 + o2 * stride2 + o3 * stride3, o4, 1, size);
}

/// The offset in a shape of seven axes is the sum, over the axes, of the
/// offset along the axis times the sizes of the axes that follow it.
pub proof fn lemma_septuple_strides<
    A: Dimensions,
    B: Dimensions,
    C: Dimensions,
    D: Dimensions,
    E: Dimensions,
    F: Dimensions,
    G: Dimensions,
>(
    dims: (A, B, C, D, E, F, G),
    index: (A::Index, B::Index, C::Index, D::Index, E::Index, F::Index, G::Index),
)
    ensures
        dims.spec_offset(index) == dims.0.spec_offset(index.0) * (dims.1.spec_size()
                * dims.2.spec_size()
                * dims.3.spec_size()
                * dims.4.spec_size()
                * dims.5.spec_size()
                * dims.6.spec_size())
            + dims.1.spec_offset(index.1) * (dims.2.spec_size()
                * dims.3.spec_size()
                * dims.4.spec_size()
                * dims.5.spec_size()
                * dims.6.spec_size())
            + dims.2.spec_offset(index.2) * (dims.3.spec_size()
                * dims.4.spec_size()
                * dims.5.spec_size()
                * dims.6.spec_size())
            + dims.3.spec_offset(index.3) * (dims.4.spec_size()
                * dims.5.spec_size()
                * dims.6.spec_size())
            + dims.4.spec_offset(index.4) * (dims.5.spec_size()
                * dims.6.spec_size())
            + dims.5.spec_offset(index.5) * dims.6.spec_size()
            + dims.6.spec_offset(index.6),
{
    lemma_sextuple_strides(
        (dims.0, dims.1, dims.2, dims.3, dims.4, dims.5),
        (index.0, index.1, index.2, index.3, index.4, index.5),
    );
    let o0 = dims.0.spec_offset(index.0);
    let o1 = dims.1.spec_offset(index.1);
    let o2 = dims.2.spec_offset(index.2);
    let o3 = dims.3.spec_offset(index.3);
    let o4 = dims.4.spec_offset(index.4);
    let o5 = dims.5.spec_offset(index.5);
    let size = dims.6.spec_size();
    let stride0 = dims.1.spec_size()
        * dims.2.spec_size()
        * dims.3.spec_size()
        * dims.4.spec_size()
        * dims.5.spec_size();
    let stride1 = dims.2.spec_size() * dims.3.spec_size() * dims.4.spec_size() * dims.5.spec_size();
    let stride2 = dims.3.spec_size() * dims.4.spec_size() * dims.5.spec_size();
    let stride3 = dims.4.spec_size() * dims.5.spec_size();
    let stride4 = dims.5.spec_size();
    lemma_scale_stride(0, o0, stride0, size);
    lemma_scale_stride(o0 * stride0, o1, stride1, size);
    lemma_scale_stride(o0 * stride0 + o1 * stride1, o2, stride2, size);
    lemma_scale_stride(o0 * stride0 + o1 * stride1 + o2 * stride2, o3, stride3, size);
    lemma_scale_stride(
        o0 * stride0 + o1 * stride1 + o2 * stride2 + o3 * stride3,
        o4,
        stride4,
        size,
    );
    lemma_scale_stride(
        o0 * stride0 + o1 * stride1 + o2 * stride2 + o3 * stride3 + o4 * stride4,
        o5,
        1,
        size,
    );
}

} // verus!
