//! Arrays: a buffer of elements read and written by coordinate.

use crate::dimensions::Dimensions;
use crate::error::Error;
use crate::storage::Storage;
use std::slice::Iter;
use vstd::prelude::*;
use vstd::std_specs::cmp::PartialEqSpec;
use vstd::std_specs::iter::IteratorSpec;

verus! {

/// An array with owned storage.
pub type Array<T, D> = ArrayBase<Box<[T]>, D>;

/// An array: a buffer of elements and the shape that gives each coordinate
/// its place in the buffer. The shape is fixed when the array is made.
#[derive(Debug)]
pub struct ArrayBase<S: Storage, D: Dimensions> {
    data: S,
    dims: D,
}

impl<S: Storage, D: Dimensions> ArrayBase<S, D> {
    /// The elements in the order of the buffer, which is row-major order.
    pub closed spec fn view(&self) -> Seq<S::Item> {
        self.data.contents()
    }

    /// The shape of the array.
    pub closed spec fn spec_shape(&self) -> D {
        self.dims
    }

    /// What every array satisfies: it has one element for each coordinate
    /// within bounds, which are no more than a buffer can hold. The
    /// constructors establish it, and nothing that can be done to an array
    /// breaks it, as a slice does not change its length.
    pub open spec fn wf(&self) -> bool {
        &&& self.spec_shape().spec_size() <= usize::MAX
        &&& self@.len() == self.spec_shape().spec_size()
    }

    /// The element at `index`, for an `index` within bounds.
    pub open spec fn spec_read(&self, index: D::Index) -> S::Item {
        self@[self.spec_shape().spec_offset(index) as int]
    }

    /// Creates an array of shape `dims` whose elements, in row-major order,
    /// are those of `vec`. Fails unless `vec` has exactly as many elements as
    /// the shape has coordinates.
    pub fn from_vector(vec: Vec<S::Item>, dims: D) -> (r: Result<Self, Error>)
        ensures
            r is Ok <==> vec@.len() == dims.spec_size(),
            r matches Ok(a) ==> a.wf() && a@ == vec@ && a.spec_shape() == dims,
            r matches Err(e) ==> e == Error::ShapeMismatch,
    {
        let len = vec.len();
        match dims.checked_size() {
            Some(n) if n == len => Ok(ArrayBase { data: S::from_vec(vec), dims }),
            _ => Err(Error::ShapeMismatch),
        }
    }

    /// A copy of the shape of the array.
    pub fn shape(&self) -> (d: D)
        ensures
            d == self.spec_shape(),
    {
        self.dims.duplicate()
    }

    /// The element at `index`, or the failure of the axis that rejects
    /// `index`.
    pub fn read(&self, index: D::Index) -> (r: Result<&S::Item, Error>)
        requires
            self.wf(),
        ensures
            r is Ok <==> self.spec_shape().in_bounds(index),
            r matches Ok(v) ==> *v == self.spec_read(index),
            r matches Err(e) ==> e == self.spec_shape().fault(index),
    {
        let offset = self.dims.offset(index)?;
        Ok(&self.data.as_ref()[offset])
    }

    /// Replaces the element at `index` by `value`, or fails as `read` does
    /// and changes nothing.
    pub fn write(&mut self, index: D::Index, value: S::Item) -> (r: Result<(), Error>)
        requires
            old(self).wf(),
        ensures
            final(self).wf(),
            final(self).spec_shape() == old(self).spec_shape(),
            r is Ok <==> old(self).spec_shape().in_bounds(index),
            r is Ok ==> final(self)@ == old(self)@.update(
                old(self).spec_shape().spec_offset(index) as int,
                value,
            ),
            r matches Err(e) ==> e == old(self).spec_shape().fault(index),
            r is Err ==> final(self)@ == old(self)@,
    {
        let offset = self.dims.offset(index)?;
        let slots = self.data.as_mut();
        slots[offset] = value;
        Ok(())
    }

    /// Iterates over the elements in the order of the buffer: the iterator
    /// yields the elements of the view, each once and in that order, which is
    /// the row-major order of their coordinates.
    pub fn flat_iter(&self) -> (it: Iter<'_, S::Item>)
        ensures
            IteratorSpec::remaining(&it) == self@.as_ref(),
            IteratorSpec::decrease(&it) is Some,
            IteratorSpec::initial_value_relation(&it, &it),
    {
        self.data.as_ref().iter()
    }

    /// The elements as a mutable slice in the order of the buffer, to iterate
    /// over and to write to. The array keeps its shape, and holds in the end
    /// what the slice holds in the end.
    pub fn flat_iter_mut(&mut self) -> (r: &mut [S::Item])
        ensures
            r@ == old(self)@,
            final(self)@ == final(r)@,
            final(self).spec_shape() == old(self).spec_shape(),
    {
        self.data.as_mut()
    }
}

impl<S: Storage, D: Dimensions> ArrayBase<S, D> where S::Item: Clone {
    /// Creates an array of shape `dims` in which every element is a clone of
    /// `element`. The size of the shape has to fit in `usize`, which is what
    /// `checked_size` tells.
    pub fn from_element(element: S::Item, dims: D) -> (a: Self)
        requires
            dims.spec_size() <= usize::MAX,
        ensures
            a.wf(),
            a.spec_shape() == dims,
            forall|i: int| 0 <= i < a@.len() ==> cloned(element, #[trigger] a@[i]),
    {
        let n = dims.size();
        let mut data: Vec<S::Item> = Vec::with_capacity(n);
        let mut i: usize = 0;
        while i < n
            invariant
                i <= n,
                data@.len() == i,
                forall|j: int| 0 <= j < i ==> cloned(element, #[trigger] data@[j]),
            decreases n - i,
        {
            data.push(element.clone());
            i += 1;
        }
        ArrayBase { data: S::from_vec(data), dims }
    }
}

impl<S: Storage, D: Dimensions> PartialEq for ArrayBase<S, D> where
    S::Item: PartialEq,
 {
    /// Two arrays are equal when their shapes are the same and their elements
    /// are equal one by one, in the order of the buffer.
    fn eq(&self, other: &Self) -> (r: bool) {
        if !self.dims.same(&other.dims) {
            return false;
        }
        let a = self.data.as_ref();
        let b = other.data.as_ref();
        if a.len() != b.len() {
            return false;
        }
        let mut i: usize = 0;
        while i < a.len()
            invariant
                i <= a.len(),
                a.len() == b.len(),
                a@ == self@,
                b@ == other@,
                S::Item::obeys_eq_spec() ==> forall|j: int|
                    0 <= j < i ==> (#[trigger] self@[j]).eq_spec(&other@[j]),
            decreases a.len() - i,
        {
            if a[i] != b[i] {
                return false;
            }
            i += 1;
        }
        true
    }
}

impl<S: Storage, D: Dimensions> vstd::std_specs::cmp::PartialEqSpecImpl for ArrayBase<S, D> where
    S::Item: PartialEq,
 {
    open spec fn obeys_eq_spec() -> bool {
        S::Item::obeys_eq_spec()
    }

    open spec fn eq_spec(&self, other: &Self) -> bool {
        &&& self.spec_shape() == other.spec_shape()
        &&& self@.len() == other@.len()
        &&& forall|j: int| 0 <= j < self@.len() ==> (#[trigger] self@[j]).eq_spec(&other@[j])
    }
}

/// Writing and then reading: once `value` has been written at `index`, the
/// array holds `value` at `index`, and at every other coordinate what it held
/// before.
pub proof fn lemma_write_then_read<S: Storage, D: Dimensions>(
    before: ArrayBase<S, D>,
    after: ArrayBase<S, D>,
    index: D::Index,
    value: S::Item,
    other: D::Index,
)
    requires
        before.wf(),
        before.spec_shape().in_bounds(index),
        before.spec_shape().in_bounds(other),
        after.spec_shape() == before.spec_shape(),
        after@ == before@.update(before.spec_shape().spec_offset(index) as int, value),
    ensures
        after.spec_read(index) == value,
        other != index ==> after.spec_read(other) == before.spec_read(other),
{
    let shape = before.spec_shape();
    shape.lemma_offset_in_range(index);
    shape.lemma_offset_in_range(other);
    if other != index && shape.spec_offset(other) == shape.spec_offset(index) {
        shape.lemma_offset_injective(other, index);
    }
}

/// Equality of arrays: arrays of the same shape whose elements are equal one
/// by one are equal, and arrays of different shapes are not, whatever their
/// elements.
pub proof fn lemma_equality<S: Storage, D: Dimensions>(
    a: ArrayBase<S, D>,
    b: ArrayBase<S, D>,
) where S::Item: PartialEq
    ensures
        a.spec_shape() == b.spec_shape() && a@.len() == b@.len() && (forall|j: int|
            0 <= j < a@.len() ==> (#[trigger] a@[j]).eq_spec(&b@[j])) ==> a.eq_spec(&b),
        a.spec_shape() != b.spec_shape() ==> !a.eq_spec(&b),
{
}

/// The order of the buffer, in which `flat_iter` and `flat_iter_mut` hand out
/// the elements, is the row-major order of the coordinates: each coordinate
/// within bounds has its place in the buffer, two coordinates have two
/// places, and the one that comes first in row-major order has the earlier
/// place.
pub proof fn lemma_flat_order<S: Storage, D: Dimensions>(
    a: ArrayBase<S, D>,
    i: D::Index,
    j: D::Index,
)
    requires
        a.wf(),
        a.spec_shape().in_bounds(i),
        a.spec_shape().in_bounds(j),
    ensures
        a.spec_shape().spec_offset(i) < a@.len(),
        a.spec_shape().spec_offset(j) < a@.len(),
        a@[a.spec_shape().spec_offset(i) as int] == a.spec_read(i),
        a@[a.spec_shape().spec_offset(j) as int] == a.spec_read(j),
        i != j ==> a.spec_shape().spec_offset(i) != a.spec_shape().spec_offset(j),
        a.spec_shape().precedes(i, j) <==> a.spec_shape().spec_offset(i)
            < a.spec_shape().spec_offset(j),
{
    let shape = a.spec_shape();
    shape.lemma_offset_in_range(i);
    shape.lemma_offset_in_range(j);
    shape.lemma_offset_ordered(i, j);
    if shape.spec_offset(i) == shape.spec_offset(j) {
        shape.lemma_offset_injective(i, j);
    }
}

/// Every place in the buffer is the place of a coordinate within bounds,
/// which this returns: the buffer holds as many elements as the shape has
/// coordinates, and no others.
pub proof fn lemma_flat_place<S: Storage, D: Dimensions>(
    a: ArrayBase<S, D>,
    k: nat,
) -> (index: D::Index)
    requires
        a.wf(),
        k < a@.len(),
    ensures
        a@.len() == a.spec_shape().spec_size(),
        a.spec_shape().in_bounds(index),
        a.spec_shape().spec_offset(index) == k,
        a.spec_read(index) == a@[k as int],
{
    a.spec_shape().lemma_offset_onto(k)
}

} // verus!
