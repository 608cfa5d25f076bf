//! Where an array keeps its elements.

use vstd::prelude::*;

verus! {

/// A buffer that an array can keep its elements in: a fixed number of slots,
/// the contents of which can be read and replaced.
pub trait Storage: Sized {
    /// The type of the elements.
    type Item;

    /// The elements, in the order of the buffer.
    spec fn contents(&self) -> Seq<Self::Item>;

    /// Creates the buffer from a vector, keeping its elements and their
    /// order.
    fn from_vec(vector: Vec<Self::Item>) -> (s: Self)
        ensures
            s.contents() == vector@,
    ;

    /// The elements as a slice.
    fn as_ref(&self) -> (r: &[Self::Item])
        ensures
            r@ == self.contents(),
    ;

    /// The elements as a mutable slice. What is written to the slice is
    /// written to the buffer.
    fn as_mut(&mut self) -> (r: &mut [Self::Item])
        ensures
            r@ == old(self).contents(),
            final(self).contents() == final(r)@,
    ;
}

/// `Vec::into_boxed_slice`: the box holds the elements of the vector, in the
/// same order. (The conversion only gives up the spare capacity.)
#[verifier::external_body]
fn into_boxed_slice<T>(vector: Vec<T>) -> (b: Box<[T]>)
    ensures
        b@ == vector@,
{
    vector.into_boxed_slice()
}

impl<T> Storage for Box<[T]> {
    type Item = T;

    open spec fn contents(&self) -> Seq<T> {
        self@
    }

    fn from_vec(vector: Vec<T>) -> (s: Self) {
        into_boxed_slice(vector)
    }

    fn as_ref(&self) -> (r: &[T]) {
        &**self
    }

    fn as_mut(&mut self) -> (r: &mut [T]) {
        &mut **self
    }
}

} // verus!
