//! Composite shapes of any number of axes, written as arrays.
//!
//! The shape `[a, b, c]` is the shape `(a, b, c)` for axes of one type, and
//! with `Axis` as that type, for axes of any kind. Its size and offsets are
//! defined by folding the axes from the first to the last, one row-major step
//! for each.

use crate::dimensions::Dimensions;
use crate::error::Error;
use crate::row_major::{
    extend_size, lemma_factors_fit, lemma_scale_stride, lemma_step_in_range,
    lemma_step_injective, lemma_step_onto, lemma_step_ordered, stands_for,
};
use vstd::prelude::*;

verus! {

/// The size of the composite of `dims`: the product of their sizes.
pub open spec fn seq_size<D: Dimensions>(dims: Seq<D>) -> nat
    decreases dims.len(),
{
    if dims.len() == 0 {
        1
    } else {
        seq_size(dims.drop_last()) * dims.last().spec_size()
    }
}

/// Whether `index` has one coordinate for each axis of `dims`, each within
/// the bounds of its axis.
pub open spec fn seq_in_bounds<D: Dimensions>(dims: Seq<D>, index: Seq<D::Index>) -> bool {
    &&& index.len() == dims.len()
    &&& forall|k: int| 0 <= k < dims.len() ==> (#[trigger] dims[k]).in_bounds(index[k])
}

/// The offset of `index` in the composite of `dims`: the offset in the
/// composite of the leading axes, scaled by the size of the last axis, plus
/// the offset along the last axis.
pub open spec fn seq_offset<D: Dimensions>(dims: Seq<D>, index: Seq<D::Index>) -> nat
    decreases dims.len(),
{
    if dims.len() == 0 {
        0
    } else {
        seq_offset(dims.drop_last(), index.drop_last()) * dims.last().spec_size()
            + dims.last().spec_offset(index.last())
    }
}

/// The failure of the first axis of `dims` that rejects its coordinate.
pub open spec fn seq_fault<D: Dimensions>(dims: Seq<D>, index: Seq<D::Index>) -> Error
    decreases dims.len(),
{
    if dims.len() == 0 {
        arbitrary()
    } else if !seq_in_bounds(dims.drop_last(), index.drop_last()) {
        seq_fault(dims.drop_last(), index.drop_last())
    } else {
        dims.last().fault(index.last())
    }
}

/// Whether `a` comes before `b` in row-major order: whether, at the first
/// axis where the two differ, the coordinate of `a` is the lower.
pub open spec fn seq_precedes<D: Dimensions>(
    dims: Seq<D>,
    a: Seq<D::Index>,
    b: Seq<D::Index>,
) -> bool
    decreases dims.len(),
{
    if dims.len() == 0 {
        false
    } else {
        ||| seq_precedes(dims.drop_last(), a.drop_last(), b.drop_last())
        ||| (a.drop_last() == b.drop_last() && dims.last().precedes(a.last(), b.last()))
    }
}

/// Coordinates within bounds are within bounds along the leading axes.
pub proof fn lemma_seq_in_bounds_lead<D: Dimensions>(dims: Seq<D>, index: Seq<D::Index>)
    requires
        seq_in_bounds(dims, index),
        dims.len() > 0,
    ensures
        seq_in_bounds(dims.drop_last(), index.drop_last()),
        dims.last().in_bounds(index.last()),
{
    let lead = dims.drop_last();
    assert forall|k: int| 0 <= k < lead.len() implies (#[trigger] lead[k]).in_bounds(
        index.drop_last()[k],
    ) by {
        assert(dims[k].in_bounds(index[k]));
    }
    assert(dims[dims.len() - 1].in_bounds(index[dims.len() - 1]));
}

/// The offset of coordinates within bounds is below the size.
pub proof fn lemma_seq_offset_in_range<D: Dimensions>(dims: Seq<D>, index: Seq<D::Index>)
    requires
        seq_in_bounds(dims, index),
    ensures
        seq_offset(dims, index) < seq_size(dims),
    decreases dims.len(),
{
    if dims.len() > 0 {
        lemma_seq_in_bounds_lead(dims, index);
        lemma_seq_offset_in_range(dims.drop_last(), index.drop_last());
        dims.last().lemma_offset_in_range(index.last());
        lemma_step_in_range(
            seq_offset(dims.drop_last(), index.drop_last()),
            dims.last().spec_offset(index.last()),
            seq_size(dims.drop_last()),
            dims.last().spec_size(),
        );
    }
}

/// In a composite that has a list of coordinates within bounds and a size
/// that fits in `bound`, the size of each axis fits, and so does the size of
/// the leading axes, however many are taken.
pub proof fn lemma_seq_fits<D: Dimensions>(dims: Seq<D>, index: Seq<D::Index>, k: int, bound: nat)
    requires
        seq_in_bounds(dims, index),
        seq_size(dims) <= bound,
        0 <= k <= dims.len(),
    ensures
        seq_size(dims.take(k)) <= bound,
        k < dims.len() ==> dims[k].spec_size() <= bound,
    decreases dims.len(),
{
    if k == dims.len() {
        assert(dims.take(k) == dims);
    } else {
        lemma_seq_in_bounds_lead(dims, index);
        lemma_seq_offset_in_range(dims.drop_last(), index.drop_last());
        dims.last().lemma_offset_in_range(index.last());
        lemma_factors_fit(seq_size(dims.drop_last()), dims.last().spec_size(), bound);
        if k == dims.len() - 1 {
            assert(dims.take(k) == dims.drop_last());
        } else {
            lemma_seq_fits(dims.drop_last(), index.drop_last(), k, bound);
            assert(dims.drop_last().take(k) == dims.take(k));
        }
    }
}

/// No two lists of coordinates within bounds share an offset.
pub proof fn lemma_seq_offset_injective<D: Dimensions>(
    dims: Seq<D>,
    a: Seq<D::Index>,
    b: Seq<D::Index>,
)
    requires
        seq_in_bounds(dims, a),
        seq_in_bounds(dims, b),
        seq_offset(dims, a) == seq_offset(dims, b),
    ensures
        a == b,
    decreases dims.len(),
{
    if dims.len() > 0 {
        lemma_seq_in_bounds_lead(dims, a);
        lemma_seq_in_bounds_lead(dims, b);
        dims.last().lemma_offset_in_range(a.last());
        dims.last().lemma_offset_in_range(b.last());
        lemma_step_injective(
            seq_offset(dims.drop_last(), a.drop_last()),
            dims.last().spec_offset(a.last()),
            seq_offset(dims.drop_last(), b.drop_last()),
            dims.last().spec_offset(b.last()),
            dims.last().spec_size(),
        );
        lemma_seq_offset_injective(dims.drop_last(), a.drop_last(), b.drop_last());
        dims.last().lemma_offset_injective(a.last(), b.last());
        assert(a =~= a.drop_last().push(a.last()));
        assert(b =~= b.drop_last().push(b.last()));
    } else {
        assert(a =~= b);
    }
}

/// Offsets are ordered as their lists of coordinates are in row-major order.
pub proof fn lemma_seq_offset_ordered<D: Dimensions>(
    dims: Seq<D>,
    a: Seq<D::Index>,
    b: Seq<D::Index>,
)
    requires
        seq_in_bounds(dims, a),
        seq_in_bounds(dims, b),
    ensures
        seq_precedes(dims, a, b) <==> seq_offset(dims, a) < seq_offset(dims, b),
    decreases dims.len(),
{
    if dims.len() > 0 {
        lemma_seq_in_bounds_lead(dims, a);
        lemma_seq_in_bounds_lead(dims, b);
        dims.last().lemma_offset_in_range(a.last());
        dims.last().lemma_offset_in_range(b.last());
        lemma_step_ordered(
            seq_offset(dims.drop_last(), a.drop_last()),
            dims.last().spec_offset(a.last()),
            seq_offset(dims.drop_last(), b.drop_last()),
            dims.last().spec_offset(b.last()),
            dims.last().spec_size(),
        );
        lemma_seq_offset_ordered(dims.drop_last(), a.drop_last(), b.drop_last());
        dims.last().lemma_offset_ordered(a.last(), b.last());
        if seq_offset(dims.drop_last(), a.drop_last()) == seq_offset(
            dims.drop_last(),
            b.drop_last(),
        ) {
            lemma_seq_offset_injective(dims.drop_last(), a.drop_last(), b.drop_last());
        }
    }
}

/// Every number below the size is the offset of a list of coordinates within
/// bounds, which this returns.
pub proof fn lemma_seq_offset_onto<D: Dimensions>(dims: Seq<D>, k: nat) -> (index: Seq<D::Index>)
    requires
        k < seq_size(dims),
    ensures
        seq_in_bounds(dims, index),
        seq_offset(dims, index) == k,
    decreases dims.len(),
{
    if dims.len() == 0 {
        Seq::empty()
    } else {
        lemma_step_onto(k, seq_size(dims.drop_last()), dims.last().spec_size());
        let lead = lemma_seq_offset_onto(dims.drop_last(), k / dims.last().spec_size());
        let last = dims.last().lemma_offset_onto(k % dims.last().spec_size());
        let index = lead.push(last);
        assert(index.drop_last() =~= lead);
        assert(index.last() == last);
        assert forall|j: int| 0 <= j < dims.len() implies (#[trigger] dims[j]).in_bounds(
            index[j],
        ) by {
            if j < dims.len() - 1 {
                assert(dims.drop_last()[j].in_bounds(lead[j]));
            }
        }
        index
    }
}

/// The failure of a list of coordinates is that of its first coordinate out
/// of bounds.
pub proof fn lemma_seq_fault_first<D: Dimensions>(dims: Seq<D>, index: Seq<D::Index>, k: int)
    requires
        index.len() == dims.len(),
        0 <= k < dims.len(),
        seq_in_bounds(dims.take(k), index.take(k)),
        !dims[k].in_bounds(index[k]),
    ensures
        !seq_in_bounds(dims, index),
        seq_fault(dims, index) == dims[k].fault(index[k]),
    decreases dims.len(),
{
    if k == dims.len() - 1 {
        assert(dims.take(k) == dims.drop_last());
        assert(index.take(k) == index.drop_last());
    } else {
        assert(dims.drop_last().take(k) == dims.take(k));
        assert(index.drop_last().take(k) == index.take(k));
        lemma_seq_fault_first(dims.drop_last(), index.drop_last(), k);
    }
}

/// The stride of axis `k` in the composite of `dims`: the product of the
/// sizes of the axes that follow it.
pub open spec fn stride<D: Dimensions>(dims: Seq<D>, k: int) -> nat {
    seq_size(dims.skip(k + 1))
}

/// The sum, over the first `n` axes of `dims`, of the offset along the axis
/// times the stride of the axis.
pub open spec fn strided_sum<D: Dimensions>(dims: Seq<D>, index: Seq<D::Index>, n: nat) -> nat
    decreases n,
{
    if n == 0 {
        0
    } else {
        strided_sum(dims, index, (n - 1) as nat) + dims[n - 1].spec_offset(index[n - 1]) * stride(
            dims,
            n - 1,
        )
    }
}

/// Appending an axis multiplies the stride of every axis before it by the
/// size of the new axis.
proof fn lemma_stride_lead<D: Dimensions>(dims: Seq<D>, k: int)
    requires
        0 <= k < dims.len() - 1,
    ensures
        stride(dims, k) == stride(dims.drop_last(), k) * dims.last().spec_size(),
{
    assert(dims.skip(k + 1).drop_last() == dims.drop_last().skip(k + 1));
    assert(dims.skip(k + 1).last() == dims.last());
}

/// Appending an axis multiplies the sum over the axes before it by the size
/// of the new axis.
proof fn lemma_strided_sum_lead<D: Dimensions>(dims: Seq<D>, index: Seq<D::Index>, n: nat)
    requires
        index.len() == dims.len(),
        n < dims.len(),
    ensures
        strided_sum(dims, index, n) == strided_sum(dims.drop_last(), index.drop_last(), n)
            * dims.last().spec_size(),
    decreases n,
{
    let size = dims.last().spec_size();
    if n == 0 {
        assert(0 * size == 0) by (nonlinear_arith);
    } else {
        lemma_strided_sum_lead(dims, index, (n - 1) as nat);
        lemma_stride_lead(dims, n - 1);
        lemma_scale_stride(
            strided_sum(dims.drop_last(), index.drop_last(), (n - 1) as nat),
            dims[n - 1].spec_offset(index[n - 1]),
            stride(dims.drop_last(), n - 1),
            size,
        );
    }
}

/// The offset of a list of coordinates is the sum, over the axes, of the
/// offset along the axis times the product of the sizes of the axes that
/// follow it.
pub proof fn lemma_seq_offset_is_strided_sum<D: Dimensions>(dims: Seq<D>, index: Seq<D::Index>)
    requires
        index.len() == dims.len(),
    ensures
        seq_offset(dims, index) == strided_sum(dims, index, dims.len()),
    decreases dims.len(),
{
    if dims.len() > 0 {
        let n = (dims.len() - 1) as nat;
        lemma_seq_offset_is_strided_sum(dims.drop_last(), index.drop_last());
        lemma_strided_sum_lead(dims, index, n);
        assert(dims.skip(n as int + 1).len() == 0);
        assert(stride(dims, n as int) == 1);
        let low = dims.last().spec_offset(index.last());
        assert(low * 1 == low) by (nonlinear_arith);
    }
}

/// An array whose first `k` elements are those of `s`.
spec fn array_of<T, const N: usize>(s: Seq<T>, k: nat) -> [T; N]
    decreases k,
{
    if k == 0 {
        arbitrary()
    } else {
        vstd::array::spec_array_update(array_of::<T, N>(s, (k - 1) as nat), k - 1, s[k - 1])
    }
}

/// The first `k` elements of `array_of(s, k)` are those of `s`.
proof fn lemma_array_of<T, const N: usize>(s: Seq<T>, k: nat)
    requires
        k <= N,
    ensures
        forall|j: int| 0 <= j < k ==> (#[trigger] array_of::<T, N>(s, k)@[j]) == s[j],
    decreases k,
{
    if k > 0 {
        lemma_array_of::<T, N>(s, (k - 1) as nat);
        vstd::array::axiom_spec_array_update(
            array_of::<T, N>(s, (k - 1) as nat),
            k - 1,
            s[k - 1],
        );
    }
}

/// The composite of the axes of an array, the last axis varying fastest. A
/// coordinate is the array of the coordinates along the axes. The array of
/// no axes has one coordinate, the empty one, at offset zero.
impl<D: Dimensions + Copy, const N: usize> Dimensions for [D; N] where D::Index: Copy {
    type Index = [D::Index; N];

    open spec fn spec_size(&self) -> nat {
        seq_size(self@)
    }

    open spec fn in_bounds(&self, index: Self::Index) -> bool {
        seq_in_bounds(self@, index@)
    }

    open spec fn spec_offset(&self, index: Self::Index) -> nat {
        seq_offset(self@, index@)
    }

    open spec fn fault(&self, index: Self::Index) -> Error {
        seq_fault(self@, index@)
    }

    open spec fn precedes(&self, a: Self::Index, b: Self::Index) -> bool {
        seq_precedes(self@, a@, b@)
    }

    proof fn lemma_offset_in_range(&self, index: Self::Index) {
        lemma_seq_offset_in_range(self@, index@);
    }

    proof fn lemma_offset_injective(&self, a: Self::Index, b: Self::Index) {
        lemma_seq_offset_injective(self@, a@, b@);
        assert(a =~= b);
    }

    proof fn lemma_offset_ordered(&self, a: Self::Index, b: Self::Index) {
        lemma_seq_offset_ordered(self@, a@, b@);
    }

    proof fn lemma_offset_onto(&self, k: nat) -> (index: Self::Index) {
        let coordinates = lemma_seq_offset_onto(self@, k);
        let index = array_of::<D::Index, N>(coordinates, N as nat);
        lemma_array_of::<D::Index, N>(coordinates, N as nat);
        assert(index@ =~= coordinates);
        index
    }

    fn checked_size(&self) -> (n: Option<usize>) {
        let mut n: Option<usize> = Some(1);
        let mut k: usize = 0;
        while k < N
            invariant
                k <= N,
                stands_for(n, seq_size(self@.take(k as int))),
            decreases N - k,
        {
            proof {
                assert(self@.take(k + 1).drop_last() == self@.take(k as int));
            }
            n = extend_size(n, self[k].checked_size());
            k += 1;
            assert(stands_for(n, seq_size(self@.take(k as int))));
        }
        assert(self@.take(N as int) == self@);
        n
    }

    fn check(&self, index: &Self::Index) -> (r: Result<(), Error>) {
        let mut k: usize = 0;
        while k < N
            invariant
                k <= N,
                seq_in_bounds(self@.take(k as int), index@.take(k as int)),
            decreases N - k,
        {
            match self[k].check(&index[k]) {
                Ok(()) => {},
                Err(e) => {
                    proof {
                        lemma_seq_fault_first(self@, index@, k as int);
                    }
                    return Err(e);
                },
            }
            proof {
                assert forall|j: int| 0 <= j < k + 1 implies (#[trigger] self@.take(
                    k + 1,
                )[j]).in_bounds(index@.take(k + 1)[j]) by {
                    if j < k {
                        assert(self@.take(k as int)[j].in_bounds(index@.take(k as int)[j]));
                    }
                }
            }
            k += 1;
        }
        proof {
            assert(self@.take(N as int) == self@);
            assert(index@.take(N as int) == index@);
        }
        Ok(())
    }

    fn offset(&self, index: Self::Index) -> (r: Result<usize, Error>) {
        self.check(&index)?;
        let mut o: usize = 0;
        let mut k: usize = 0;
        while k < N
            invariant
                k <= N,
                seq_in_bounds(self@, index@),
                seq_size(self@) <= usize::MAX,
                o == seq_offset(self@.take(k as int), index@.take(k as int)),
            decreases N - k,
        {
            proof {
                lemma_seq_fits(self@, index@, k as int, usize::MAX as nat);
                lemma_seq_fits(self@, index@, k + 1, usize::MAX as nat);
                assert(self@[k as int].in_bounds(index@[k as int]));
                assert(self@.take(k + 1).drop_last() == self@.take(k as int));
                assert(index@.take(k + 1).drop_last() == index@.take(k as int));
                assert forall|j: int| 0 <= j < k + 1 implies (#[trigger] self@.take(
                    k + 1,
                )[j]).in_bounds(index@.take(k + 1)[j]) by {
                    assert(self@[j].in_bounds(index@[j]));
                }
                lemma_seq_offset_in_range(self@.take(k + 1), index@.take(k + 1));
            }
            o = o * self[k].size() + self[k].offset(index[k])?;
            k += 1;
        }
        proof {
            assert(self@.take(N as int) == self@);
            assert(index@.take(N as int) == index@);
            lemma_seq_offset_in_range(self@, index@);
        }
        Ok(o)
    }

    fn same(&self, other: &Self) -> (r: bool) {
        let mut k: usize = 0;
        while k < N
            invariant
                k <= N,
                forall|j: int| 0 <= j < k ==> self@[j] == other@[j],
            decreases N - k,
        {
            if !self[k].same(&other[k]) {
                return false;
            }
            k += 1;
        }
        assert(*self =~= *other);
        true
    }

    fn duplicate(&self) -> (r: Self) {
        *self
    }
}

} // verus!
