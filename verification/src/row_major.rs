//! The arithmetic of one row-major step.
//!
//! Appending an axis of size `n` to a shape turns a position `high` in the
//! shape and a position `low` along the axis into `high * n + low`. Every
//! composite shape is built from this step, and what is proved of its offsets
//! comes from the facts below.

use vstd::prelude::*;

verus! {

/// The combined position lies within the combined size.
pub proof fn lemma_step_in_range(high: nat, low: nat, m: nat, n: nat)
    requires
        high < m,
        low < n,
    ensures
        high * n + low < m * n,
{
    assert(high * n + low < m * n) by (nonlinear_arith)
        requires
            high < m,
            low < n,
    ;
}

/// Two pairs of positions that combine to the same position are the same pair.
pub proof fn lemma_step_injective(high1: nat, low1: nat, high2: nat, low2: nat, n: nat)
    requires
        low1 < n,
        low2 < n,
        high1 * n + low1 == high2 * n + low2,
    ensures
        high1 == high2,
        low1 == low2,
{
    assert(high1 == high2 && low1 == low2) by (nonlinear_arith)
        requires
            low1 < n,
            low2 < n,
            high1 * n + low1 == high2 * n + low2,
    ;
}

/// Combined positions are ordered as the pairs are, the high part first.
pub proof fn lemma_step_ordered(high1: nat, low1: nat, high2: nat, low2: nat, n: nat)
    requires
        low1 < n,
        low2 < n,
    ensures
        (high1 < high2 || (high1 == high2 && low1 < low2)) <==> high1 * n + low1 < high2 * n
            + low2,
{
    assert((high1 < high2 || (high1 == high2 && low1 < low2)) <==> high1 * n + low1 < high2 * n
        + low2) by (nonlinear_arith)
        requires
            low1 < n,
            low2 < n,
    ;
}

/// Every position within the combined size splits into a pair that combines
/// to it.
pub proof fn lemma_step_onto(k: nat, m: nat, n: nat)
    requires
        k < m * n,
    ensures
        n > 0,
        k / n < m,
        k % n < n,
        (k / n) * n + k % n == k,
{
    assert(n > 0) by (nonlinear_arith)
        requires
            k < m * n,
    ;
    assert(k / n < m && k % n < n && (k / n) * n + k % n == k) by (nonlinear_arith)
        requires
            k < m * n,
            n > 0,
    ;
}

/// Appending an axis of size `size` to a shape multiplies every stride of the
/// shape by `size`: scaling a sum of offsets times strides scales the
/// strides.
pub proof fn lemma_scale_stride(sum: nat, low: nat, stride: nat, size: nat)
    ensures
        (sum + low * stride) * size == sum * size + low * (stride * size),
{
    assert((sum + low * stride) * size == sum * size + low * (stride * size))
        by (nonlinear_arith);
}

/// Each of two sizes is at most their product, unless the other is zero.
pub proof fn lemma_factors_fit(m: nat, n: nat, bound: nat)
    requires
        m * n <= bound,
        m > 0,
        n > 0,
    ensures
        m <= bound,
        n <= bound,
{
    assert(m <= bound && n <= bound) by (nonlinear_arith)
        requires
            m * n <= bound,
            m > 0,
            n > 0,
    ;
}

/// Whether `n` stands for the size `size`: a size that fits in `usize` is
/// given as it is, and one that does not is `None`.
pub open spec fn stands_for(n: Option<usize>, size: nat) -> bool {
    match n {
        Some(s) => s == size,
        None => size > usize::MAX,
    }
}

/// The size of a shape with one more axis: the product of the two sizes,
/// which is zero where either is zero, whatever the other.
pub fn extend_size(size: Option<usize>, axis: Option<usize>) -> (n: Option<usize>)
    ensures
        forall|p: nat, q: nat|
            stands_for(size, p) && stands_for(axis, q) ==> #[trigger] stands_for(n, p * q),
{
    let n = match (size, axis) {
        (Some(0), _) => Some(0),
        (_, Some(0)) => Some(0),
        (Some(m), Some(k)) => m.checked_mul(k),
        _ => None,
    };
    assert forall|p: nat, q: nat|
        stands_for(size, p) && stands_for(axis, q) implies #[trigger] stands_for(n, p * q) by {
        if p == 0 || q == 0 {
            assert(p * q == 0) by (nonlinear_arith)
                requires
                    p == 0 || q == 0,
            ;
        } else {
            assert(p * q >= p && p * q >= q) by (nonlinear_arith)
                requires
                    p > 0,
                    q > 0,
            ;
        }
    }
    n
}

} // verus!
