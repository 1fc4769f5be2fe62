//! Inputs shorter than one lane group.
//!
//! Such an input has no full group: every lane stays at zero, and all that a
//! lane-parallel kernel adds is the tail, one element after the other. As
//! long as zero added to zero gives zero, it returns what adding up the
//! terms in the order of their indices returns.
use crate::arith::is_sum;
use crate::arith::is_zero;
use crate::arith::zero_plus_zero_is_zero;
use crate::arith::Scalar;
use crate::arith::Widens;
use crate::chain::accumulates;
use crate::chain::items;
use crate::chain::lane_dot;
use crate::chain::lane_parallel;
use crate::chain::products;
use crate::chain::sequential_dot;
use crate::chain::wide_products;
use crate::chain::widened_lane_dot;
use crate::chain::widened_products;
use crate::fanout::combined;
use crate::NUM_LANES;
use vstd::prelude::*;

verus! {

/// Zeros added to zero give zero.
proof fn lemma_zeros_accumulate_to_zero<T: Scalar>(lanes: Seq<T>, zero: T, count: nat, r: T)
    requires
        zero_plus_zero_is_zero::<T>(),
        is_zero(zero),
        forall|j: int| 0 <= j < count ==> is_zero(#[trigger] lanes[j]),
        accumulates(items(lanes), zero, 0, 1, count, r),
    ensures
        is_zero(r),
    decreases count,
{
    if count > 0 {
        let before = (count - 1) as nat;
        let (s, t) = choose|s: T, t: T|
            accumulates(items(lanes), zero, 0, 1, before, s) && items(lanes)(0 + (count - 1) * 1, t)
                && #[trigger] is_sum(s, t, r);
        lemma_zeros_accumulate_to_zero(lanes, zero, before, s);
        assert(t == lanes[count - 1]);
    }
}

/// On fewer than `NUM_LANES` terms the lane-parallel reduction adds the
/// terms to zero in the order of their indices.
pub proof fn lemma_short_lane_parallel<T: Scalar>(
    body: spec_fn(int, T) -> bool,
    tail: spec_fn(int, T) -> bool,
    len: nat,
    r: T,
)
    requires
        zero_plus_zero_is_zero::<T>(),
        len < NUM_LANES,
        lane_parallel(body, tail, len, r),
    ensures
        exists|zero: T| #[trigger] is_zero(zero) && accumulates(tail, zero, 0, 1, len, r),
{
    let groups = len / (NUM_LANES as nat);
    let rest = len % (NUM_LANES as nat);
    let (zero, lanes, reduced) = choose|zero: T, lanes: Seq<T>, reduced: T|
        {
            &&& is_zero(zero)
            &&& lanes.len() == NUM_LANES
            &&& forall|j: int|
                0 <= j < NUM_LANES ==> accumulates(
                    body,
                    zero,
                    j,
                    NUM_LANES as int,
                    groups,
                    #[trigger] lanes[j],
                )
            &&& #[trigger] accumulates(items(lanes), zero, 0, 1, NUM_LANES as nat, reduced)
            &&& accumulates(tail, reduced, len - rest, 1, rest, r)
        };
    assert(groups == 0);
    assert(rest == len);
    assert forall|j: int| 0 <= j < NUM_LANES implies is_zero(#[trigger] lanes[j]) by {
        assert(accumulates(body, zero, j, NUM_LANES as int, groups, lanes[j]));
    }
    lemma_zeros_accumulate_to_zero(lanes, zero, NUM_LANES as nat, reduced);
    assert(is_zero(reduced));
}

/// On fewer than `NUM_LANES` elements the lane-parallel kernel returns a
/// result of the sequential kernel.
pub proof fn lemma_short_lane_dot_is_sequential<T: Scalar>(a: Seq<T>, b: Seq<T>, r: T)
    requires
        zero_plus_zero_is_zero::<T>(),
        a.len() < NUM_LANES,
        lane_dot(a, b, r),
    ensures
        sequential_dot(a, b, r),
{
    lemma_short_lane_parallel(products(a, b), products(a, b), a.len(), r);
}

/// On fewer than `NUM_LANES` elements the lane-parallel kernel with widened
/// accumulation adds the products of the widened elements to zero in the
/// order of their indices.
pub proof fn lemma_short_widened_lane_dot<T: Scalar, W: Widens<T>>(a: Seq<T>, b: Seq<T>, r: W)
    requires
        zero_plus_zero_is_zero::<W>(),
        a.len() < NUM_LANES,
        widened_lane_dot(a, b, r),
    ensures
        exists|zero: W| #[trigger]
            is_zero(zero) && accumulates(wide_products(a, b), zero, 0, 1, a.len(), r),
{
    lemma_short_lane_parallel(
        widened_products::<T, W>(a, b),
        wide_products::<T, W>(a, b),
        a.len(),
        r,
    );
}

/// On fewer than `NUM_LANES` elements there is no group sum to combine, and
/// the combination returns a result of the sequential kernel.
pub proof fn lemma_short_combined_is_sequential<T: Scalar>(a: Seq<T>, b: Seq<T>, r: T)
    requires
        a.len() < NUM_LANES,
        combined(Seq::<T>::empty(), a, b, r),
    ensures
        sequential_dot(a, b, r),
{
    let partials = Seq::<T>::empty();
    let rest = a.len() % (NUM_LANES as nat);
    let (zero, total) = choose|zero: T, total: T|
        {
            &&& is_zero(zero)
            &&& #[trigger] accumulates(items(partials), zero, 0, 1, partials.len(), total)
            &&& accumulates(products(a, b), total, a.len() - rest, 1, rest, r)
        };
    assert(rest == a.len());
    assert(total == zero);
}

} // verus!
