//! Operations with one result give kernels with one result.
//!
//! The sequential kernel and the two lane-parallel kernels add in a fixed
//! order. Where each operation of the element type has one result for given
//! operands, each of these kernels has one result for given inputs.
use crate::arith::deterministic_addition;
use crate::arith::deterministic_multiplication;
use crate::arith::deterministic_widening;
use crate::arith::is_sum;
use crate::arith::is_zero;
use crate::arith::Scalar;
use crate::arith::Widens;
use crate::chain::accumulates;
use crate::chain::items;
use crate::chain::lane_dot;
use crate::chain::lane_parallel;
use crate::chain::products;
use crate::chain::sequential_dot;
use crate::chain::wide_products;
use crate::chain::widened_lane_dot;
use crate::chain::widened_products;
use crate::fanout::combined;
use crate::fanout::group_dot;
use crate::NUM_LANES;
use vstd::prelude::*;

verus! {

/// Each term of `term` has one value.
pub open spec fn single_valued<T>(term: spec_fn(int, T) -> bool) -> bool {
    forall|i: int, s: T, t: T| #[trigger] term(i, s) && #[trigger] term(i, t) ==> s == t
}

/// Where each term has one value and each sum one result, adding up the
/// terms in a fixed order has one result.
pub proof fn lemma_accumulates_deterministic<T: Scalar>(
    term: spec_fn(int, T) -> bool,
    init: T,
    start: int,
    stride: int,
    count: nat,
    r1: T,
    r2: T,
)
    requires
        deterministic_addition::<T>(),
        single_valued(term),
        accumulates(term, init, start, stride, count, r1),
        accumulates(term, init, start, stride, count, r2),
    ensures
        r1 == r2,
    decreases count,
{
    if count > 0 {
        let before = (count - 1) as nat;
        let index = start + (count - 1) * stride;
        let (s1, t1) = choose|s: T, t: T|
            accumulates(term, init, start, stride, before, s) && term(index, t) && #[trigger] is_sum(
                s,
                t,
                r1,
            );
        let (s2, t2) = choose|s: T, t: T|
            accumulates(term, init, start, stride, before, s) && term(index, t) && #[trigger] is_sum(
                s,
                t,
                r2,
            );
        lemma_accumulates_deterministic(term, init, start, stride, before, s1, s2);
        assert(t1 == t2);
    }
}

/// Where each term has one value and each sum one result, the
/// lane-parallel reduction has one result.
pub proof fn lemma_lane_parallel_deterministic<T: Scalar>(
    body: spec_fn(int, T) -> bool,
    tail: spec_fn(int, T) -> bool,
    len: nat,
    r1: T,
    r2: T,
)
    requires
        deterministic_addition::<T>(),
        single_valued(body),
        single_valued(tail),
        lane_parallel(body, tail, len, r1),
        lane_parallel(body, tail, len, r2),
    ensures
        r1 == r2,
{
    let groups = len / (NUM_LANES as nat);
    let rest = len % (NUM_LANES as nat);
    let (zero1, lanes1, reduced1) = choose|zero: T, lanes: Seq<T>, reduced: T|
        {
            &&& is_zero(zero)
            &&& lanes.len() == NUM_LANES
            &&& forall|j: int|
                0 <= j < NUM_LANES ==> accumulates(
                    body,
                    zero,
                    j,
                    NUM_LANES as int,
                    groups,
                    #[trigger] lanes[j],
                )
            &&& #[trigger] accumulates(items(lanes), zero, 0, 1, NUM_LANES as nat, reduced)
            &&& accumulates(tail, reduced, len - rest, 1, rest, r1)
        };
    let (zero2, lanes2, reduced2) = choose|zero: T, lanes: Seq<T>, reduced: T|
        {
            &&& is_zero(zero)
            &&& lanes.len() == NUM_LANES
            &&& forall|j: int|
                0 <= j < NUM_LANES ==> accumulates(
                    body,
                    zero,
                    j,
                    NUM_LANES as int,
                    groups,
                    #[trigger] lanes[j],
                )
            &&& #[trigger] accumulates(items(lanes), zero, 0, 1, NUM_LANES as nat, reduced)
            &&& accumulates(tail, reduced, len - rest, 1, rest, r2)
        };
    assert(zero1 == zero2);
    assert forall|j: int| 0 <= j < NUM_LANES implies lanes1[j] == lanes2[j] by {
        lemma_accumulates_deterministic(
            body,
            zero1,
            j,
            NUM_LANES as int,
            groups,
            lanes1[j],
            lanes2[j],
        );
    }
    assert(lanes1 =~= lanes2);
    assert(single_valued(items(lanes1)));
    lemma_accumulates_deterministic(
        items(lanes1),
        zero1,
        0,
        1,
        NUM_LANES as nat,
        reduced1,
        reduced2,
    );
    lemma_accumulates_deterministic(tail, reduced1, len - rest, 1, rest, r1, r2);
}

/// Where zero, sums and products have one result each, the sequential
/// kernel has one result for each pair of inputs.
pub proof fn lemma_sequential_dot_deterministic<T: Scalar>(a: Seq<T>, b: Seq<T>, r1: T, r2: T)
    requires
        deterministic_addition::<T>(),
        deterministic_multiplication::<T>(),
        sequential_dot(a, b, r1),
        sequential_dot(a, b, r2),
    ensures
        r1 == r2,
{
    let zero1 = choose|zero: T| #[trigger]
        is_zero(zero) && accumulates(products(a, b), zero, 0, 1, a.len(), r1);
    let zero2 = choose|zero: T| #[trigger]
        is_zero(zero) && accumulates(products(a, b), zero, 0, 1, a.len(), r2);
    assert(single_valued(products(a, b)));
    lemma_accumulates_deterministic(products(a, b), zero1, 0, 1, a.len(), r1, r2);
}

/// Where zero, sums and products have one result each, the lane-parallel
/// kernel has one result for each pair of inputs.
pub proof fn lemma_lane_dot_deterministic<T: Scalar>(a: Seq<T>, b: Seq<T>, r1: T, r2: T)
    requires
        deterministic_addition::<T>(),
        deterministic_multiplication::<T>(),
        lane_dot(a, b, r1),
        lane_dot(a, b, r2),
    ensures
        r1 == r2,
{
    assert(single_valued(products(a, b)));
    lemma_lane_parallel_deterministic(products(a, b), products(a, b), a.len(), r1, r2);
}

/// Where the products of `T`, the conversion from `T` to `W`, and the zero,
/// sums and products of `W` have one result each, the lane-parallel kernel
/// with widened accumulation has one result for each pair of inputs.
pub proof fn lemma_widened_lane_dot_deterministic<T: Scalar, W: Widens<T>>(
    a: Seq<T>,
    b: Seq<T>,
    r1: W,
    r2: W,
)
    requires
        deterministic_multiplication::<T>(),
        deterministic_widening::<T, W>(),
        deterministic_addition::<W>(),
        deterministic_multiplication::<W>(),
        widened_lane_dot(a, b, r1),
        widened_lane_dot(a, b, r2),
    ensures
        r1 == r2,
{
    assert(single_valued(widened_products::<T, W>(a, b)));
    assert(single_valued(wide_products::<T, W>(a, b)));
    lemma_lane_parallel_deterministic(
        widened_products::<T, W>(a, b),
        wide_products::<T, W>(a, b),
        a.len(),
        r1,
        r2,
    );
}

/// Where zero, sums and products have one result each, the reduction of a
/// lane group to one number has one result.
pub proof fn lemma_group_dot_deterministic<T: Scalar>(
    a: Seq<T>,
    b: Seq<T>,
    group: int,
    r1: T,
    r2: T,
)
    requires
        deterministic_addition::<T>(),
        deterministic_multiplication::<T>(),
        group_dot(a, b, group, r1),
        group_dot(a, b, group, r2),
    ensures
        r1 == r2,
{
    let term = products(a, b);
    let zero1 = choose|zero: T| #[trigger]
        is_zero(zero) && accumulates(term, zero, group * NUM_LANES, 1, NUM_LANES as nat, r1);
    let zero2 = choose|zero: T| #[trigger]
        is_zero(zero) && accumulates(term, zero, group * NUM_LANES, 1, NUM_LANES as nat, r2);
    assert(single_valued(term));
    lemma_accumulates_deterministic(term, zero1, group * NUM_LANES, 1, NUM_LANES as nat, r1, r2);
}

/// Where zero, sums and products have one result each, the combination of
/// partial sums has one result for each order in which they are handed over:
/// that order is all that a result of the partitioned kernel depends on
/// besides its inputs.
pub proof fn lemma_combined_deterministic<T: Scalar>(
    partials: Seq<T>,
    a: Seq<T>,
    b: Seq<T>,
    r1: T,
    r2: T,
)
    requires
        deterministic_addition::<T>(),
        deterministic_multiplication::<T>(),
        combined(partials, a, b, r1),
        combined(partials, a, b, r2),
    ensures
        r1 == r2,
{
    let term = products(a, b);
    let rest = a.len() % (NUM_LANES as nat);
    let (zero1, total1) = choose|zero: T, total: T|
        {
            &&& is_zero(zero)
            &&& #[trigger] accumulates(items(partials), zero, 0, 1, partials.len(), total)
            &&& accumulates(term, total, a.len() - rest, 1, rest, r1)
        };
    let (zero2, total2) = choose|zero: T, total: T|
        {
            &&& is_zero(zero)
            &&& #[trigger] accumulates(items(partials), zero, 0, 1, partials.len(), total)
            &&& accumulates(term, total, a.len() - rest, 1, rest, r2)
        };
    assert(single_valued(items(partials)));
    assert(single_valued(term));
    lemma_accumulates_deterministic(items(partials), zero1, 0, 1, partials.len(), total1, total2);
    lemma_accumulates_deterministic(term, total1, a.len() - rest, 1, rest, r1, r2);
}

} // verus!
