//! What a kernel may return, as a relation between its inputs and a result.
use crate::arith::is_product;
use crate::arith::is_sum;
use crate::arith::is_widened;
use crate::arith::is_zero;
use crate::arith::Scalar;
use crate::arith::Widens;
use crate::NUM_LANES;
use vstd::prelude::*;

verus! {

/// `r` is a result of adding to `init`, one after the other, `count` terms:
/// those of the indices `start`, `start + stride`, `start + 2 * stride`, ...,
/// where `term(i, t)` says that `t` is a value the term of index `i` may have.
pub open spec fn accumulates<T: Scalar>(
    term: spec_fn(int, T) -> bool,
    init: T,
    start: int,
    stride: int,
    count: nat,
    r: T,
) -> bool
    decreases count,
{
    if count == 0 {
        r == init
    } else {
        exists|s: T, t: T|
            {
                &&& accumulates(term, init, start, stride, (count - 1) as nat, s)
                &&& term(start + (count - 1) * stride, t)
                &&& #[trigger] is_sum(s, t, r)
            }
    }
}

/// The terms of a dot product: the term of index `i` is `a[i] * b[i]`.
pub open spec fn products<T: Scalar>(a: Seq<T>, b: Seq<T>) -> spec_fn(int, T) -> bool {
    |i: int, t: T| is_product(a[i], b[i], t)
}

/// `r` is a result of the sequential kernel on `a` and `b`: the products
/// `a[i] * b[i]` added to zero in the order of their indices.
pub open spec fn sequential_dot<T: Scalar>(a: Seq<T>, b: Seq<T>, r: T) -> bool {
    exists|zero: T| #[trigger] is_zero(zero) && accumulates(products(a, b), zero, 0, 1, a.len(), r)
}

/// The terms of a dot product whose products are taken in `T` and then
/// widened: the term of index `i` is `W::from(a[i] * b[i])`.
pub open spec fn widened_products<T: Scalar, W: Widens<T>>(a: Seq<T>, b: Seq<T>) -> spec_fn(
    int,
    W,
) -> bool {
    |i: int, w: W| exists|p: T| is_product(a[i], b[i], p) && #[trigger] is_widened(p, w)
}

/// The terms of a dot product whose elements are widened and then
/// multiplied in `W`: the term of index `i` is `W::from(a[i]) * W::from(b[i])`.
pub open spec fn wide_products<T: Scalar, W: Widens<T>>(a: Seq<T>, b: Seq<T>) -> spec_fn(
    int,
    W,
) -> bool {
    |i: int, w: W|
        exists|x: W, y: W|
            is_widened(a[i], x) && is_widened(b[i], y) && #[trigger] is_product(x, y, w)
}

/// The terms of a sum over a sequence: the term of index `i` is `v[i]`.
pub open spec fn items<T>(v: Seq<T>) -> spec_fn(int, T) -> bool {
    |i: int, t: T| t == v[i]
}

/// `r` is a result of the lane-parallel reduction of `len` terms. The terms of
/// the full groups of `NUM_LANES` indices, taken from `body`, are added to
/// zero lane by lane, each lane in the order of its indices; the lanes are
/// added to zero in their order; the terms of the remaining indices, taken
/// from `tail`, are added to that in their order.
pub open spec fn lane_parallel<T: Scalar>(
    body: spec_fn(int, T) -> bool,
    tail: spec_fn(int, T) -> bool,
    len: nat,
    r: T,
) -> bool {
    let groups = len / (NUM_LANES as nat);
    let rest = len % (NUM_LANES as nat);
    exists|zero: T, lanes: Seq<T>, reduced: T|
        {
            &&& is_zero(zero)
            &&& lanes.len() == NUM_LANES
            &&& forall|j: int|
                0 <= j < NUM_LANES ==> accumulates(
                    body,
                    zero,
                    j,
                    NUM_LANES as int,
                    groups,
                    #[trigger] lanes[j],
                )
            &&& #[trigger] accumulates(items(lanes), zero, 0, 1, NUM_LANES as nat, reduced)
            &&& accumulates(tail, reduced, len - rest, 1, rest, r)
        }
}

/// `r` is a result of the lane-parallel kernel on `a` and `b`.
pub open spec fn lane_dot<T: Scalar>(a: Seq<T>, b: Seq<T>, r: T) -> bool {
    lane_parallel(products(a, b), products(a, b), a.len(), r)
}

/// `r` is a result of the lane-parallel kernel with widened accumulation on
/// `a` and `b`: in the full groups the products are taken in `T` and widened
/// before they are added; behind them the elements are widened and their
/// products taken in `W`.
pub open spec fn widened_lane_dot<T: Scalar, W: Widens<T>>(a: Seq<T>, b: Seq<T>, r: W) -> bool {
    lane_parallel(widened_products(a, b), wide_products(a, b), a.len(), r)
}

} // verus!
