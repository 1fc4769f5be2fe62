//! The kernels.
use crate::arith::is_product;
use crate::arith::is_sum;
use crate::arith::is_zero;
use crate::arith::is_widened;
use crate::arith::total_addition;
use crate::arith::total_arithmetic;
use crate::arith::total_multiplication;
use crate::arith::Scalar;
use crate::arith::Widens;
use crate::arith::zero_plus_zero_is_zero;
use crate::chain::accumulates;
use crate::chain::items;
use crate::chain::lane_dot;
use crate::chain::lane_parallel;
use crate::chain::products;
use crate::chain::sequential_dot;
use crate::chain::wide_products;
use crate::chain::widened_lane_dot;
use crate::chain::widened_products;
use crate::NUM_LANES;
use vstd::prelude::*;

verus! {

/// The products `a[i] * b[i]` of the indices from `first` up to, not
/// including, `end`, added to `init` in the order of the indices.
pub(crate) fn add_products<T: Scalar>(
    a: &[T],
    b: &[T],
    init: T,
    first: usize,
    end: usize,
) -> (sum: T)
    requires
        a.len() == b.len(),
        first <= end <= a.len(),
        total_arithmetic::<T>(),
    ensures
        accumulates(products(a@, b@), init, first as int, 1, (end - first) as nat, sum),
        first == end ==> sum == init,
{
    let mut sum = init;
    let mut i: usize = first;
    while i < end
        invariant
            first <= i <= end <= a.len(),
            a.len() == b.len(),
            total_arithmetic::<T>(),
            accumulates(products(a@, b@), init, first as int, 1, (i - first) as nat, sum),
            first == end ==> sum == init,
        decreases end - i,
    {
        let product = a[i] * b[i];
        let next = sum + product;
        proof {
            assert(products(a@, b@)(i as int, product));
            assert(is_sum(sum, product, next));
        }
        sum = next;
        i += 1;
    }
    sum
}

/// The dot product of `a` and `b`, one element at a time: starting from
/// zero, the products `a[i] * b[i]` are added in the order of their indices.
pub fn dot_product<T: Scalar>(a: &[T], b: &[T]) -> (sum: T)
    requires
        a.len() == b.len(),
        total_arithmetic::<T>(),
    ensures
        sequential_dot(a@, b@, sum),
        a.len() == 0 ==> is_zero(sum),
{
    let zero = T::default();
    let sum = add_products(a, b, zero, 0, a.len());
    assert(is_zero(zero));
    sum
}

/// The lanes added to `zero` in their order.
fn horizontal_sum<T: Scalar>(lanes: &[T; NUM_LANES], zero: T) -> (sum: T)
    requires
        total_addition::<T>(),
    ensures
        accumulates(items(lanes@), zero, 0, 1, NUM_LANES as nat, sum),
        is_zero(zero) && zero_plus_zero_is_zero::<T>() && (forall|j: int|
            0 <= j < NUM_LANES ==> is_zero(#[trigger] lanes@[j])) ==> is_zero(sum),
{
    let mut sum = zero;
    let mut j: usize = 0;
    while j < NUM_LANES
        invariant
            j <= NUM_LANES,
            total_addition::<T>(),
            accumulates(items(lanes@), zero, 0, 1, j as nat, sum),
            is_zero(zero) && zero_plus_zero_is_zero::<T>() && (forall|k: int|
                0 <= k < NUM_LANES ==> is_zero(#[trigger] lanes@[k])) ==> is_zero(sum),
        decreases NUM_LANES - j,
    {
        let next = sum + lanes[j];
        proof {
            assert(items(lanes@)(j as int, lanes@[j as int]));
            assert(is_sum(sum, lanes@[j as int], next));
        }
        sum = next;
        j += 1;
    }
    sum
}

/// The dot product of `a` and `b`, `NUM_LANES` elements at a time. Each lane
/// adds up the products of the elements that fall into it, group after
/// group; the lanes are then added together, and at last the products of the
/// elements behind the last full group, in their order.
pub fn simd_dot_product<T: Scalar>(a: &[T], b: &[T]) -> (sum: T)
    requires
        a.len() == b.len(),
        total_arithmetic::<T>(),
    ensures
        lane_dot(a@, b@, sum),
        a.len() == 0 && zero_plus_zero_is_zero::<T>() ==> is_zero(sum),
{
    let zero = T::default();
    let mut lanes = [zero;NUM_LANES];
    let mut i: usize = 0;
    while a.len() - i >= NUM_LANES
        invariant
            i <= a.len(),
            i % NUM_LANES == 0,
            a.len() == b.len(),
            total_arithmetic::<T>(),
            is_zero(zero),
            forall|j: int|
                0 <= j < NUM_LANES ==> accumulates(
                    products(a@, b@),
                    zero,
                    j,
                    NUM_LANES as int,
                    (i / NUM_LANES) as nat,
                    #[trigger] lanes@[j],
                ),
            i == 0 ==> forall|j: int| 0 <= j < NUM_LANES ==> #[trigger] lanes@[j] == zero,
        decreases a.len() - i,
    {
        let mut j: usize = 0;
        while j < NUM_LANES
            invariant
                j <= NUM_LANES,
                i + NUM_LANES <= a.len(),
                i % NUM_LANES == 0,
                a.len() == b.len(),
                total_arithmetic::<T>(),
                forall|k: int|
                    0 <= k < j ==> accumulates(
                        products(a@, b@),
                        zero,
                        k,
                        NUM_LANES as int,
                        (i / NUM_LANES + 1) as nat,
                        #[trigger] lanes@[k],
                    ),
                forall|k: int|
                    j <= k < NUM_LANES ==> accumulates(
                        products(a@, b@),
                        zero,
                        k,
                        NUM_LANES as int,
                        (i / NUM_LANES) as nat,
                        #[trigger] lanes@[k],
                    ),
            decreases NUM_LANES - j,
        {
            let product = a[i + j] * b[i + j];
            let next = lanes[j] + product;
            proof {
                assert(products(a@, b@)(j + (i / NUM_LANES) * NUM_LANES, product));
                assert(is_sum(lanes@[j as int], product, next));
            }
            lanes[j] = next;
            j += 1;
        }
        i += NUM_LANES;
    }
    let reduced = horizontal_sum(&lanes, zero);
    let sum = add_products(a, b, reduced, i, a.len());
    proof {
        assert(i == a.len() - a.len() % NUM_LANES);
        assert(i / NUM_LANES == a.len() / NUM_LANES);
        assert(lane_parallel(products(a@, b@), products(a@, b@), a@.len(), sum));
    }
    sum
}

/// The dot product of `a` and `b`, `NUM_LANES` elements at a time, added up
/// in the wider type `W`. In the full groups each product is taken in `T`
/// and widened before its lane adds it; the lanes are then added together;
/// the elements behind the last full group are widened first, and their
/// products, taken in `W`, are added in their order.
pub fn simd_dot_product_mixed_precision<T: Scalar, W: Widens<T>>(a: &[T], b: &[T]) -> (sum: W)
    requires
        a.len() == b.len(),
        total_multiplication::<T>(),
        total_arithmetic::<W>(),
    ensures
        widened_lane_dot(a@, b@, sum),
        a.len() == 0 && zero_plus_zero_is_zero::<W>() ==> is_zero(sum),
{
    let zero = W::default();
    let mut lanes = [zero;NUM_LANES];
    let mut i: usize = 0;
    while a.len() - i >= NUM_LANES
        invariant
            i <= a.len(),
            i % NUM_LANES == 0,
            a.len() == b.len(),
            total_multiplication::<T>(),
            total_arithmetic::<W>(),
            is_zero(zero),
            forall|j: int|
                0 <= j < NUM_LANES ==> accumulates(
                    widened_products(a@, b@),
                    zero,
                    j,
                    NUM_LANES as int,
                    (i / NUM_LANES) as nat,
                    #[trigger] lanes@[j],
                ),
            i == 0 ==> forall|j: int| 0 <= j < NUM_LANES ==> #[trigger] lanes@[j] == zero,
        decreases a.len() - i,
    {
        let mut j: usize = 0;
        while j < NUM_LANES
            invariant
                j <= NUM_LANES,
                i + NUM_LANES <= a.len(),
                i % NUM_LANES == 0,
                a.len() == b.len(),
                total_multiplication::<T>(),
                total_arithmetic::<W>(),
                forall|k: int|
                    0 <= k < j ==> accumulates(
                        widened_products(a@, b@),
                        zero,
                        k,
                        NUM_LANES as int,
                        (i / NUM_LANES + 1) as nat,
                        #[trigger] lanes@[k],
                    ),
                forall|k: int|
                    j <= k < NUM_LANES ==> accumulates(
                        widened_products(a@, b@),
                        zero,
                        k,
                        NUM_LANES as int,
                        (i / NUM_LANES) as nat,
                        #[trigger] lanes@[k],
                    ),
            decreases NUM_LANES - j,
        {
            let product = a[i + j] * b[i + j];
            let wide = W::from(product);
            let next = lanes[j] + wide;
            proof {
                assert(is_widened(product, wide));
                assert(widened_products::<T, W>(a@, b@)(
                    j + (i / NUM_LANES) * NUM_LANES,
                    wide,
                ));
                assert(is_sum(lanes@[j as int], wide, next));
            }
            lanes[j] = next;
            j += 1;
        }
        i += NUM_LANES;
    }
    let reduced = horizontal_sum(&lanes, zero);
    let ghost full = i;
    let mut sum = reduced;
    while i < a.len()
        invariant
            full <= i <= a.len(),
            a.len() == b.len(),
            total_arithmetic::<W>(),
            accumulates(wide_products(a@, b@), reduced, full as int, 1, (i - full) as nat, sum),
            a.len() == 0 ==> sum == reduced,
        decreases a.len() - i,
    {
        let x = W::from(a[i]);
        let y = W::from(b[i]);
        let product = x * y;
        let next = sum + product;
        proof {
            assert(is_product(x, y, product));
            assert(wide_products::<T, W>(a@, b@)(i as int, product));
            assert(is_sum(sum, product, next));
        }
        sum = next;
        i += 1;
    }
    proof {
        assert(full == a.len() - a.len() % NUM_LANES);
        assert(full / NUM_LANES == a.len() / NUM_LANES);
        assert(lane_parallel(widened_products(a@, b@), wide_products(a@, b@), a@.len(), sum));
    }
    sum
}

} // verus!
