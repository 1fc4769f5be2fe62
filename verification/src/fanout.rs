//! The lane-parallel kernel in pieces that workers can share.
//!
//! The full lane groups of the input are independent units of work: a worker
//! reduces each of its groups to one number with `group_sums`. When every
//! worker has finished, `combine_group_sums` adds up what they returned and
//! adds the products of the elements behind the last full group. Which
//! worker takes which groups is decided by `worker_span`; in what order the
//! group sums are handed to `combine_group_sums` is the caller's choice, and
//! the result depends on it wherever addition rounds.
use crate::arith::is_sum;
use crate::arith::is_zero;
use crate::arith::total_arithmetic;
use crate::arith::Scalar;
use crate::chain::accumulates;
use crate::chain::items;
use crate::chain::products;
use crate::kernels::add_products;
use crate::layout::group_count;
use crate::NUM_LANES;
use vstd::prelude::*;

verus! {

/// `r` is a result of reducing lane group `group` of `a` and `b` to one
/// number: the products of its elements added to zero in the order of the
/// lanes.
pub open spec fn group_dot<T: Scalar>(a: Seq<T>, b: Seq<T>, group: int, r: T) -> bool {
    exists|zero: T| #[trigger]
        is_zero(zero) && accumulates(
            products(a, b),
            zero,
            group * NUM_LANES,
            1,
            NUM_LANES as nat,
            r,
        )
}

/// `r` is a result of combining `partials` with the tail of `a` and `b`:
/// the partial sums added to zero in their order, then the products of the
/// elements behind the last full lane group in theirs.
pub open spec fn combined<T: Scalar>(partials: Seq<T>, a: Seq<T>, b: Seq<T>, r: T) -> bool {
    let rest = a.len() % (NUM_LANES as nat);
    exists|zero: T, total: T|
        {
            &&& is_zero(zero)
            &&& #[trigger] accumulates(items(partials), zero, 0, 1, partials.len(), total)
            &&& accumulates(products(a, b), total, a.len() - rest, 1, rest, r)
        }
}

/// Lane group `group` of `a` and `b` reduced to one number.
pub fn group_dot_product<T: Scalar>(a: &[T], b: &[T], group: usize) -> (sum: T)
    requires
        a.len() == b.len(),
        group < group_count(a.len() as nat),
        total_arithmetic::<T>(),
    ensures
        group_dot(a@, b@, group as int, sum),
{
    let base = group * NUM_LANES;
    let zero = T::default();
    let sum = add_products(a, b, zero, base, base + NUM_LANES);
    assert(is_zero(zero));
    sum
}

/// The work of one worker: each of the lane groups from `first` up to, not
/// including, `end` reduced to one number, in the order of the groups.
pub fn group_sums<T: Scalar>(a: &[T], b: &[T], first: usize, end: usize) -> (sums: Vec<T>)
    requires
        a.len() == b.len(),
        first <= end <= group_count(a.len() as nat),
        total_arithmetic::<T>(),
    ensures
        sums.len() == end - first,
        forall|k: int| 0 <= k < sums.len() ==> group_dot(a@, b@, first + k, #[trigger] sums@[k]),
{
    let mut sums: Vec<T> = Vec::new();
    let mut group = first;
    while group < end
        invariant
            first <= group <= end,
            end <= group_count(a.len() as nat),
            a.len() == b.len(),
            total_arithmetic::<T>(),
            sums.len() == group - first,
            forall|k: int|
                0 <= k < sums.len() ==> group_dot(a@, b@, first + k, #[trigger] sums@[k]),
        decreases end - group,
    {
        let sum = group_dot_product(a, b, group);
        sums.push(sum);
        group += 1;
    }
    sums
}

/// The partial sums of the workers and the tail of `a` and `b` added up:
/// starting from zero, the partial sums in the order of `partials`, then the
/// products of the elements behind the last full lane group in the order of
/// their indices.
pub fn combine_group_sums<T: Scalar>(partials: &[T], a: &[T], b: &[T]) -> (sum: T)
    requires
        a.len() == b.len(),
        total_arithmetic::<T>(),
    ensures
        combined(partials@, a@, b@, sum),
        partials.len() == 0 && a.len() % NUM_LANES == 0 ==> is_zero(sum),
{
    let zero = T::default();
    let mut total = zero;
    let mut k: usize = 0;
    while k < partials.len()
        invariant
            k <= partials.len(),
            total_arithmetic::<T>(),
            is_zero(zero),
            accumulates(items(partials@), zero, 0, 1, k as nat, total),
            partials.len() == 0 ==> total == zero,
        decreases partials.len() - k,
    {
        let next = total + partials[k];
        proof {
            assert(items(partials@)(k as int, partials@[k as int]));
            assert(is_sum(total, partials@[k as int], next));
        }
        total = next;
        k += 1;
    }
    let full = a.len() - a.len() % NUM_LANES;
    add_products(a, b, total, full, a.len())
}

} // verus!
