//! The kernels under exact addition.
//!
//! The kernels differ in the order in which they add, and nowhere else.
//! Where addition does not round, so that neither the order nor the grouping
//! of the operands matters, they all return the same number: the sum of the
//! products, which `dot_sum` writes down.
use crate::arith::is_product;
use crate::arith::is_sum;
use crate::arith::is_widened;
use crate::arith::is_zero;
use crate::arith::Scalar;
use crate::arith::Widens;
use crate::chain::accumulates;
use crate::chain::items;
use crate::chain::lane_dot;
use crate::chain::lane_parallel;
use crate::chain::products;
use crate::chain::sequential_dot;
use crate::chain::wide_products;
use crate::chain::widened_lane_dot;
use crate::chain::widened_products;
use crate::fanout::combined;
use crate::fanout::group_dot;
use crate::layout::group_count;
use crate::NUM_LANES;
use vstd::prelude::*;

verus! {

/// Addition of `T` is exact, and `plus` is what it computes: the order and
/// the grouping of the operands do not matter to `plus`, and zero added to a
/// number gives that number.
#[verifier::opaque]
pub open spec fn exact_addition<T: Scalar>(plus: spec_fn(T, T) -> T) -> bool {
    &&& forall|x: T, y: T, r: T| #[trigger] is_sum(x, y, r) ==> r == plus(x, y)
    &&& forall|x: T, y: T| #[trigger] plus(x, y) == plus(y, x)
    &&& forall|x: T, y: T, z: T| #[trigger] plus(plus(x, y), z) == plus(x, plus(y, z))
    &&& forall|zero: T, x: T| is_zero(zero) ==> #[trigger] plus(zero, x) == x
}

/// `times` is what multiplication of `T` computes.
pub open spec fn multiplies_as<T: Scalar>(times: spec_fn(T, T) -> T) -> bool {
    forall|x: T, y: T, r: T| #[trigger] is_product(x, y, r) ==> r == times(x, y)
}

/// `widen` is what the conversion from `T` to `W` computes.
pub open spec fn widens_as<T, W: Widens<T>>(widen: spec_fn(T) -> W) -> bool {
    forall|x: T, w: W| #[trigger] is_widened(x, w) ==> w == widen(x)
}

/// The sum of `init` and the first `count` values of `f`.
pub open spec fn sum_onto<T>(
    plus: spec_fn(T, T) -> T,
    f: spec_fn(int) -> T,
    init: T,
    count: nat,
) -> T
    decreases count,
{
    if count == 0 {
        init
    } else {
        plus(sum_onto(plus, f, init, (count - 1) as nat), f(count - 1))
    }
}

/// The products of a dot product: the value of index `i` is
/// `times(a[i], b[i])`.
pub open spec fn product_values<T>(times: spec_fn(T, T) -> T, a: Seq<T>, b: Seq<T>) -> spec_fn(
    int,
) -> T {
    |i: int| times(a[i], b[i])
}

/// The dot product of `a` and `b`: the sum of `zero` and the products
/// `times(a[i], b[i])`.
pub open spec fn dot_sum<T>(
    plus: spec_fn(T, T) -> T,
    times: spec_fn(T, T) -> T,
    zero: T,
    a: Seq<T>,
    b: Seq<T>,
) -> T {
    sum_onto(plus, product_values(times, a, b), zero, a.len())
}

/// Each value that `term` admits for an index is the value of `f` there.
pub open spec fn valued_by<T>(term: spec_fn(int, T) -> bool, f: spec_fn(int) -> T) -> bool {
    forall|i: int, t: T| #[trigger] term(i, t) ==> t == f(i)
}

/// `order` names each of the numbers from 0 up to, not including, `count`
/// once.
pub open spec fn is_arrangement(order: Seq<int>, count: nat) -> bool {
    &&& order.len() == count
    &&& forall|k: int| 0 <= k < count ==> 0 <= #[trigger] order[k] < count
    &&& forall|k: int, l: int| 0 <= k < l < count ==> order[k] != order[l]
    &&& forall|g: int| 0 <= g < count ==> #[trigger] order.contains(g)
}

spec fn shifted<T>(f: spec_fn(int) -> T, offset: int) -> spec_fn(int) -> T {
    |k: int| f(offset + k)
}

spec fn strided<T>(f: spec_fn(int) -> T, start: int, stride: int) -> spec_fn(int) -> T {
    |k: int| f(start + k * stride)
}

spec fn pointwise<T>(plus: spec_fn(T, T) -> T, u: spec_fn(int) -> T, v: spec_fn(int) -> T) -> spec_fn(
    int,
) -> T {
    |k: int| plus(u(k), v(k))
}

spec fn entries<T>(v: Seq<T>) -> spec_fn(int) -> T {
    |k: int| v[k]
}

/// What each lane holds after `groups` groups.
spec fn lane_totals<T>(plus: spec_fn(T, T) -> T, f: spec_fn(int) -> T, zero: T, groups: nat) -> spec_fn(
    int,
) -> T {
    |j: int| sum_onto(plus, strided(f, j, NUM_LANES as int), zero, groups)
}

/// The sum of each group by itself.
spec fn group_totals<T>(plus: spec_fn(T, T) -> T, f: spec_fn(int) -> T, zero: T) -> spec_fn(int) -> T {
    |g: int| sum_onto(plus, shifted(f, g * NUM_LANES), zero, NUM_LANES as nat)
}

proof fn lemma_sum_is_plus<T: Scalar>(plus: spec_fn(T, T) -> T, x: T, y: T, r: T)
    requires
        exact_addition(plus),
        is_sum(x, y, r),
    ensures
        r == plus(x, y),
{
    reveal(exact_addition);
}

proof fn lemma_plus_commutes<T: Scalar>(plus: spec_fn(T, T) -> T, x: T, y: T)
    requires
        exact_addition(plus),
    ensures
        plus(x, y) == plus(y, x),
{
    reveal(exact_addition);
}

proof fn lemma_plus_associates<T: Scalar>(plus: spec_fn(T, T) -> T, x: T, y: T, z: T)
    requires
        exact_addition(plus),
    ensures
        plus(plus(x, y), z) == plus(x, plus(y, z)),
{
    reveal(exact_addition);
}

proof fn lemma_plus_zero<T: Scalar>(plus: spec_fn(T, T) -> T, zero: T, x: T)
    requires
        exact_addition(plus),
        is_zero(zero),
    ensures
        plus(zero, x) == x,
        plus(x, zero) == x,
{
    reveal(exact_addition);
}

proof fn lemma_one_zero<T: Scalar>(plus: spec_fn(T, T) -> T, zero: T, other: T)
    requires
        exact_addition(plus),
        is_zero(zero),
        is_zero(other),
    ensures
        zero == other,
{
    lemma_plus_zero(plus, zero, other);
    lemma_plus_zero(plus, other, zero);
}

/// (w + x) + (y + z) is (w + y) + (x + z).
proof fn lemma_plus_interchange<T: Scalar>(plus: spec_fn(T, T) -> T, w: T, x: T, y: T, z: T)
    requires
        exact_addition(plus),
    ensures
        plus(plus(w, x), plus(y, z)) == plus(plus(w, y), plus(x, z)),
{
    lemma_plus_associates(plus, w, x, plus(y, z));
    lemma_plus_associates(plus, x, y, z);
    lemma_plus_commutes(plus, x, y);
    lemma_plus_associates(plus, y, x, z);
    lemma_plus_associates(plus, w, y, plus(x, z));
}

proof fn lemma_sum_onto_pointwise<T>(
    plus: spec_fn(T, T) -> T,
    f: spec_fn(int) -> T,
    g: spec_fn(int) -> T,
    init: T,
    count: nat,
)
    requires
        forall|k: int| 0 <= k < count ==> #[trigger] f(k) == g(k),
    ensures
        sum_onto(plus, f, init, count) == sum_onto(plus, g, init, count),
    decreases count,
{
    if count > 0 {
        lemma_sum_onto_pointwise(plus, f, g, init, (count - 1) as nat);
        assert(f(count - 1) == g(count - 1));
    }
}

/// A sum onto `init` is `init` plus the sum onto zero.
proof fn lemma_sum_onto_init<T: Scalar>(
    plus: spec_fn(T, T) -> T,
    f: spec_fn(int) -> T,
    zero: T,
    init: T,
    count: nat,
)
    requires
        exact_addition(plus),
        is_zero(zero),
    ensures
        sum_onto(plus, f, init, count) == plus(init, sum_onto(plus, f, zero, count)),
    decreases count,
{
    if count == 0 {
        lemma_plus_zero(plus, zero, init);
    } else {
        let before = (count - 1) as nat;
        lemma_sum_onto_init(plus, f, zero, init, before);
        lemma_plus_associates(plus, init, sum_onto(plus, f, zero, before), f(count - 1));
    }
}

/// A sum of `m + n` values is the sum of the last `n` onto the sum of the
/// first `m`.
proof fn lemma_sum_onto_split<T>(
    plus: spec_fn(T, T) -> T,
    f: spec_fn(int) -> T,
    init: T,
    m: nat,
    n: nat,
)
    ensures
        sum_onto(plus, f, init, m + n) == sum_onto(
            plus,
            shifted(f, m as int),
            sum_onto(plus, f, init, m),
            n,
        ),
    decreases n,
{
    if n > 0 {
        lemma_sum_onto_split(plus, f, init, m, (n - 1) as nat);
        assert(shifted(f, m as int)(n - 1) == f(m + n - 1));
        assert(sum_onto(plus, f, init, m + n) == plus(
            sum_onto(plus, f, init, (m + n - 1) as nat),
            f(m + n - 1),
        ));
    }
}

/// The sum of the sums of two rows, entry by entry, is the sum of the sums
/// of the rows.
proof fn lemma_sum_onto_zip<T: Scalar>(
    plus: spec_fn(T, T) -> T,
    u: spec_fn(int) -> T,
    v: spec_fn(int) -> T,
    zero: T,
    count: nat,
)
    requires
        exact_addition(plus),
        is_zero(zero),
    ensures
        sum_onto(plus, pointwise(plus, u, v), zero, count) == plus(
            sum_onto(plus, u, zero, count),
            sum_onto(plus, v, zero, count),
        ),
    decreases count,
{
    if count == 0 {
        lemma_plus_zero(plus, zero, zero);
    } else {
        let before = (count - 1) as nat;
        lemma_sum_onto_zip(plus, u, v, zero, before);
        assert(pointwise(plus, u, v)(count - 1) == plus(u(count - 1), v(count - 1)));
        lemma_plus_interchange(
            plus,
            sum_onto(plus, u, zero, before),
            sum_onto(plus, v, zero, before),
            u(count - 1),
            v(count - 1),
        );
    }
}

proof fn lemma_sum_onto_zeros<T: Scalar>(
    plus: spec_fn(T, T) -> T,
    f: spec_fn(int) -> T,
    zero: T,
    count: nat,
)
    requires
        exact_addition(plus),
        is_zero(zero),
        forall|k: int| 0 <= k < count ==> #[trigger] f(k) == zero,
    ensures
        sum_onto(plus, f, zero, count) == zero,
    decreases count,
{
    if count > 0 {
        lemma_sum_onto_zeros(plus, f, zero, (count - 1) as nat);
        assert(f(count - 1) == zero);
        lemma_plus_zero(plus, zero, zero);
    }
}

/// An entry may be taken out of a sum and added last.
proof fn lemma_sum_onto_remove<T: Scalar>(plus: spec_fn(T, T) -> T, v: Seq<T>, zero: T, p: int)
    requires
        exact_addition(plus),
        is_zero(zero),
        0 <= p < v.len(),
    ensures
        sum_onto(plus, entries(v), zero, v.len()) == plus(
            sum_onto(plus, entries(v.remove(p)), zero, (v.len() - 1) as nat),
            v[p],
        ),
    decreases v.len(),
{
    let n = v.len();
    let rest = v.remove(p);
    let last = (n - 1) as nat;
    if p == n - 1 {
        assert forall|k: int| 0 <= k < last implies #[trigger] entries(v)(k) == entries(rest)(k) by {}
        lemma_sum_onto_pointwise(plus, entries(v), entries(rest), zero, last);
    } else {
        let front = v.drop_last();
        lemma_sum_onto_remove(plus, front, zero, p);
        assert forall|k: int| 0 <= k < last implies #[trigger] entries(v)(k) == entries(front)(k) by {}
        lemma_sum_onto_pointwise(plus, entries(v), entries(front), zero, last);
        let before = (last - 1) as nat;
        assert forall|k: int| 0 <= k < before implies #[trigger] entries(rest)(k) == entries(
            front.remove(p),
        )(k) by {}
        lemma_sum_onto_pointwise(plus, entries(rest), entries(front.remove(p)), zero, before);
        assert(entries(rest)(last - 1) == v[n - 1]);
        let x = sum_onto(plus, entries(front.remove(p)), zero, before);
        lemma_plus_associates(plus, x, v[p], v[n - 1]);
        lemma_plus_commutes(plus, v[p], v[n - 1]);
        lemma_plus_associates(plus, x, v[n - 1], v[p]);
    }
}

/// A sum does not depend on the order of its terms.
proof fn lemma_sum_onto_arranged<T: Scalar>(
    plus: spec_fn(T, T) -> T,
    h: spec_fn(int) -> T,
    order: Seq<int>,
    zero: T,
    count: nat,
)
    requires
        exact_addition(plus),
        is_zero(zero),
        is_arrangement(order, count),
    ensures
        sum_onto(plus, entries(order.map_values(h)), zero, count) == sum_onto(plus, h, zero, count),
    decreases count,
{
    if count > 0 {
        let top = count - 1;
        assert(order.contains(top));
        let p = choose|p: int| 0 <= p < order.len() && order[p] == top;
        let others = order.remove(p);
        let before = (count - 1) as nat;
        assert forall|g: int| 0 <= g < before implies #[trigger] others.contains(g) by {
            assert(order.contains(g));
            let k = choose|k: int| 0 <= k < order.len() && order[k] == g;
            if k < p {
                assert(others[k] == g);
            } else {
                assert(others[k - 1] == g);
            }
        }
        assert forall|k: int| 0 <= k < before implies 0 <= #[trigger] others[k] < before by {
            if k < p {
                assert(others[k] == order[k]);
            } else {
                assert(others[k] == order[k + 1]);
            }
        }
        assert forall|k: int, l: int| 0 <= k < l < before implies others[k] != others[l] by {
            let i = if k < p {
                k
            } else {
                k + 1
            };
            let j = if l < p {
                l
            } else {
                l + 1
            };
            assert(others[k] == order[i]);
            assert(others[l] == order[j]);
        }
        assert(is_arrangement(others, before));
        lemma_sum_onto_arranged(plus, h, others, zero, before);
        let v = order.map_values(h);
        lemma_sum_onto_remove(plus, v, zero, p);
        assert(v.remove(p) =~= others.map_values(h));
        assert(v[p] == h(top));
    }
}

/// The lanes, added together, hold the sum of all the terms of the groups.
proof fn lemma_lanes_total<T: Scalar>(
    plus: spec_fn(T, T) -> T,
    f: spec_fn(int) -> T,
    zero: T,
    groups: nat,
)
    requires
        exact_addition(plus),
        is_zero(zero),
    ensures
        sum_onto(plus, lane_totals(plus, f, zero, groups), zero, NUM_LANES as nat) == sum_onto(
            plus,
            f,
            zero,
            groups * (NUM_LANES as nat),
        ),
    decreases groups,
{
    let lanes = NUM_LANES as nat;
    if groups == 0 {
        assert forall|j: int| 0 <= j < lanes implies #[trigger] lane_totals(plus, f, zero, 0)(j)
            == zero by {}
        lemma_sum_onto_zeros(plus, lane_totals(plus, f, zero, 0), zero, lanes);
    } else {
        let before = (groups - 1) as nat;
        let done = before * (NUM_LANES as nat);
        let block = shifted(f, done as int);
        let old_lanes = lane_totals(plus, f, zero, before);
        let new_lanes = lane_totals(plus, f, zero, groups);
        lemma_lanes_total(plus, f, zero, before);
        assert forall|j: int| 0 <= j < lanes implies #[trigger] new_lanes(j) == pointwise(
            plus,
            old_lanes,
            block,
        )(j) by {
            assert(strided(f, j, NUM_LANES as int)(groups - 1) == f(j + (groups - 1) * NUM_LANES));
            assert(block(j) == f(done + j));
        }
        lemma_sum_onto_pointwise(plus, new_lanes, pointwise(plus, old_lanes, block), zero, lanes);
        lemma_sum_onto_zip(plus, old_lanes, block, zero, lanes);
        lemma_sum_onto_init(plus, block, zero, sum_onto(plus, f, zero, done), lanes);
        lemma_sum_onto_split(plus, f, zero, done, lanes);
        assert(done + lanes == groups * NUM_LANES);
    }
}

/// The sums of the groups, added together, are the sum of all their terms.
proof fn lemma_groups_total<T: Scalar>(
    plus: spec_fn(T, T) -> T,
    f: spec_fn(int) -> T,
    zero: T,
    groups: nat,
)
    requires
        exact_addition(plus),
        is_zero(zero),
    ensures
        sum_onto(plus, group_totals(plus, f, zero), zero, groups) == sum_onto(
            plus,
            f,
            zero,
            groups * (NUM_LANES as nat),
        ),
    decreases groups,
{
    if groups > 0 {
        let before = (groups - 1) as nat;
        let done = before * (NUM_LANES as nat);
        let width = NUM_LANES as nat;
        lemma_groups_total(plus, f, zero, before);
        assert(group_totals(plus, f, zero)(groups - 1) == sum_onto(
            plus,
            shifted(f, done as int),
            zero,
            width,
        ));
        lemma_sum_onto_init(plus, shifted(f, done as int), zero, sum_onto(plus, f, zero, done), width);
        lemma_sum_onto_split(plus, f, zero, done, width);
        assert(done + width == groups * (NUM_LANES as nat));
    }
}

/// Terms added up in a fixed order give the sum of their values.
proof fn lemma_accumulates_is_sum<T: Scalar>(
    plus: spec_fn(T, T) -> T,
    term: spec_fn(int, T) -> bool,
    f: spec_fn(int) -> T,
    init: T,
    start: int,
    stride: int,
    count: nat,
    r: T,
)
    requires
        exact_addition(plus),
        valued_by(term, f),
        accumulates(term, init, start, stride, count, r),
    ensures
        r == sum_onto(plus, strided(f, start, stride), init, count),
    decreases count,
{
    if count > 0 {
        let before = (count - 1) as nat;
        let index = start + (count - 1) * stride;
        let (s, t) = choose|s: T, t: T|
            accumulates(term, init, start, stride, before, s) && term(index, t) && #[trigger] is_sum(
                s,
                t,
                r,
            );
        lemma_accumulates_is_sum(plus, term, f, init, start, stride, before, s);
        assert(strided(f, start, stride)(count - 1) == t);
        lemma_sum_is_plus(plus, s, t, r);
    }
}

/// The terms of `count` consecutive indices, added to the sum of the `done`
/// terms before them, give the sum of them all.
proof fn lemma_run_is_sum<T: Scalar>(
    plus: spec_fn(T, T) -> T,
    term: spec_fn(int, T) -> bool,
    f: spec_fn(int) -> T,
    zero: T,
    done: nat,
    count: nat,
    r: T,
)
    requires
        exact_addition(plus),
        valued_by(term, f),
        accumulates(term, sum_onto(plus, f, zero, done), done as int, 1, count, r),
    ensures
        r == sum_onto(plus, f, zero, done + count),
{
    let init = sum_onto(plus, f, zero, done);
    lemma_accumulates_is_sum(plus, term, f, init, done as int, 1, count, r);
    assert forall|k: int| 0 <= k < count implies #[trigger] strided(f, done as int, 1)(k)
        == shifted(f, done as int)(k) by {}
    lemma_sum_onto_pointwise(
        plus,
        strided(f, done as int, 1),
        shifted(f, done as int),
        init,
        count,
    );
    lemma_sum_onto_split(plus, f, zero, done, count);
}

/// Where addition is exact, the lane-parallel reduction of terms whose
/// values are those of `f` gives the sum of the first `len` values of `f`.
pub proof fn lemma_lane_parallel_is_sum<T: Scalar>(
    plus: spec_fn(T, T) -> T,
    body: spec_fn(int, T) -> bool,
    tail: spec_fn(int, T) -> bool,
    f: spec_fn(int) -> T,
    len: nat,
    zero: T,
    r: T,
)
    requires
        exact_addition(plus),
        valued_by(body, f),
        valued_by(tail, f),
        is_zero(zero),
        lane_parallel(body, tail, len, r),
    ensures
        r == sum_onto(plus, f, zero, len),
{
    let width = NUM_LANES as nat;
    let groups = len / width;
    let rest = len % width;
    let (zero1, lanes, reduced) = choose|zero: T, lanes: Seq<T>, reduced: T|
        {
            &&& is_zero(zero)
            &&& lanes.len() == NUM_LANES
            &&& forall|j: int|
                0 <= j < NUM_LANES ==> accumulates(
                    body,
                    zero,
                    j,
                    NUM_LANES as int,
                    groups,
                    #[trigger] lanes[j],
                )
            &&& #[trigger] accumulates(items(lanes), zero, 0, 1, NUM_LANES as nat, reduced)
            &&& accumulates(tail, reduced, len - rest, 1, rest, r)
        };
    lemma_one_zero(plus, zero, zero1);
    // Each lane holds the sum of its terms.
    let totals = lane_totals(plus, f, zero, groups);
    assert forall|j: int| 0 <= j < width implies #[trigger] lanes[j] == totals(j) by {
        lemma_accumulates_is_sum(plus, body, f, zero, j, NUM_LANES as int, groups, lanes[j]);
    }
    // The lanes together hold the sum of the terms of the full groups.
    assert(valued_by(items(lanes), entries(lanes)));
    lemma_accumulates_is_sum(plus, items(lanes), entries(lanes), zero, 0, 1, width, reduced);
    assert forall|j: int| 0 <= j < width implies #[trigger] strided(entries(lanes), 0, 1)(j)
        == totals(j) by {
        assert(entries(lanes)(j) == lanes[j]);
    }
    lemma_sum_onto_pointwise(plus, strided(entries(lanes), 0, 1), totals, zero, width);
    lemma_lanes_total(plus, f, zero, groups);
    let full = groups * width;
    assert(full == len - rest);
    assert(reduced == sum_onto(plus, f, zero, full));
    // The terms behind the full groups are added to that.
    lemma_run_is_sum(plus, tail, f, zero, full, rest, r);
}

/// Where addition is exact, the sequential kernel returns the sum of the
/// products.
pub proof fn lemma_sequential_dot_is_sum<T: Scalar>(
    plus: spec_fn(T, T) -> T,
    times: spec_fn(T, T) -> T,
    zero: T,
    a: Seq<T>,
    b: Seq<T>,
    r: T,
)
    requires
        exact_addition(plus),
        multiplies_as(times),
        is_zero(zero),
        sequential_dot(a, b, r),
    ensures
        r == dot_sum(plus, times, zero, a, b),
{
    let term = products(a, b);
    let f = product_values(times, a, b);
    let zero1 = choose|zero: T| #[trigger] is_zero(zero) && accumulates(term, zero, 0, 1, a.len(), r);
    lemma_one_zero(plus, zero, zero1);
    assert(valued_by(term, f));
    lemma_run_is_sum(plus, term, f, zero, 0, a.len(), r);
}

/// Where addition is exact, the lane-parallel kernel returns the sum of the
/// products: what the sequential kernel returns.
pub proof fn lemma_lane_dot_is_sum<T: Scalar>(
    plus: spec_fn(T, T) -> T,
    times: spec_fn(T, T) -> T,
    zero: T,
    a: Seq<T>,
    b: Seq<T>,
    r: T,
)
    requires
        exact_addition(plus),
        multiplies_as(times),
        is_zero(zero),
        lane_dot(a, b, r),
    ensures
        r == dot_sum(plus, times, zero, a, b),
{
    let term = products(a, b);
    let f = product_values(times, a, b);
    assert(valued_by(term, f));
    lemma_lane_parallel_is_sum(plus, term, term, f, a.len(), zero, r);
}

/// Where the addition of `W` is exact and widening a product of `T` gives
/// the product in `W` of the widened operands, the lane-parallel kernel
/// with widened accumulation returns the sum of the products of the widened
/// elements.
pub proof fn lemma_widened_lane_dot_is_sum<T: Scalar, W: Widens<T>>(
    plus: spec_fn(W, W) -> W,
    times: spec_fn(W, W) -> W,
    narrow_times: spec_fn(T, T) -> T,
    widen: spec_fn(T) -> W,
    zero: W,
    a: Seq<T>,
    b: Seq<T>,
    r: W,
)
    requires
        exact_addition(plus),
        multiplies_as(times),
        multiplies_as(narrow_times),
        widens_as(widen),
        forall|x: T, y: T| widen(#[trigger] narrow_times(x, y)) == times(widen(x), widen(y)),
        is_zero(zero),
        a.len() == b.len(),
        widened_lane_dot(a, b, r),
    ensures
        r == dot_sum(plus, times, zero, a.map_values(widen), b.map_values(widen)),
{
    let body = widened_products::<T, W>(a, b);
    let tail = wide_products::<T, W>(a, b);
    let wide_a = a.map_values(widen);
    let wide_b = b.map_values(widen);
    let f = |i: int| times(widen(a[i]), widen(b[i]));
    assert forall|i: int, w: W| #[trigger] body(i, w) implies w == f(i) by {
        let p = choose|p: T| is_product(a[i], b[i], p) && #[trigger] is_widened(p, w);
        assert(p == narrow_times(a[i], b[i]));
    }
    assert forall|i: int, w: W| #[trigger] tail(i, w) implies w == f(i) by {
        let (x, y) = choose|x: W, y: W|
            is_widened(a[i], x) && is_widened(b[i], y) && #[trigger] is_product(x, y, w);
        assert(x == widen(a[i]) && y == widen(b[i]));
    }
    lemma_lane_parallel_is_sum(plus, body, tail, f, a.len(), zero, r);
    assert forall|i: int| 0 <= i < a.len() implies #[trigger] f(i) == product_values(
        times,
        wide_a,
        wide_b,
    )(i) by {
        assert(wide_a[i] == widen(a[i]));
        assert(wide_b[i] == widen(b[i]));
    }
    lemma_sum_onto_pointwise(plus, f, product_values(times, wide_a, wide_b), zero, a.len());
}

/// Where addition is exact, the sums of the lane groups, handed over in
/// whatever order, combine to the sum of the products: what the sequential
/// kernel returns. `order[k]` is the group of which `partials[k]` is a sum.
pub proof fn lemma_combined_is_sum<T: Scalar>(
    plus: spec_fn(T, T) -> T,
    times: spec_fn(T, T) -> T,
    zero: T,
    order: Seq<int>,
    partials: Seq<T>,
    a: Seq<T>,
    b: Seq<T>,
    r: T,
)
    requires
        exact_addition(plus),
        multiplies_as(times),
        is_zero(zero),
        is_arrangement(order, group_count(a.len())),
        partials.len() == order.len(),
        forall|k: int| 0 <= k < order.len() ==> group_dot(a, b, order[k], #[trigger] partials[k]),
        combined(partials, a, b, r),
    ensures
        r == dot_sum(plus, times, zero, a, b),
{
    let term = products(a, b);
    let f = product_values(times, a, b);
    let width = NUM_LANES as nat;
    let groups = group_count(a.len());
    let rest = a.len() % width;
    let full = groups * width;
    assert(valued_by(term, f));
    let (zero1, total) = choose|zero: T, total: T|
        {
            &&& is_zero(zero)
            &&& #[trigger] accumulates(items(partials), zero, 0, 1, partials.len(), total)
            &&& accumulates(term, total, a.len() - rest, 1, rest, r)
        };
    lemma_one_zero(plus, zero, zero1);
    // Each partial sum is the sum of its group.
    let totals = group_totals(plus, f, zero);
    let sums = order.map_values(totals);
    assert forall|k: int| 0 <= k < groups implies #[trigger] partials[k] == sums[k] by {
        let g = order[k];
        let zero2 = choose|zero: T| #[trigger]
            is_zero(zero) && accumulates(term, zero, g * NUM_LANES, 1, NUM_LANES as nat, partials[k]);
        lemma_one_zero(plus, zero, zero2);
        lemma_accumulates_is_sum(plus, term, f, zero, g * NUM_LANES, 1, width, partials[k]);
        assert forall|j: int| 0 <= j < width implies #[trigger] strided(f, g * NUM_LANES, 1)(j)
            == shifted(f, g * NUM_LANES)(j) by {}
        lemma_sum_onto_pointwise(
            plus,
            strided(f, g * NUM_LANES, 1),
            shifted(f, g * NUM_LANES),
            zero,
            width,
        );
    }
    // Together they are the sum of the terms of all the groups.
    assert(valued_by(items(partials), entries(partials)));
    lemma_accumulates_is_sum(plus, items(partials), entries(partials), zero, 0, 1, groups, total);
    assert forall|k: int| 0 <= k < groups implies #[trigger] strided(entries(partials), 0, 1)(k)
        == entries(sums)(k) by {
        assert(entries(partials)(k) == partials[k]);
    }
    lemma_sum_onto_pointwise(plus, strided(entries(partials), 0, 1), entries(sums), zero, groups);
    lemma_sum_onto_arranged(plus, totals, order, zero, groups);
    lemma_groups_total(plus, f, zero, groups);
    assert(full == a.len() - rest);
    assert(total == sum_onto(plus, f, zero, full));
    // The terms behind the full groups are added to that.
    lemma_run_is_sum(plus, term, f, zero, full, rest, r);
}

} // verus!
