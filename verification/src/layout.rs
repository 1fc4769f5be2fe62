//! How the indices of a slice fall into lane groups, and how the lane groups
//! are shared out among workers.
use crate::NUM_LANES;
use vstd::prelude::*;

verus! {

/// The number of full lane groups in `len` elements.
pub open spec fn group_count(len: nat) -> nat {
    len / (NUM_LANES as nat)
}

/// The index of the first lane group of worker `index`, where `groups` lane
/// groups are shared out among `workers` workers as evenly as can be: each
/// worker has `groups / workers` consecutive groups, and each of the first
/// `groups % workers` workers has one more.
pub open spec fn span_start(groups: nat, workers: nat, index: nat) -> nat
    recommends
        workers > 0,
{
    let share = groups / workers;
    let extra = groups % workers;
    index * share + if index < extra {
        index
    } else {
        extra
    }
}

/// The number of full lane groups in `len` elements.
pub fn full_groups(len: usize) -> (groups: usize)
    ensures
        groups == group_count(len as nat),
        groups * NUM_LANES <= len < (groups + 1) * NUM_LANES,
{
    len / NUM_LANES
}

/// The lane groups of worker `index` among `workers` workers that share
/// `groups` lane groups: those from `span.0` up to, not including, `span.1`.
pub fn worker_span(groups: usize, workers: usize, index: usize) -> (span: (usize, usize))
    requires
        index < workers,
    ensures
        span.0 == span_start(groups as nat, workers as nat, index as nat),
        span.1 == span_start(groups as nat, workers as nat, (index + 1) as nat),
        span.0 <= span.1 <= groups,
        groups / workers <= span.1 - span.0 <= groups / workers + 1,
        index == 0 ==> span.0 == 0,
        index + 1 == workers ==> span.1 == groups,
{
    let share: usize = groups / workers;
    let extra: usize = groups % workers;
    proof {
        lemma_span_bounds(groups as nat, workers as nat, index as nat);
        lemma_span_bounds(groups as nat, workers as nat, (index + 1) as nat);
        assert(index * share <= workers * share) by (nonlinear_arith)
            requires
                index < workers,
        ;
        assert((index + 1) * share == index * share + share) by (nonlinear_arith);
    }
    let first: usize = index * share + if index < extra {
        index
    } else {
        extra
    };
    let size: usize = if index < extra {
        share + 1
    } else {
        share
    };
    (first, first + size)
}

/// A span starts within the groups, and the span behind the last worker
/// starts where the groups end.
pub proof fn lemma_span_bounds(groups: nat, workers: nat, index: nat)
    requires
        workers > 0,
        index <= workers,
    ensures
        span_start(groups, workers, index) <= groups,
        span_start(groups, workers, 0) == 0,
        span_start(groups, workers, workers) == groups,
{
    let share = groups / workers;
    let extra = groups % workers;
    assert(groups == workers * share + extra) by (nonlinear_arith)
        requires
            workers > 0,
            share == groups / workers,
            extra == groups % workers,
    ;
    assert(index * share <= workers * share) by (nonlinear_arith)
        requires
            index <= workers,
    ;
    assert(workers * share == share * workers) by (nonlinear_arith);
    assert(0 * share == 0) by (nonlinear_arith);
}

/// The spans of the workers lie one behind the other, from the first group
/// to the last: each group belongs to one worker and to no other.
pub proof fn lemma_spans_tile(groups: nat, workers: nat, group: nat)
    requires
        workers > 0,
        group < groups,
    ensures
        exists|index: nat|
            index < workers && span_start(groups, workers, index) <= group < #[trigger] span_start(
                groups,
                workers,
                index + 1,
            ),
        forall|i: nat, j: nat|
            i <= j <= workers ==> #[trigger] span_start(groups, workers, i) <= #[trigger] span_start(
                groups,
                workers,
                j,
            ),
{
    assert forall|i: nat, j: nat| i <= j <= workers implies #[trigger] span_start(
        groups,
        workers,
        i,
    ) <= #[trigger] span_start(groups, workers, j) by {
        lemma_span_monotone(groups, workers, i, j);
    }
    lemma_span_bounds(groups, workers, workers);
    lemma_owner_exists(groups, workers, group, workers);
}

proof fn lemma_span_monotone(groups: nat, workers: nat, i: nat, j: nat)
    requires
        workers > 0,
        i <= j,
    ensures
        span_start(groups, workers, i) <= span_start(groups, workers, j),
{
    let share = groups / workers;
    assert(i * share <= j * share) by (nonlinear_arith)
        requires
            i <= j,
    ;
}

proof fn lemma_owner_exists(groups: nat, workers: nat, group: nat, bound: nat)
    requires
        workers > 0,
        bound <= workers,
        group < span_start(groups, workers, bound),
    ensures
        exists|index: nat|
            index < bound && span_start(groups, workers, index) <= group < #[trigger] span_start(
                groups,
                workers,
                index + 1,
            ),
    decreases bound,
{
    lemma_span_bounds(groups, workers, 0);
    if bound == 0 {
    } else {
        let index = (bound - 1) as nat;
        if span_start(groups, workers, index) <= group {
            assert(group < span_start(groups, workers, index + 1));
        } else {
            lemma_owner_exists(groups, workers, group, index);
        }
    }
}

} // verus!
