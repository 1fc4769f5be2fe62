use simd_test::dot_product;
use simd_test::fanout::combine_group_sums;
use simd_test::fanout::group_dot_product;
use simd_test::fanout::group_sums;
use simd_test::layout::full_groups;
use simd_test::layout::worker_span;
use simd_test::simd_dot_product;
use simd_test::simd_dot_product_mixed_precision;
use simd_test::NUM_LANES;
use std::num::Wrapping;

/// The fourth kernel on one thread: the workers' shares computed one after
/// the other and their group sums handed over in the order of the workers.
fn partitioned(a: &[f32], b: &[f32], workers: usize) -> f32 {
    let groups = full_groups(a.len());
    let mut partials: Vec<f32> = Vec::new();
    for index in 0..workers {
        let (first, end) = worker_span(groups, workers, index);
        partials.extend(group_sums(a, b, first, end));
    }
    assert_eq!(partials.len(), groups);
    combine_group_sums(&partials, a, b)
}

/// As `partitioned`, with the workers' results handed over last first.
fn partitioned_backwards(a: &[f32], b: &[f32], workers: usize) -> f32 {
    let groups = full_groups(a.len());
    let mut partials: Vec<f32> = Vec::new();
    for index in (0..workers).rev() {
        let (first, end) = worker_span(groups, workers, index);
        partials.extend(group_sums(a, b, first, end));
    }
    combine_group_sums(&partials, a, b)
}

/// Values between -1 and 1 from a fixed linear congruential sequence.
fn samples(len: usize, seed: u32) -> Vec<f32> {
    let mut state = seed;
    let mut out = Vec::with_capacity(len);
    for _ in 0..len {
        state = state.wrapping_mul(1664525).wrapping_add(1013904223);
        out.push(((state >> 8) as f32) / 8388608.0 - 1.0);
    }
    out
}

fn reference(a: &[f32], b: &[f32]) -> f64 {
    let mut sum = 0.0f64;
    for i in 0..a.len() {
        sum += (a[i] as f64) * (b[i] as f64);
    }
    sum
}

fn close(x: f64, y: f64, scale: f64, tolerance: f64) -> bool {
    (x - y).abs() <= tolerance * scale.max(1.0)
}

#[test]
fn three_elements_give_thirty_two() {
    let a: Vec<f32> = vec![1.0, 2.0, 3.0];
    let b: Vec<f32> = vec![4.0, 5.0, 6.0];
    assert_eq!(dot_product(&a, &b), 32.0f32);
    assert_eq!(simd_dot_product(&a, &b), 32.0f32);
    let wide: f64 = simd_dot_product_mixed_precision(&a, &b);
    assert_eq!(wide, 32.0f64);
    assert_eq!(partitioned(&a, &b, 4), 32.0f32);
}

#[test]
fn empty_input_gives_zero() {
    let a: Vec<f32> = Vec::new();
    let b: Vec<f32> = Vec::new();
    assert_eq!(dot_product(&a, &b).to_bits(), 0.0f32.to_bits());
    assert_eq!(simd_dot_product(&a, &b).to_bits(), 0.0f32.to_bits());
    let wide: f64 = simd_dot_product_mixed_precision(&a, &b);
    assert_eq!(wide.to_bits(), 0.0f64.to_bits());
    assert_eq!(partitioned(&a, &b, 3).to_bits(), 0.0f32.to_bits());
    let none: Vec<f32> = Vec::new();
    assert_eq!(combine_group_sums(&none, &a, &b).to_bits(), 0.0f32.to_bits());
}

#[test]
fn ten_ones_give_ten() {
    let a: Vec<f32> = vec![1.0; 10];
    let b: Vec<f32> = vec![1.0; 10];
    assert_eq!(dot_product(&a, &b), 10.0f32);
    assert_eq!(simd_dot_product(&a, &b), 10.0f32);
    let wide: f64 = simd_dot_product_mixed_precision(&a, &b);
    assert_eq!(wide, 10.0f64);
    assert_eq!(partitioned(&a, &b, 2), 10.0f32);
}

#[test]
fn every_length_up_to_forty_is_summed_in_full() {
    for len in 0..=40usize {
        let a: Vec<f32> = (0..len).map(|i| (i + 1) as f32).collect();
        let b: Vec<f32> = vec![2.0; len];
        let expected = (len * (len + 1)) as f32;
        assert_eq!(dot_product(&a, &b), expected);
        assert_eq!(simd_dot_product(&a, &b), expected);
        let wide: f64 = simd_dot_product_mixed_precision(&a, &b);
        assert_eq!(wide, expected as f64);
        for workers in 1..=5usize {
            assert_eq!(partitioned(&a, &b, workers), expected);
            assert_eq!(partitioned_backwards(&a, &b, workers), expected);
        }
    }
}

#[test]
fn sequential_kernel_adds_in_index_order() {
    // Above 2^24 single precision holds even numbers only: a one added to
    // 16777216 is lost, and so is each of the fifteen ones in turn.
    let mut a: Vec<f32> = vec![1.0; 16];
    a[0] = 16777216.0;
    let b: Vec<f32> = vec![1.0; 16];
    assert_eq!(dot_product(&a, &b), 16777216.0f32);
}

#[test]
fn lane_kernel_adds_lane_by_lane() {
    // Lane 0 loses its one; each other lane holds 2, and a 2 is not lost.
    let mut a: Vec<f32> = vec![1.0; 16];
    a[0] = 16777216.0;
    let b: Vec<f32> = vec![1.0; 16];
    assert_eq!(simd_dot_product(&a, &b), 16777230.0f32);
}

#[test]
fn lanes_are_added_in_their_order() {
    // One group: each lane holds one product. Added in the order of the
    // lanes, the first one makes 16777217, a tie that rounds down, and each
    // later one is lost; added in pairs, 16777222 would have come out.
    let a: Vec<f32> = vec![1.0, 16777216.0, 1.0, 1.0, 1.0, 1.0, 1.0, 1.0];
    let b: Vec<f32> = vec![1.0; 8];
    assert_eq!(simd_dot_product(&a, &b), 16777216.0f32);
    let wide: f64 = simd_dot_product_mixed_precision(&a, &b);
    assert_eq!(wide, 16777223.0f64);
}

#[test]
fn lane_kernel_adds_the_tail_one_by_one() {
    // The lanes add up to 16777230. The first one behind the full groups
    // makes a tie, which rounds up to 16777232; the next two make ties that
    // round back down to it. Added as one 3 they would have given 16777234.
    let mut a: Vec<f32> = vec![1.0; 19];
    a[0] = 16777216.0;
    let b: Vec<f32> = vec![1.0; 19];
    assert_eq!(simd_dot_product(&a, &b), 16777232.0f32);
    assert_eq!(dot_product(&a, &b), 16777216.0f32);
}

#[test]
fn widened_kernel_loses_nothing_here() {
    let mut a: Vec<f32> = vec![1.0; 19];
    a[0] = 16777216.0;
    let b: Vec<f32> = vec![1.0; 19];
    let wide: f64 = simd_dot_product_mixed_precision(&a, &b);
    assert_eq!(wide, 16777234.0f64);
}

#[test]
fn widened_kernel_multiplies_narrow_in_groups_and_wide_in_the_tail() {
    // x = 1 + 2^-23. Its square is 1 + 2^-22 + 2^-46: single precision
    // rounds the last part away, double precision keeps it.
    let x = f32::from_bits(0x3f80_0001);
    let narrow_square = 1.0f64 + 2.0f64.powi(-22);
    let wide_square = 1.0f64 + 2.0f64.powi(-22) + 2.0f64.powi(-46);
    let group: Vec<f32> = vec![x; 8];
    let in_group: f64 = simd_dot_product_mixed_precision(&group, &group);
    assert_eq!(in_group, 8.0 * narrow_square);
    let single: Vec<f32> = vec![x; 1];
    let in_tail: f64 = simd_dot_product_mixed_precision(&single, &single);
    assert_eq!(in_tail, wide_square);
    let both: Vec<f32> = vec![x; 9];
    let mixed: f64 = simd_dot_product_mixed_precision(&both, &both);
    assert_eq!(mixed, 8.0 * narrow_square + wide_square);
}

#[test]
fn group_sum_adds_the_lanes_in_order() {
    let mut a: Vec<f32> = vec![1.0; 16];
    a[0] = 16777216.0;
    let b: Vec<f32> = vec![1.0; 16];
    assert_eq!(group_dot_product(&a, &b, 0), 16777216.0f32);
    assert_eq!(group_dot_product(&a, &b, 1), 8.0f32);
    assert_eq!(group_sums(&a, &b, 0, 2), vec![16777216.0f32, 8.0f32]);
    assert_eq!(group_sums(&a, &b, 1, 2), vec![8.0f32]);
    assert_eq!(group_sums(&a, &b, 1, 1), Vec::<f32>::new());
}

#[test]
fn combining_depends_on_the_order_of_the_partial_sums() {
    let a: Vec<f32> = Vec::new();
    let b: Vec<f32> = Vec::new();
    // 16777216 + 1 is lost, then + 1 is lost again; 1 + 1 first is kept.
    let forwards: Vec<f32> = vec![16777216.0, 1.0, 1.0];
    let backwards: Vec<f32> = vec![1.0, 1.0, 16777216.0];
    assert_eq!(combine_group_sums(&forwards, &a, &b), 16777216.0f32);
    assert_eq!(combine_group_sums(&backwards, &a, &b), 16777218.0f32);
}

#[test]
fn combining_adds_the_tail_behind_the_last_full_group() {
    let a: Vec<f32> = (0..11).map(|i| i as f32).collect();
    let b: Vec<f32> = vec![1.0; 11];
    let partials: Vec<f32> = vec![100.0];
    assert_eq!(combine_group_sums(&partials, &a, &b), 100.0 + 8.0 + 9.0 + 10.0);
    let none: Vec<f32> = Vec::new();
    assert_eq!(combine_group_sums(&none, &a, &b), 27.0f32);
}

#[test]
fn partitioned_kernel_on_the_lost_ones() {
    let mut a: Vec<f32> = vec![1.0; 19];
    a[0] = 16777216.0;
    let b: Vec<f32> = vec![1.0; 19];
    // Group sums 16777216 and 8; then three ones, each lost.
    assert_eq!(partitioned(&a, &b, 2), 16777224.0f32);
    assert_eq!(partitioned_backwards(&a, &b, 2), 16777224.0f32);
}

#[test]
fn repeated_runs_give_the_same_bits() {
    let a = samples(100_003, 7);
    let b = samples(100_003, 11);
    let first = dot_product(&a, &b);
    let lanes = simd_dot_product(&a, &b);
    let wide: f64 = simd_dot_product_mixed_precision(&a, &b);
    for _ in 0..3 {
        assert_eq!(dot_product(&a, &b).to_bits(), first.to_bits());
        assert_eq!(simd_dot_product(&a, &b).to_bits(), lanes.to_bits());
        let again: f64 = simd_dot_product_mixed_precision(&a, &b);
        assert_eq!(again.to_bits(), wide.to_bits());
    }
}

#[test]
fn sequential_kernel_is_close_to_the_exact_sum() {
    let a: Vec<f32> = samples(5_000, 3).iter().map(|x| x.abs()).collect();
    let b: Vec<f32> = samples(5_000, 5).iter().map(|x| x.abs()).collect();
    let exact = reference(&a, &b);
    let got = dot_product(&a, &b) as f64;
    assert!(((got - exact) / exact).abs() <= 1e-5);
}

#[test]
fn the_kernels_agree_within_tolerance() {
    for &len in [1usize, 7, 8, 9, 64, 1000, 4097].iter() {
        let a = samples(len, 17);
        let b = samples(len, 23);
        let scale: f64 = a.iter().zip(b.iter()).map(|(x, y)| ((*x as f64) * (*y as f64)).abs()).sum();
        let wide: f64 = simd_dot_product_mixed_precision(&a, &b);
        assert!(close(wide, reference(&a, &b), scale, 1e-6));
        assert!(close(dot_product(&a, &b) as f64, wide, scale, 1e-4));
        assert!(close(simd_dot_product(&a, &b) as f64, wide, scale, 1e-4));
        assert!(close(partitioned(&a, &b, 4) as f64, wide, scale, 1e-4));
        assert!(close(partitioned_backwards(&a, &b, 4) as f64, wide, scale, 1e-4));
    }
}

#[test]
fn wrapping_integers_are_summed_exactly() {
    let a: Vec<Wrapping<i64>> = (1..=20).map(Wrapping).collect();
    let b: Vec<Wrapping<i64>> = (1..=20).map(|i| Wrapping(21 - i)).collect();
    // The sum of i * (21 - i) for i from 1 to 20.
    assert_eq!(dot_product(&a, &b), Wrapping(1540i64));
    assert_eq!(simd_dot_product(&a, &b), Wrapping(1540i64));
    let partials = group_sums(&a, &b, 0, 2);
    assert_eq!(partials, vec![Wrapping(552i64), Wrapping(808i64)]);
    assert_eq!(combine_group_sums(&partials, &a, &b), Wrapping(1540i64));
}

#[test]
fn with_exact_addition_the_kernels_agree() {
    // Addition modulo 2^32 neither rounds nor fails: whatever the order of
    // the additions, the sum is the same.
    for &len in [0usize, 1, 7, 8, 9, 16, 31, 100, 1000].iter() {
        let mut state = Wrapping(12345u32);
        let mut a: Vec<Wrapping<u32>> = Vec::new();
        let mut b: Vec<Wrapping<u32>> = Vec::new();
        for _ in 0..len {
            state = state * Wrapping(1664525) + Wrapping(1013904223);
            a.push(state);
            state = state * Wrapping(1664525) + Wrapping(1013904223);
            b.push(state);
        }
        let mut expected = Wrapping(0u32);
        for i in 0..len {
            expected += a[i] * b[i];
        }
        assert_eq!(dot_product(&a, &b), expected);
        assert_eq!(simd_dot_product(&a, &b), expected);
        let groups = full_groups(len);
        let mut partials = group_sums(&a, &b, 0, groups);
        assert_eq!(combine_group_sums(&partials, &a, &b), expected);
        partials.reverse();
        assert_eq!(combine_group_sums(&partials, &a, &b), expected);
        if groups > 2 {
            partials.swap(0, groups / 2);
            partials.rotate_left(1);
            assert_eq!(combine_group_sums(&partials, &a, &b), expected);
        }
    }
}

#[test]
fn widened_kernel_agrees_where_nothing_is_rounded() {
    // Small whole numbers: every product and every sum is exact in both
    // precisions.
    for len in 0..50usize {
        let a: Vec<f32> = (0..len).map(|i| ((i * 7) % 13) as f32 - 6.0).collect();
        let b: Vec<f32> = (0..len).map(|i| ((i * 5) % 11) as f32 - 5.0).collect();
        let mut expected = 0.0f64;
        for i in 0..len {
            expected += (a[i] as f64) * (b[i] as f64);
        }
        let wide: f64 = simd_dot_product_mixed_precision(&a, &b);
        assert_eq!(wide, expected);
        assert_eq!(dot_product(&a, &b) as f64, expected);
        assert_eq!(simd_dot_product(&a, &b) as f64, expected);
        assert_eq!(partitioned(&a, &b, 3) as f64, expected);
    }
}

#[test]
fn lane_width_is_eight() {
    assert_eq!(NUM_LANES, 8);
    assert_eq!(full_groups(0), 0);
    assert_eq!(full_groups(7), 0);
    assert_eq!(full_groups(8), 1);
    assert_eq!(full_groups(10), 1);
    assert_eq!(full_groups(16), 2);
    assert_eq!(full_groups(usize::MAX), usize::MAX / 8);
}

#[test]
fn ten_groups_among_three_workers() {
    assert_eq!(worker_span(10, 3, 0), (0, 4));
    assert_eq!(worker_span(10, 3, 1), (4, 7));
    assert_eq!(worker_span(10, 3, 2), (7, 10));
}

#[test]
fn fewer_groups_than_workers() {
    assert_eq!(worker_span(2, 4, 0), (0, 1));
    assert_eq!(worker_span(2, 4, 1), (1, 2));
    assert_eq!(worker_span(2, 4, 2), (2, 2));
    assert_eq!(worker_span(2, 4, 3), (2, 2));
    assert_eq!(worker_span(0, 3, 0), (0, 0));
    assert_eq!(worker_span(0, 3, 2), (0, 0));
    assert_eq!(worker_span(5, 1, 0), (0, 5));
}

#[test]
fn spans_lie_one_behind_the_other() {
    for groups in 0..60usize {
        for workers in 1..9usize {
            let mut next = 0usize;
            for index in 0..workers {
                let (first, end) = worker_span(groups, workers, index);
                assert_eq!(first, next);
                assert!(end >= first);
                let size = end - first;
                assert!(size == groups / workers || size == groups / workers + 1);
                next = end;
            }
            assert_eq!(next, groups);
        }
    }
}

#[test]
fn spans_of_the_largest_count_do_not_overflow() {
    let groups = usize::MAX;
    let workers = 7usize;
    let mut next = 0usize;
    for index in 0..workers {
        let (first, end) = worker_span(groups, workers, index);
        assert_eq!(first, next);
        next = end;
    }
    assert_eq!(next, groups);
}
