use attractors::work::{
    merge_density, pixel_index, record_hit, worker_iterations, SampleTally, REPORT_BATCH,
};

#[test]
fn worker_iterations_split_evenly_with_remainder_first() {
    assert_eq!(worker_iterations(10, 0, 3), 4);
    assert_eq!(worker_iterations(10, 1, 3), 3);
    assert_eq!(worker_iterations(10, 2, 3), 3);
    assert_eq!(worker_iterations(9, 2, 3), 3);
    assert_eq!(worker_iterations(2, 5, 8), 0);
    assert_eq!(worker_iterations(2, 1, 8), 1);
}

#[test]
fn worker_iterations_cover_the_budget() {
    for total in [0u64, 1, 7, 1_000_000_000, 1_000_000_007, u64::MAX] {
        for threads in [1usize, 2, 3, 8, 13] {
            let mut sum: u128 = 0;
            let mut previous = u64::MAX;
            for worker in 0..threads {
                let share = worker_iterations(total, worker, threads);
                assert!(share <= previous);
                previous = share;
                sum += share as u128;
            }
            assert_eq!(sum, total as u128);
            let first = worker_iterations(total, 0, threads);
            let last = worker_iterations(total, threads - 1, threads);
            assert!(first - last <= 1);
        }
    }
}

#[test]
fn pixel_index_inside_and_outside() {
    assert_eq!(pixel_index(0, 0, 4, 3), Some(0));
    assert_eq!(pixel_index(3, 2, 4, 3), Some(11));
    assert_eq!(pixel_index(1, 1, 4, 3), Some(5));
    assert_eq!(pixel_index(4, 0, 4, 3), None);
    assert_eq!(pixel_index(0, 3, 4, 3), None);
    assert_eq!(pixel_index(-1, 0, 4, 3), None);
    assert_eq!(pixel_index(0, -1, 4, 3), None);
    assert_eq!(pixel_index(isize::MIN, isize::MAX, 4, 3), None);
}

#[test]
fn pixel_index_is_one_to_one_on_the_grid() {
    let mut seen = vec![false; 12];
    for y in 0..3isize {
        for x in 0..4isize {
            let i = pixel_index(x, y, 4, 3).unwrap();
            assert!(!seen[i]);
            seen[i] = true;
        }
    }
    assert!(seen.iter().all(|s| *s));
}

#[test]
fn record_hit_counts_and_saturates() {
    let mut d = vec![0u16, 5, u16::MAX];
    record_hit(&mut d, 0);
    record_hit(&mut d, 1);
    record_hit(&mut d, 2);
    assert_eq!(d, vec![1, 6, u16::MAX]);
}

#[test]
fn merge_density_adds_with_a_cap() {
    let mut total = vec![1u16, 65_000, 3, 9];
    let local = vec![2u16, 1_000, 4];
    merge_density(&mut total, &local);
    assert_eq!(total, vec![3, u16::MAX, 7, 9]);
    let mut short = vec![1u16];
    merge_density(&mut short, &local);
    assert_eq!(short, vec![3]);
}

#[test]
fn merging_in_either_order_gives_the_capped_total() {
    let a = vec![60_000u16, 10, 0];
    let b = vec![5_000u16, 20, 0];
    let c = vec![1_000u16, 30, 7];
    let mut ab_c = a.clone();
    merge_density(&mut ab_c, &b);
    merge_density(&mut ab_c, &c);
    let mut bc = b.clone();
    merge_density(&mut bc, &c);
    let mut a_bc = a.clone();
    merge_density(&mut a_bc, &bc);
    assert_eq!(ab_c, a_bc);
    assert_eq!(ab_c, vec![u16::MAX, 60, 7]);
}

#[test]
fn sample_tally_publishes_full_batches_and_the_rest() {
    let mut tally = SampleTally::new();
    let mut published = 0u64;
    for _ in 0..2_500_001u64 {
        published += tally.record();
    }
    assert_eq!(published, 2 * REPORT_BATCH);
    assert_eq!(tally.drain(), 500_001);
    assert_eq!(tally.drain(), 0);
}
