use burn_automata::multiscale_dataset::{reorder_rows, rollout_sample_rngs, sample_cut_rows};
use burn_automata::recurrent_replay::gpu::{pack_members, row_prefixes};
use rand::rngs::StdRng;
use rand::RngCore;
use rand::SeedableRng;

#[test]
fn members_are_packed_lane_by_lane_into_csr_form() {
    let lanes = vec![vec![vec![0, 1], vec![2, 3]], vec![vec![1]]];
    let (offsets, leaves) = pack_members(&lanes, 4).unwrap();
    assert_eq!(offsets, vec![0, 2, 4, 5]);
    assert_eq!(leaves, vec![0, 1, 2, 3, 5]);
}

#[test]
fn empty_lanes_pack_to_a_single_offset() {
    let lanes: Vec<Vec<Vec<usize>>> = vec![vec![], vec![vec![]]];
    let (offsets, leaves) = pack_members(&lanes, 8).unwrap();
    assert_eq!(offsets, vec![0, 0]);
    assert!(leaves.is_empty());
}

#[test]
fn packed_indices_must_fit_u32() {
    let lanes = vec![vec![vec![0]], vec![vec![1]]];
    let error = pack_members(&lanes, u32::MAX as usize).unwrap_err();
    assert_eq!(error.to_string(), "coupled-fine member index exceeds u32");
    let error = pack_members(&lanes, usize::MAX).unwrap_err();
    assert_eq!(error.to_string(), "coupled-fine member index overflow");
}

#[test]
fn row_prefixes_keep_the_leading_columns() {
    let values: Vec<u32> = (0..12).collect();
    assert_eq!(row_prefixes(&values, 1, 2, 4, 2), vec![4, 5, 8, 9]);
    assert_eq!(row_prefixes(&values, 0, 3, 4, 0), Vec::<u32>::new());
    assert_eq!(row_prefixes(&values, 2, 1, 4, 4), vec![8, 9, 10, 11]);
}

#[test]
fn rows_are_gathered_in_the_requested_order() {
    let values = [10, 11, 20, 21, 30, 31];
    assert_eq!(reorder_rows(&values, 2, &[2, 0]), vec![30, 31, 10, 11]);
    assert_eq!(reorder_rows(&values, 2, &[1, 1]), vec![20, 21, 20, 21]);
    assert_eq!(reorder_rows(&values, 3, &[]), Vec::<i32>::new());
}

#[test]
fn cut_rows_are_distinct_sorted_and_in_range() {
    let mut rng = StdRng::seed_from_u64(7);
    let rows = sample_cut_rows(&mut rng, 5, 20);
    assert_eq!(rows.len(), 5);
    assert!(rows.windows(2).all(|pair| pair[0] < pair[1]));
    assert!(rows.iter().all(|row| *row < 20));
    let all = sample_cut_rows(&mut rng, 50, 20);
    assert_eq!(all, (0..20).collect::<Vec<_>>());
    assert!(sample_cut_rows(&mut rng, 3, 0).is_empty());
}

#[test]
fn cut_row_sampling_is_reproducible_from_the_seed() {
    let mut first = StdRng::seed_from_u64(99);
    let mut second = StdRng::seed_from_u64(99);
    assert_eq!(
        sample_cut_rows(&mut first, 16, 1_000),
        sample_cut_rows(&mut second, 16, 1_000)
    );
}

#[test]
fn rollout_sample_generators_use_the_salted_rollout_seed() {
    let mut rngs = rollout_sample_rngs(42, 2);
    assert_eq!(rngs.len(), 2);
    let mut first = StdRng::seed_from_u64(42 ^ 0xa4a4_5eed);
    let mut second = StdRng::seed_from_u64(11_400_714_819_323_198_527u64 ^ 0xa4a4_5eed);
    assert_eq!(rngs[0].next_u64(), first.next_u64());
    assert_eq!(rngs[1].next_u64(), second.next_u64());
}

#[test]
fn cut_rows_follow_the_generator_and_advance_it() {
    let mut first = StdRng::seed_from_u64(5);
    let mut second = StdRng::seed_from_u64(5);
    let drawn = rand::seq::index::sample(&mut second, 40, 6).into_vec();
    let mut expected = drawn.clone();
    expected.sort_unstable();
    assert_eq!(sample_cut_rows(&mut first, 6, 40), expected);
    assert_eq!(first.next_u64(), second.next_u64());
}
