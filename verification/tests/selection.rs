use burn_automata::restriction_dataset::{
    ascending_cost_ranks, restriction_selection_counts, select_top_merges, total_order_key,
    validate_restriction_schedule, SelectionCounts,
};

fn key(value: f32) -> u32 {
    total_order_key(value.to_bits())
}

#[test]
fn total_order_keys_sort_like_total_cmp() {
    let values = [-f32::INFINITY, -2.5, -0.0, 0.0, 1.0e-30, 3.0, f32::INFINITY];
    for pair in values.windows(2) {
        assert_eq!(pair[0].total_cmp(&pair[1]), key(pair[0]).cmp(&key(pair[1])));
    }
    assert_eq!(total_order_key(0), 0x8000_0000);
    assert_eq!(total_order_key(0x8000_0000), 0x7fff_ffff);
}

#[test]
fn top_merges_take_the_highest_scores_with_index_tie_breaks() {
    let keys = vec![key(0.5), key(2.0), key(0.5), key(-1.0), key(2.0)];
    assert_eq!(
        select_top_merges(&keys, 0, 5, 3),
        vec![true, true, false, false, true]
    );
    assert_eq!(select_top_merges(&keys, 0, 5, 0), vec![false; 5]);
    assert_eq!(select_top_merges(&keys, 0, 5, 9), vec![true; 5]);
    assert_eq!(select_top_merges(&keys, 2, 3, 1), vec![false, false, true]);
    for merges in 0..8 {
        let selected = select_top_merges(&keys, 0, 5, merges);
        assert_eq!(selected.iter().filter(|chosen| **chosen).count(), merges.min(5));
    }
}

#[test]
fn selection_counts_compare_each_snapshot_with_the_oracle() {
    let keys = vec![
        key(0.9),
        key(0.1),
        key(0.8),
        key(0.2),
        key(0.3),
        key(0.7),
        key(0.6),
        key(0.4),
    ];
    let expected = vec![true, false, true, false, false, true, false, true];
    let counts = restriction_selection_counts(&keys, &expected, 2, 4, 2);
    assert_eq!(
        counts,
        SelectionCounts {
            true_positive: 3,
            true_negative: 3,
            false_positive: 1,
            false_negative: 1,
            exact_cuts: 1,
        }
    );
    let total = counts.true_positive + counts.true_negative + counts.false_positive
        + counts.false_negative;
    assert_eq!(total, keys.len());
}

#[test]
fn cost_ranks_are_increasing_with_index_tie_breaks() {
    let keys = vec![key(2.0), key(-1.0), key(2.0), key(0.0)];
    assert_eq!(ascending_cost_ranks(&keys), vec![2, 0, 3, 1]);
    assert_eq!(ascending_cost_ranks(&vec![]), Vec::<usize>::new());
}

#[test]
fn restriction_schedule_needs_a_reachable_first_level_cut() {
    let steps = vec![128, 160];
    assert!(validate_restriction_schedule(2, 4_096, 3_070, 8, &steps).is_ok());
    assert!(validate_restriction_schedule(2, 4_096, 1_024, 8, &steps).is_ok());
    assert!(validate_restriction_schedule(2, 4_096, 1_021, 8, &steps).is_err());
    assert!(validate_restriction_schedule(2, 4_096, 3_071, 8, &steps).is_err());
    assert!(validate_restriction_schedule(2, 4_096, 4_096, 8, &steps).is_err());
    assert!(validate_restriction_schedule(3, 4_096, 3_070, 8, &steps).is_err());
    assert!(validate_restriction_schedule(2, 4_096, 3_070, 0, &steps).is_err());
    assert!(validate_restriction_schedule(2, 4_096, 3_070, 8, &vec![]).is_err());
    let error = validate_restriction_schedule(2, 4_096, 3_070, 8, &vec![128, 0]).unwrap_err();
    assert!(error.to_string().starts_with("adaptive restriction dataset requires a reachable 2D first-level cut"));
}
