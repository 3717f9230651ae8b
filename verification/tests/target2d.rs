use burn_automata::target2d::{
    canonical_grouped_fine_units, canonical_seed_row_order, material_update_key,
    recovery_extension_budget, seed_bank_row_seeds, update_mask_keys, validate_material_budget,
    AdaptiveTarget2dRuleTraining, ADAPTIVE_TARGET2D_UPDATE_MASK_MEMBERS,
};

fn measures(rows: usize) -> Vec<String> {
    (0..rows).map(|row| format!("{}.5", row)).collect()
}

#[test]
fn canonical_layout_conserves_4096_fine_units_at_3070_rows() {
    validate_material_budget(3_070, 4_096, 4).unwrap();
    let units = canonical_grouped_fine_units(3_070, 4_096, 4);
    assert_eq!(units.len(), 3_070);
    assert_eq!(units.iter().sum::<usize>(), 4_096);
    assert_eq!(units.iter().filter(|units| **units == 4).count(), 342);
    assert_eq!(units.iter().filter(|units| **units > 1).count(), 342);
    assert_eq!(&units[..9], &[4, 1, 1, 1, 1, 1, 1, 1, 4]);
}

#[test]
fn canonical_layout_at_equal_budget_is_all_fine() {
    validate_material_budget(4_096, 4_096, 4).unwrap();
    let units = canonical_grouped_fine_units(4_096, 4_096, 4);
    assert!(units.iter().all(|units| *units == 1));
    assert_eq!(canonical_grouped_fine_units(6, 6, 1), vec![1; 6]);
}

#[test]
fn canonical_layout_spreads_coarse_rows_and_puts_the_remainder_last() {
    assert_eq!(canonical_grouped_fine_units(5, 12, 3), vec![3, 3, 3, 2, 1]);
    assert_eq!(canonical_grouped_fine_units(4, 10, 4), vec![4, 1, 4, 1]);
}

#[test]
fn material_budget_rejects_unrepresentable_counts() {
    let expected = "adaptive Target2D requires active <= reference <= active * max_initial_fine_units, got active=3 reference=13 max_units=4";
    assert_eq!(
        validate_material_budget(3, 13, 4).unwrap_err().to_string(),
        expected
    );
    assert!(validate_material_budget(0, 4, 4).is_err());
    assert!(validate_material_budget(5, 4, 4).is_err());
    assert!(validate_material_budget(5, 5, 0).is_err());
    assert!(validate_material_budget(3, 12, 4).is_ok());
    assert!(validate_material_budget(usize::MAX, usize::MAX, 2).is_ok());
}

#[test]
fn update_key_folds_the_two_identifier_halves() {
    assert_eq!(material_update_key(0x1234_5678_90ab_cdef), 2_191_498_135);
    assert_eq!(material_update_key(7), 7);
    assert_eq!(material_update_key(0x0000_0001_0000_0001), 0);
}

#[test]
fn recovery_budget_defaults_to_the_post_event_horizon() {
    assert_eq!(recovery_extension_budget(0, 48), 48);
    assert_eq!(recovery_extension_budget(16, 48), 16);
}

#[test]
fn rule_training_defaults_to_the_shared_rule() {
    assert_eq!(
        AdaptiveTarget2dRuleTraining::default(),
        AdaptiveTarget2dRuleTraining::SharedRule
    );
}

#[test]
fn seed_rows_follow_the_layout_and_keep_seed_order_within_a_class() {
    let rows = vec![1, 4, 1, 4, 1];
    let layout = vec![4, 1, 1, 4, 1];
    assert_eq!(
        canonical_seed_row_order(&rows, &measures(rows.len()), &layout).unwrap(),
        vec![1, 0, 2, 3, 4]
    );
    assert_eq!(canonical_seed_row_order(&vec![], &measures(0), &vec![]).unwrap(), Vec::<usize>::new());
}

#[test]
fn seed_reordering_is_a_permutation_of_the_seed_rows() {
    let layout = canonical_grouped_fine_units(40, 100, 4);
    let mut rows = layout.clone();
    rows.reverse();
    let mut order = canonical_seed_row_order(&rows, &measures(rows.len()), &layout).unwrap();
    for (position, row) in order.iter().enumerate() {
        assert_eq!(rows[*row], layout[position]);
    }
    order.sort_unstable();
    assert_eq!(order, (0..40).collect::<Vec<_>>());
}

#[test]
fn seed_with_too_few_rows_of_a_class_is_rejected() {
    let error = canonical_seed_row_order(&vec![1, 1, 4], &measures(3), &vec![4, 4, 1]).unwrap_err();
    assert_eq!(
        error.to_string(),
        "adaptive Target2D seed has too few 4-unit rows for the static material layout"
    );
}

#[test]
fn seed_with_surplus_rows_is_rejected() {
    let error = canonical_seed_row_order(&vec![1, 4, 1], &measures(3), &vec![4, 1]).unwrap_err();
    assert_eq!(
        error.to_string(),
        "adaptive Target2D seed/layout material multiplicities differ"
    );
    assert!(canonical_seed_row_order(&vec![1, 2, 4], &measures(3), &vec![4, 1, 4]).is_err());
}

#[test]
fn rows_without_template_are_gated_by_their_own_key() {
    assert_eq!(
        update_mask_keys(0x1234_5678_90ab_cdef, None).unwrap(),
        [2_191_498_135, 0, 0, 0, 0, 0]
    );
}

#[test]
fn coarse_parents_are_gated_by_their_members() {
    let members = vec![1, 2, 0x0000_0001_0000_0003];
    assert_eq!(
        update_mask_keys(99, Some(&members)).unwrap(),
        [1, 2, 2, 0, 0, 0]
    );
    let full: Vec<u64> = (10..16).collect();
    assert_eq!(full.len(), ADAPTIVE_TARGET2D_UPDATE_MASK_MEMBERS);
    assert_eq!(
        update_mask_keys(99, Some(&full)).unwrap(),
        [10, 11, 12, 13, 14, 15]
    );
    let too_many: Vec<u64> = (0..7).collect();
    assert_eq!(
        update_mask_keys(99, Some(&too_many)).unwrap_err().to_string(),
        "adaptive Target2D material parent 99 has 7 update-mask members; at most 6 are supported"
    );
}

#[test]
fn seed_bank_keeps_at_least_one_pool_row() {
    assert_eq!(seed_bank_row_seeds(42, 0), vec![42]);
    assert_eq!(
        seed_bank_row_seeds(42, 2),
        vec![42, 42u64.wrapping_add(0x9e37_79b9_7f4a_7c15)]
    );
}

#[test]
fn seed_rows_outside_the_layout_are_reported_first() {
    let rows = vec![1, 4, 0, 9];
    let error = canonical_seed_row_order(&rows, &measures(4), &vec![4, 1, 1, 4]).unwrap_err();
    assert_eq!(
        error.to_string(),
        "adaptive Target2D restricted row 2 represents non-layout measure 2.5"
    );
    let error = canonical_seed_row_order(&vec![1, 5], &measures(2), &vec![4, 1]).unwrap_err();
    assert_eq!(
        error.to_string(),
        "adaptive Target2D restricted row 1 represents non-layout measure 1.5"
    );
    assert!(canonical_seed_row_order(&vec![1], &measures(1), &vec![]).is_err());
}
