use burn_automata::restriction_dataset::restriction_seeds_per_dispatch_for_limits;

#[test]
fn restriction_seed_batch_respects_wgpu_dispatch_limit() {
    assert_eq!(
        restriction_seeds_per_dispatch_for_limits(4_096, 65_535, 32).unwrap(),
        32,
    );
    assert!(restriction_seeds_per_dispatch_for_limits(65_536, 65_535, 32).is_err());
}

#[test]
fn dispatch_limit_rejects_empty_seeds_and_batches_at_least_one() {
    assert_eq!(
        restriction_seeds_per_dispatch_for_limits(0, 65_535, 32)
            .unwrap_err()
            .to_string(),
        "restriction trajectory has 0 particles, exceeding the WGPU dispatch limit 65535"
    );
    assert_eq!(restriction_seeds_per_dispatch_for_limits(65_535, 65_535, 0).unwrap(), 1);
    assert_eq!(restriction_seeds_per_dispatch_for_limits(1, 1, 7).unwrap(), 7);
}
