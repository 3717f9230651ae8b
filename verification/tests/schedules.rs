use burn_automata::closure_audit;
use burn_automata::multiscale_dataset;
use burn_automata::recurrent_replay::unique_cut_steps;
use burn_automata::rule_dataset;
use burn_automata::schedule::sort_dedup;

#[test]
fn audit_snapshots_spread_over_the_rollout() {
    assert_eq!(closure_audit::snapshot_steps(10, 4), vec![0, 3, 6, 10]);
    assert_eq!(closure_audit::snapshot_steps(2, 5), vec![0, 1, 2]);
    assert_eq!(closure_audit::snapshot_steps(9, 1), vec![9]);
    assert_eq!(closure_audit::snapshot_steps(9, 0), Vec::<usize>::new());
    assert_eq!(closure_audit::snapshot_steps(0, 3), vec![0]);
}

#[test]
fn multiscale_snapshots_keep_the_final_state_for_short_rollouts() {
    assert_eq!(multiscale_dataset::snapshot_steps(7, 3), vec![0, 3, 7]);
    assert_eq!(multiscale_dataset::snapshot_steps(0, 5), vec![0]);
    assert_eq!(multiscale_dataset::snapshot_steps(12, 1), vec![12]);
    assert_eq!(multiscale_dataset::snapshot_steps(12, 0), Vec::<usize>::new());
    assert_eq!(multiscale_dataset::snapshot_steps(2, 5), vec![0, 1, 2]);
}

#[test]
fn rule_snapshots_match_the_multiscale_schedule() {
    for (steps, samples) in [(7usize, 3usize), (0, 4), (64, 5), (3, 8), (5, 1)] {
        assert_eq!(
            rule_dataset::snapshot_steps(steps, samples),
            multiscale_dataset::snapshot_steps(steps, samples)
        );
    }
}

#[test]
fn cut_steps_are_sorted_and_deduplicated() {
    assert_eq!(unique_cut_steps(&vec![5, 0, 5, 3, 0]), vec![0, 3, 5]);
    assert_eq!(unique_cut_steps(&vec![]), Vec::<usize>::new());
    assert_eq!(sort_dedup(&vec![9, 8, 7, 8, 9]), vec![7, 8, 9]);
}

#[test]
fn audit_and_dataset_schedules_agree() {
    for (steps, samples) in [(2usize, 2usize), (32, 5), (0, 3), (7, 1), (10, 4), (3, 8), (64, 17)] {
        assert_eq!(
            closure_audit::snapshot_steps(steps, samples),
            multiscale_dataset::snapshot_steps(steps, samples)
        );
    }
    assert_eq!(closure_audit::snapshot_steps(32, 5), vec![0, 8, 16, 24, 32]);
    assert_eq!(closure_audit::snapshot_steps(2, 2), vec![0, 2]);
}
