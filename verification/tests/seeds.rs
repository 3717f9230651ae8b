use burn_automata::deployment_on_policy;
use burn_automata::mixing::{CUT_SEED_STRIDE, ROLLOUT_SEED_STRIDE, ROUND_SEED_STRIDE};
use burn_automata::multiscale_dataset::gpu as teacher;
use burn_automata::multiscale_on_policy;
use burn_automata::recurrent_replay::replay_seed;

#[test]
fn first_on_policy_rollout_keeps_the_configured_seed() {
    assert_eq!(deployment_on_policy::rollout_seed(7, 5, 0), 7);
    assert_eq!(multiscale_on_policy::rollout_seed(7, 5, 0), 7);
}

#[test]
fn on_policy_rollouts_offset_by_round_and_rollout_strides() {
    assert_eq!(
        deployment_on_policy::rollout_seed(7, 0, 2),
        1_019_007_198_063_748_404
    );
    assert_eq!(
        deployment_on_policy::rollout_seed(u64::MAX, 1, 1),
        4_729_358_085_577_004_570
    );
    assert_eq!(
        multiscale_on_policy::rollout_seed(7, 0, 2),
        deployment_on_policy::rollout_seed(7, 0, 2)
    );
    assert_ne!(
        deployment_on_policy::rollout_seed(7, 0, 1),
        deployment_on_policy::rollout_seed(7, 1, 1)
    );
}

#[test]
fn teacher_rollouts_advance_by_one_stride() {
    assert_eq!(teacher::rollout_seed(42, 0), 42);
    assert_eq!(teacher::rollout_seed(42, 3), 15_755_400_384_260_043_881);
    assert_eq!(
        teacher::rollout_seed(0, 1),
        ROLLOUT_SEED_STRIDE
    );
}

#[test]
fn coupled_replay_seed_mixes_round_rollout_and_cut() {
    assert_eq!(replay_seed(0, 0, 0, 0), ROUND_SEED_STRIDE);
    assert_eq!(replay_seed(11, 2, 3, 4), 15_633_409_478_120_164_207);
    assert_eq!(
        replay_seed(0, 0, 0, 1),
        ROUND_SEED_STRIDE.wrapping_add(CUT_SEED_STRIDE)
    );
}

#[test]
fn first_rollout_keeps_the_seed_in_every_round() {
    assert_eq!(deployment_on_policy::rollout_seed(9, usize::MAX, 0), 9);
    assert_eq!(multiscale_on_policy::rollout_seed(9, usize::MAX, 0), 9);
}

#[test]
fn later_on_policy_rollouts_match_the_replay_seed_at_cut_zero() {
    for (round, rollout) in [(0usize, 1usize), (3, 2), (17, 9)] {
        assert_eq!(
            deployment_on_policy::rollout_seed(5, round, rollout),
            replay_seed(5, round, rollout, 0)
        );
    }
    assert_ne!(replay_seed(5, 1, 2, 3), replay_seed(5, 1, 2, 4));
    assert_ne!(replay_seed(5, 1, 2, 3), replay_seed(5, 1, 3, 3));
    assert_ne!(replay_seed(5, 1, 2, 3), replay_seed(5, 2, 2, 3));
}
