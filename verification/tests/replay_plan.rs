use burn_automata::deployment_on_policy;
use burn_automata::multiscale_on_policy;
use burn_automata::recurrent_replay::coarsening_cuts;
use burn_automata::schedule::{
    interval_snapshot_steps, rollout_chunks, snapshot_position,
};

#[test]
fn rollouts_are_split_into_lane_batches() {
    assert_eq!(rollout_chunks(10, 4), vec![(0, 4), (4, 8), (8, 10)]);
    assert_eq!(rollout_chunks(8, 4), vec![(0, 4), (4, 8)]);
    assert_eq!(rollout_chunks(3, 16), vec![(0, 3)]);
    assert!(rollout_chunks(0, 4).is_empty());
}

#[test]
fn interval_snapshots_run_from_the_seed_to_the_horizon() {
    assert_eq!(interval_snapshot_steps(64, 4).len(), 17);
    assert_eq!(interval_snapshot_steps(10, 4), vec![0, 4, 8]);
    assert_eq!(interval_snapshot_steps(0, 4), vec![0]);
    assert_eq!(interval_snapshot_steps(3, 1), vec![0, 1, 2, 3]);
}

#[test]
fn snapshot_positions_follow_rollout_major_order() {
    assert_eq!(snapshot_position(0, 10, 4), (0, 0));
    assert_eq!(snapshot_position(2, 10, 4), (0, 8));
    assert_eq!(snapshot_position(3, 10, 4), (1, 0));
    assert_eq!(snapshot_position(7, 10, 4), (2, 4));
}

#[test]
fn coupled_replay_keeps_only_coarsening_cuts() {
    assert_eq!(coarsening_cuts(&vec![64, 16, 48, 64], 64).unwrap(), vec![16, 48]);
    assert_eq!(
        coarsening_cuts(&vec![64], 64).unwrap_err().to_string(),
        "coupled-fine replay requires at least one cut below fine_particle_count"
    );
    assert!(coarsening_cuts(&vec![], 64).is_err());
}

#[test]
fn snapshot_samplers_mix_round_and_snapshot_strides() {
    assert_eq!(multiscale_on_policy::sample_seed(7, 1, 3), 8_776_663_869_507_153_470);
    assert_eq!(deployment_on_policy::sample_seed(7, 1, 3), 16_944_977_358_357_707_547);
    assert_eq!(deployment_on_policy::sample_seed(7, 0, 0), 7);
}

#[test]
fn snapshot_rows_are_distinct_and_bounded() {
    let rows = multiscale_on_policy::snapshot_rows(11, 8, 30);
    assert_eq!(rows.len(), 8);
    assert!(rows.iter().all(|row| *row < 30));
    let mut sorted = rows.clone();
    sorted.sort_unstable();
    sorted.dedup();
    assert_eq!(sorted.len(), 8);
    assert_eq!(multiscale_on_policy::snapshot_rows(11, 8, 30), rows);
    assert_eq!(multiscale_on_policy::snapshot_rows(11, 50, 5).len(), 5);
}

#[test]
fn snapshot_rows_are_the_draw_of_the_seeded_generator() {
    use_seeded_draw();
}

fn use_seeded_draw() {
    let mut rng = <rand::rngs::StdRng as rand::SeedableRng>::seed_from_u64(11);
    let expected = rand::seq::index::sample(&mut rng, 30, 8).into_vec();
    assert_eq!(multiscale_on_policy::snapshot_rows(11, 8, 30), expected);
}
