use vstd::prelude::*;

use crate::deployment_on_policy::on_policy_rollout_seed;
use crate::error::{AutomataResult, invalid_argument, is_invalid_argument};
use crate::mixing::{ROLLOUT_SEED_STRIDE, ROUND_SEED_STRIDE, lemma_wrapping_mul, wrapped_product};
use crate::multiscale_dataset::{drawn_indices, sample_indices, seed_std_rng, seeded_std_rng};
use crate::training::AdaptiveReplayTeacher;

verus! {

/// Seed of one multiscale on-policy rollout; the derivation is the
/// deployment replay's (see `on_policy_rollout_seed`).
pub fn rollout_seed(seed: u64, round: usize, rollout_index: usize) -> (derived: u64)
    requires
        rollout_index != 0 ==> (round as u64) < u64::MAX,
    ensures
        derived as nat == on_policy_rollout_seed(seed, round as nat, rollout_index as nat),
{
    crate::deployment_on_policy::rollout_seed(seed, round, rollout_index)
}


/// The integral part of a multiscale on-policy configuration: positive
/// rollout, horizon, snapshot and row counts, at least one cut step with
/// every step addressable by a `u32`, and the coupled-fine teacher whenever
/// the closure is recurrent.
pub open spec fn on_policy_schedule_ok(
    rollouts: nat,
    cut_steps: Seq<usize>,
    rollout_steps: nat,
    snapshot_interval: nat,
    rows_per_snapshot: nat,
    closure_recurrent_mode: bool,
    teacher: AdaptiveReplayTeacher,
) -> bool {
    &&& rollouts != 0
    &&& cut_steps.len() != 0
    &&& forall|k: int| 0 <= k < cut_steps.len() ==> #[trigger] cut_steps[k] <= u32::MAX
    &&& rollout_steps != 0
    &&& snapshot_interval != 0
    &&& rows_per_snapshot != 0
    &&& closure_recurrent_mode ==> teacher == AdaptiveReplayTeacher::CoupledFine
}

/// Checks the integral part of a multiscale on-policy configuration (the
/// teacher/student compatibility is checked separately, with the same
/// error).
pub fn validate_on_policy_schedule(
    rollouts: usize,
    cut_steps: &Vec<usize>,
    rollout_steps: usize,
    snapshot_interval: usize,
    rows_per_snapshot: usize,
    closure_recurrent_mode: bool,
    teacher: AdaptiveReplayTeacher,
) -> (result: AutomataResult<()>)
    ensures
        on_policy_schedule_ok(
            rollouts as nat,
            cut_steps@,
            rollout_steps as nat,
            snapshot_interval as nat,
            rows_per_snapshot as nat,
            closure_recurrent_mode,
            teacher,
        ) <==> result is Ok,
        result is Ok <==> {
            &&& rollouts != 0 && rollout_steps != 0 && snapshot_interval != 0
                && rows_per_snapshot != 0
            &&& cut_steps@.len() != 0
            &&& forall|k: int| 0 <= k < cut_steps@.len() ==> #[trigger] cut_steps@[k] <= u32::MAX
            &&& closure_recurrent_mode ==> teacher == AdaptiveReplayTeacher::CoupledFine
        },
        result is Err ==> is_invalid_argument(
            result,
            "invalid adaptive multiscale on-policy configuration"@,
        ),
{
    let mut addressable = true;
    let mut i: usize = 0;
    while i < cut_steps.len()
        invariant
            i <= cut_steps@.len(),
            addressable <==> forall|k: int| 0 <= k < i ==> #[trigger] cut_steps@[k] <= u32::MAX,
        decreases cut_steps@.len() - i,
    {
        if cut_steps[i] > 4294967295 {
            addressable = false;
        }
        i = i + 1;
    }
    let coupled = match teacher {
        AdaptiveReplayTeacher::CoupledFine => true,
        _ => false,
    };
    if rollouts == 0 || cut_steps.len() == 0 || !addressable || rollout_steps == 0
        || snapshot_interval == 0 || rows_per_snapshot == 0 || (closure_recurrent_mode
        && !coupled) {
        return Err(invalid_argument("invalid adaptive multiscale on-policy configuration"));
    }
    Ok(())
}


/// Seed of the row sampler of snapshot `snapshot_index` in on-policy round
/// `round`: the configured seed xor the wrapped round and snapshot strides.
pub open spec fn snapshot_sample_seed(seed: u64, round: nat, snapshot_index: nat) -> u64 {
    seed ^ wrapped_product(round + 1, ROUND_SEED_STRIDE) ^ wrapped_product(
        snapshot_index,
        ROLLOUT_SEED_STRIDE,
    )
}

/// Seed of one on-policy snapshot's row sampler.
pub fn sample_seed(seed: u64, round: usize, snapshot_index: usize) -> (derived: u64)
    requires
        (round as u64) < u64::MAX,
    ensures
        derived == snapshot_sample_seed(seed, round as nat, snapshot_index as nat),
{
    let round_step = round as u64 + 1;
    proof {
        lemma_wrapping_mul(round_step, ROUND_SEED_STRIDE);
        lemma_wrapping_mul(snapshot_index as u64, ROLLOUT_SEED_STRIDE);
    }
    seed ^ round_step.wrapping_mul(ROUND_SEED_STRIDE) ^ (snapshot_index as u64).wrapping_mul(
        ROLLOUT_SEED_STRIDE,
    )
}

/// Rows of one snapshot's `count` particles that join the on-policy batch:
/// `rows_per_snapshot` of them (or all of a smaller snapshot) drawn without
/// replacement by a generator seeded with `sampler_seed`, in drawing order.
pub fn snapshot_rows(sampler_seed: u64, rows_per_snapshot: usize, count: usize) -> (rows: Vec<
    usize,
>)
    ensures
        rows@ == drawn_indices(
            seeded_std_rng(sampler_seed),
            count,
            if rows_per_snapshot <= count {
                rows_per_snapshot
            } else {
                count
            },
        ),
        rows@.len() == if rows_per_snapshot <= count {
            rows_per_snapshot
        } else {
            count
        },
        forall|k: int| 0 <= k < rows@.len() ==> #[trigger] rows@[k] < count,
        rows@.no_duplicates(),
{
    let selected = if rows_per_snapshot <= count {
        rows_per_snapshot
    } else {
        count
    };
    let mut rng = seed_std_rng(sampler_seed);
    sample_indices(&mut rng, count, selected)
}

} // verus!
