use vstd::prelude::*;
use vstd::arithmetic::div_mod::lemma_add_mod_noop;

use crate::error::{AutomataResult, invalid_argument, is_invalid_argument};
use crate::mixing::{
    ROLLOUT_SEED_STRIDE, ROUND_SEED_STRIDE, lemma_wrapping_add_mul, lemma_wrapping_mul, two_pow_64,
    wrapped_product,
};

verus! {

/// Seed of rollout `rollout_index` in on-policy round `round`: the first
/// rollout keeps the configured seed and every other rollout is offset by
/// the round and rollout strides, modulo 2^64.
pub open spec fn on_policy_rollout_seed(seed: u64, round: nat, rollout_index: nat) -> nat {
    if rollout_index == 0 {
        seed as nat
    } else {
        (seed as nat + (round + 1) * (ROUND_SEED_STRIDE as nat) + rollout_index * (
        ROLLOUT_SEED_STRIDE as nat)) % two_pow_64()
    }
}

/// Seed of one deployment on-policy replay rollout.
pub fn rollout_seed(seed: u64, round: usize, rollout_index: usize) -> (derived: u64)
    requires
        rollout_index != 0 ==> (round as u64) < u64::MAX,
    ensures
        derived as nat == on_policy_rollout_seed(seed, round as nat, rollout_index as nat),
{
    if rollout_index == 0 {
        seed
    } else {
        let round_offset = (round as u64 + 1).wrapping_mul(ROUND_SEED_STRIDE);
        let partial = seed.wrapping_add(round_offset);
        let derived = partial.wrapping_add((rollout_index as u64).wrapping_mul(ROLLOUT_SEED_STRIDE));
        proof {
            lemma_wrapping_add_mul(seed, (round as u64 + 1) as u64, ROUND_SEED_STRIDE);
            lemma_wrapping_add_mul(partial, rollout_index as u64, ROLLOUT_SEED_STRIDE);
            let m = two_pow_64() as int;
            let a = seed as int + (round as int + 1) * (ROUND_SEED_STRIDE as int);
            let b = rollout_index as int * (ROLLOUT_SEED_STRIDE as int);
            assert(partial as int == a % m);
            lemma_add_mod_noop(a, b, m);
            vstd::arithmetic::div_mod::lemma_mod_twice(a, m);
            lemma_add_mod_noop(a % m, b, m);
        }
        derived
    }
}


/// Checks a resident deployment replay configuration: the model must carry
/// a deployment rule and every rollout, horizon, snapshot and row count must
/// be positive.
pub fn validate_deployment_replay(
    uses_deployment_rule: bool,
    on_policy_rollouts: usize,
    on_policy_rollout_steps: usize,
    on_policy_snapshot_interval: usize,
    on_policy_rows_per_snapshot: usize,
) -> (result: AutomataResult<()>)
    ensures
        (uses_deployment_rule && on_policy_rollouts != 0 && on_policy_rollout_steps != 0
            && on_policy_snapshot_interval != 0 && on_policy_rows_per_snapshot != 0) <==> result is Ok,
        result is Err ==> is_invalid_argument(
            result,
            "invalid resident adaptive deployment replay configuration"@,
        ),
{
    if !uses_deployment_rule || on_policy_rollouts == 0 || on_policy_rollout_steps == 0
        || on_policy_snapshot_interval == 0 || on_policy_rows_per_snapshot == 0 {
        return Err(invalid_argument("invalid resident adaptive deployment replay configuration"));
    }
    Ok(())
}


/// Seed of the row sampler of snapshot `snapshot_index` in deployment replay
/// round `round`: the configured seed xor the wrapped round and snapshot
/// strides (the strides swap roles relative to the multiscale replay).
pub open spec fn deployment_sample_seed(seed: u64, round: nat, snapshot_index: nat) -> u64 {
    seed ^ wrapped_product(round, ROLLOUT_SEED_STRIDE) ^ wrapped_product(
        snapshot_index,
        ROUND_SEED_STRIDE,
    )
}

/// Seed of one deployment replay snapshot's row sampler.
pub fn sample_seed(seed: u64, round: usize, snapshot_index: usize) -> (derived: u64)
    ensures
        derived == deployment_sample_seed(seed, round as nat, snapshot_index as nat),
{
    proof {
        lemma_wrapping_mul(round as u64, ROLLOUT_SEED_STRIDE);
        lemma_wrapping_mul(snapshot_index as u64, ROUND_SEED_STRIDE);
    }
    seed ^ (round as u64).wrapping_mul(ROLLOUT_SEED_STRIDE) ^ (snapshot_index as u64).wrapping_mul(
        ROUND_SEED_STRIDE,
    )
}

} // verus!
