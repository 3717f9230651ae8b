use vstd::prelude::*;

use crate::mixing::{ROLLOUT_SEED_STRIDE, lemma_wrapping_add_mul, two_pow_64};

verus! {

/// Seed of rollout `rollout_index` of the resident teacher dataset: the base
/// seed advanced by one rollout stride per rollout, modulo 2^64.
pub open spec fn teacher_rollout_seed(seed: u64, rollout_index: nat) -> nat {
    (seed as nat + rollout_index * (ROLLOUT_SEED_STRIDE as nat)) % two_pow_64()
}

/// Seed of one resident teacher rollout.
pub fn rollout_seed(seed: u64, rollout_index: usize) -> (derived: u64)
    ensures
        derived as nat == teacher_rollout_seed(seed, rollout_index as nat),
{
    proof {
        lemma_wrapping_add_mul(seed, rollout_index as u64, ROLLOUT_SEED_STRIDE);
    }
    seed.wrapping_add((rollout_index as u64).wrapping_mul(ROLLOUT_SEED_STRIDE))
}

} // verus!
