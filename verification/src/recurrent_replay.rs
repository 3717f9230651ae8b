use vstd::prelude::*;
use vstd::arithmetic::div_mod::{lemma_add_mod_noop, lemma_mod_twice};

use crate::mixing::{
    CUT_SEED_STRIDE, ROLLOUT_SEED_STRIDE, ROUND_SEED_STRIDE, lemma_wrapping_add_mul, two_pow_64,
};
use crate::deployment_on_policy::on_policy_rollout_seed;
use crate::error::{AutomataResult, invalid_argument, is_invalid_argument};
use crate::schedule::{sort_dedup, strictly_increasing};

pub mod gpu;

verus! {

/// Seed of the coupled fine/student replay for one round, rollout, and cut:
/// the base seed offset by the round, rollout, and cut strides, modulo 2^64.
pub open spec fn coupled_replay_seed(seed: u64, round: nat, rollout: nat, cut: nat) -> nat {
    (seed as nat + (round + 1) * (ROUND_SEED_STRIDE as nat) + rollout * (ROLLOUT_SEED_STRIDE as nat)
        + cut * (CUT_SEED_STRIDE as nat)) % two_pow_64()
}

/// Seed of one coupled replay trajectory.
pub fn replay_seed(seed: u64, round: usize, rollout: usize, cut: usize) -> (derived: u64)
    requires
        (round as u64) < u64::MAX,
    ensures
        derived as nat == coupled_replay_seed(seed, round as nat, rollout as nat, cut as nat),
{
    let first = seed.wrapping_add((round as u64 + 1).wrapping_mul(ROUND_SEED_STRIDE));
    let second = first.wrapping_add((rollout as u64).wrapping_mul(ROLLOUT_SEED_STRIDE));
    let derived = second.wrapping_add((cut as u64).wrapping_mul(CUT_SEED_STRIDE));
    proof {
        let m = two_pow_64() as int;
        lemma_wrapping_add_mul(seed, (round as u64 + 1) as u64, ROUND_SEED_STRIDE);
        lemma_wrapping_add_mul(first, rollout as u64, ROLLOUT_SEED_STRIDE);
        lemma_wrapping_add_mul(second, cut as u64, CUT_SEED_STRIDE);
        let a = seed as int + (round as int + 1) * (ROUND_SEED_STRIDE as int);
        let b = rollout as int * (ROLLOUT_SEED_STRIDE as int);
        let c = cut as int * (CUT_SEED_STRIDE as int);
        lemma_mod_twice(a, m);
        lemma_add_mod_noop(a % m, b, m);
        lemma_add_mod_noop(a, b, m);
        lemma_mod_twice(a + b, m);
        lemma_add_mod_noop((a + b) % m, c, m);
        lemma_add_mod_noop(a + b, c, m);
    }
    derived
}

/// The distinct material-cut steps, in increasing order.
pub fn unique_cut_steps(cut_steps: &Vec<usize>) -> (steps: Vec<usize>)
    ensures
        strictly_increasing(steps@),
        forall|step: usize| steps@.contains(step) <==> cut_steps@.contains(step),
{
    sort_dedup(cut_steps)
}


/// Holds for leaf counts strictly below `fine`.
pub open spec fn below(fine: usize) -> spec_fn(usize) -> bool {
    |count: usize| count < fine
}

/// The material cuts that coarsen the fine set (fewer leaves than fine
/// particles), in configuration order; coupled replay needs at least one.
pub fn coarsening_cuts(cut_leaf_counts: &Vec<usize>, fine_particle_count: usize) -> (result:
    AutomataResult<Vec<usize>>)
    ensures
        result is Ok <==> exists|k: int|
            0 <= k < cut_leaf_counts@.len() && #[trigger] cut_leaf_counts@[k] < fine_particle_count,
        result matches Ok(cuts) ==> cuts@ == cut_leaf_counts@.filter(below(fine_particle_count)),
        result is Err ==> is_invalid_argument(
            result,
            "coupled-fine replay requires at least one cut below fine_particle_count"@,
        ),
{
    let ghost pred = below(fine_particle_count);
    let mut cuts: Vec<usize> = Vec::new();
    let mut i: usize = 0;
    proof {
        reveal(Seq::filter);
        assert(cut_leaf_counts@.take(0) =~= Seq::<usize>::empty());
    }
    while i < cut_leaf_counts.len()
        invariant
            i <= cut_leaf_counts@.len(),
            pred == below(fine_particle_count),
            cuts@ == cut_leaf_counts@.take(i as int).filter(pred),
            cuts@.len() == 0 <==> forall|k: int|
                0 <= k < i ==> !(#[trigger] cut_leaf_counts@[k] < fine_particle_count),
        decreases cut_leaf_counts@.len() - i,
    {
        let count = cut_leaf_counts[i];
        proof {
            reveal(Seq::filter);
            assert(cut_leaf_counts@.take(i + 1).drop_last() =~= cut_leaf_counts@.take(i as int));
            assert(cut_leaf_counts@.take(i + 1).last() == count);
        }
        if count < fine_particle_count {
            cuts.push(count);
        }
        i = i + 1;
    }
    proof {
        assert(cut_leaf_counts@.take(cut_leaf_counts@.len() as int) =~= cut_leaf_counts@);
    }
    if cuts.len() == 0 {
        return Err(
            invalid_argument("coupled-fine replay requires at least one cut below fine_particle_count"),
        );
    }
    Ok(cuts)
}


/// For every rollout but the first, the on-policy rollout seed of a round is
/// the coupled replay seed of that round and rollout at cut zero.
pub proof fn lemma_on_policy_seed_is_replay_seed(seed: u64, round: nat, rollout: nat)
    requires
        rollout >= 1,
    ensures
        on_policy_rollout_seed(seed, round, rollout) == coupled_replay_seed(seed, round, rollout, 0),
{
}

/// Adding `x * k` modulo 2^64 tells different `x` below 2^64 apart when `k`
/// has an inverse `kinv` modulo 2^64 (`k * kinv == m * t + 1`).
proof fn lemma_invertible_stride_cancels(x1: int, x2: int, a: int, k: int, kinv: int, t: int)
    requires
        0 <= x1 < two_pow_64(),
        0 <= x2 < two_pow_64(),
        k * kinv == two_pow_64() * t + 1,
        (a + x1 * k) % (two_pow_64() as int) == (a + x2 * k) % (two_pow_64() as int),
    ensures
        x1 == x2,
{
    let m = two_pow_64() as int;
    let q1 = (a + x1 * k) / m;
    let q2 = (a + x2 * k) / m;
    vstd::arithmetic::div_mod::lemma_fundamental_div_mod(a + x1 * k, m);
    vstd::arithmetic::div_mod::lemma_fundamental_div_mod(a + x2 * k, m);
    let d = x1 - x2;
    assert(d * k == m * (q1 - q2)) by (nonlinear_arith)
        requires
            a + x1 * k == m * q1 + (a + x1 * k) % m,
            a + x2 * k == m * q2 + (a + x2 * k) % m,
            (a + x1 * k) % m == (a + x2 * k) % m,
            d == x1 - x2,
    ;
    let z = (q1 - q2) * kinv - d * t;
    assert(d == m * z) by (nonlinear_arith)
        requires
            d * k == m * (q1 - q2),
            k * kinv == m * t + 1,
            z == (q1 - q2) * kinv - d * t,
    ;
    assert(d == 0) by (nonlinear_arith)
        requires
            d == m * z,
            -m < d < m,
            m > 0,
    ;
}

/// Replay seeds of one round and rollout differ between cuts.
pub proof fn lemma_replay_seeds_distinct_cuts(seed: u64, round: nat, rollout: nat, cut1: nat, cut2: nat)
    requires
        cut1 < two_pow_64(),
        cut2 < two_pow_64(),
        cut1 != cut2,
    ensures
        coupled_replay_seed(seed, round, rollout, cut1) != coupled_replay_seed(seed, round, rollout, cut2),
{
    let a = seed as int + (round + 1) * (ROUND_SEED_STRIDE as int) + rollout * (
    ROLLOUT_SEED_STRIDE as int);
    if coupled_replay_seed(seed, round, rollout, cut1) == coupled_replay_seed(
        seed,
        round,
        rollout,
        cut2,
    ) {
        lemma_invertible_stride_cancels(
            cut1 as int,
            cut2 as int,
            a,
            CUT_SEED_STRIDE as int,
            0x8b95_1323_f693_49b7,
            6376422095059181779,
        );
    }
}

/// Replay seeds of one round and cut differ between rollouts.
pub proof fn lemma_replay_seeds_distinct_rollouts(
    seed: u64,
    round: nat,
    rollout1: nat,
    rollout2: nat,
    cut: nat,
)
    requires
        rollout1 < two_pow_64(),
        rollout2 < two_pow_64(),
        rollout1 != rollout2,
    ensures
        coupled_replay_seed(seed, round, rollout1, cut) != coupled_replay_seed(seed, round, rollout2, cut),
{
    let a = seed as int + (round + 1) * (ROUND_SEED_STRIDE as int) + cut * (CUT_SEED_STRIDE as int);
    if coupled_replay_seed(seed, round, rollout1, cut) == coupled_replay_seed(
        seed,
        round,
        rollout2,
        cut,
    ) {
        assert(a + rollout1 * (ROLLOUT_SEED_STRIDE as int) == seed as int + (round + 1) * (
        ROUND_SEED_STRIDE as int) + rollout1 * (ROLLOUT_SEED_STRIDE as int) + cut * (
        CUT_SEED_STRIDE as int));
        lemma_invertible_stride_cancels(
            rollout1 as int,
            rollout2 as int,
            a,
            ROLLOUT_SEED_STRIDE as int,
            0xf1de_83e1_9937_733d,
            10771413168148108919,
        );
    }
}

/// Replay seeds of one rollout and cut differ between rounds.
pub proof fn lemma_replay_seeds_distinct_rounds(
    seed: u64,
    round1: nat,
    round2: nat,
    rollout: nat,
    cut: nat,
)
    requires
        round1 < u64::MAX,
        round2 < u64::MAX,
        round1 != round2,
    ensures
        coupled_replay_seed(seed, round1, rollout, cut) != coupled_replay_seed(seed, round2, rollout, cut),
{
    let a = seed as int + rollout * (ROLLOUT_SEED_STRIDE as int) + cut * (CUT_SEED_STRIDE as int);
    if coupled_replay_seed(seed, round1, rollout, cut) == coupled_replay_seed(
        seed,
        round2,
        rollout,
        cut,
    ) {
        assert(a + (round1 + 1) * (ROUND_SEED_STRIDE as int) == seed as int + (round1 + 1) * (
        ROUND_SEED_STRIDE as int) + rollout * (ROLLOUT_SEED_STRIDE as int) + cut * (
        CUT_SEED_STRIDE as int));
        assert(a + (round2 + 1) * (ROUND_SEED_STRIDE as int) == seed as int + (round2 + 1) * (
        ROUND_SEED_STRIDE as int) + rollout * (ROLLOUT_SEED_STRIDE as int) + cut * (
        CUT_SEED_STRIDE as int));
        lemma_invertible_stride_cancels(
            (round1 + 1) as int,
            (round2 + 1) as int,
            a,
            ROUND_SEED_STRIDE as int,
            0x0610_6ccf_a448_e5ab,
            357952832567956711,
        );
    }
}

} // verus!
