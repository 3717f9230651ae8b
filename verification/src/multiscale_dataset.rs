use vstd::prelude::*;

use rand::rngs::StdRng;
use rand::SeedableRng;

use crate::error::{
    AutomataError, AutomataResult, invalid_argument, is_invalid_argument, is_invalid_model,
};
use crate::multiscale_dataset::gpu::{rollout_seed, teacher_rollout_seed};
use crate::schedule::{
    is_sample_step, lemma_sample_step_bounded, lemma_sample_step_monotone, lemma_spread_endpoints,
    sample_step, sort_dedup, spread_sample_steps, strictly_increasing,
};
use crate::text::text;

pub mod gpu;

verus! {

/// The standard seeded generator of the `rand` crate.
#[verifier::external_type_specification]
#[verifier::external_body]
pub struct ExStdRng(StdRng);

/// The indices that `rand::seq::index::sample` draws from `0..length`, in
/// drawing order, when it takes `amount` of them with generator `rng`.
pub uninterp spec fn drawn_indices(rng: StdRng, length: usize, amount: usize) -> Seq<usize>;

/// The state `rng` is left in after `rand::seq::index::sample` has drawn
/// `amount` indices from `0..length` with it.
pub uninterp spec fn rng_after_draw(rng: StdRng, length: usize, amount: usize) -> StdRng;

/// Draws `amount` distinct indices from `0..length` with
/// `rand::seq::index::sample`, which returns them in random order.
///
/// Claimed of the call: the draw is a function of the generator state and
/// the two counts alone, both the indices (`drawn_indices`) and the state
/// the generator is left in (`rng_after_draw`); exactly `amount` indices
/// come back, each below `length`, none twice (the documented contract of
/// `index::sample`, which panics when `amount > length`; that input is
/// excluded). Which indices a given state draws is not stated.
#[verifier::external_body]
pub(crate) fn sample_indices(rng: &mut StdRng, length: usize, amount: usize) -> (indices: Vec<usize>)
    requires
        amount <= length,
    ensures
        indices@ == drawn_indices(*old(rng), length, amount),
        *final(rng) == rng_after_draw(*old(rng), length, amount),
        indices@.len() == amount,
        forall|k: int| 0 <= k < indices@.len() ==> indices@[k] < length,
        indices@.no_duplicates(),
{
    rand::seq::index::sample(rng, length, amount).into_vec()
}

/// Rows drawn from one material cut: `rows_per_cut` rows (or every row of a
/// smaller cut) drawn without replacement by `rng`, which advances past the
/// draw, and returned in increasing order.
pub fn sample_cut_rows(rng: &mut StdRng, rows_per_cut: usize, material_count: usize) -> (selected:
    Vec<usize>)
    ensures
        ({
            let amount = if rows_per_cut <= material_count {
                rows_per_cut
            } else {
                material_count
            };
            &&& forall|row: usize| selected@.contains(row) <==> drawn_indices(
                *old(rng),
                material_count,
                amount,
            ).contains(row)
            &&& *final(rng) == rng_after_draw(*old(rng), material_count, amount)
        }),
        selected@.len() == if rows_per_cut <= material_count {
            rows_per_cut
        } else {
            material_count
        },
        strictly_increasing(selected@),
        forall|k: int| 0 <= k < selected@.len() ==> selected@[k] < material_count,
{
    let selected_count = if rows_per_cut <= material_count {
        rows_per_cut
    } else {
        material_count
    };
    let drawn = sample_indices(rng, material_count, selected_count);
    let selected = sort_dedup(&drawn);
    proof {
        assert(selected@.to_set() =~= drawn@.to_set()) by {
            assert forall|x: usize| selected@.to_set().contains(x) == drawn@.to_set().contains(x) by {
                assert(selected@.contains(x) == drawn@.contains(x));
            }
        }
        drawn@.unique_seq_to_set();
        assert(selected@.no_duplicates()) by {
            assert forall|i: int, j: int|
                0 <= i < selected@.len() && 0 <= j < selected@.len() && i != j implies selected@[i]
                != selected@[j] by {
                if i < j {
                    assert(selected@[i] < selected@[j]);
                } else {
                    assert(selected@[j] < selected@[i]);
                }
            }
        }
        selected@.unique_seq_to_set();
        assert forall|k: int| 0 <= k < selected@.len() implies selected@[k] < material_count by {
            assert(selected@.contains(selected@[k]));
            assert(drawn@.contains(selected@[k]));
        }
    }
    selected
}

/// Rollout steps at which the multiscale dataset takes its temporal
/// snapshots: `temporal_samples` samples spread evenly over the rollout,
/// repeated steps taken once. One sample, or an empty rollout, gives the
/// final state alone.
pub fn snapshot_steps(rollout_steps: usize, temporal_samples: usize) -> (steps: Vec<usize>)
    requires
        temporal_samples >= 2 ==> (temporal_samples - 1) * rollout_steps <= usize::MAX,
    ensures
        temporal_samples == 1 || rollout_steps == 0 ==> steps@ == seq![rollout_steps],
        temporal_samples == 0 && rollout_steps != 0 ==> steps@ == Seq::<usize>::empty(),
        temporal_samples >= 2 ==> spread_sample_steps(
            steps@,
            rollout_steps as nat,
            temporal_samples as nat,
        ),
        temporal_samples >= 2 ==> steps@.len() >= 1 && steps@[0] == 0 && steps@.last()
            == rollout_steps,
{
    if temporal_samples == 1 || rollout_steps == 0 {
        let mut steps = Vec::new();
        steps.push(rollout_steps);
        proof {
            if temporal_samples >= 2 {
                let r = rollout_steps as nat;
                let n = temporal_samples as nat;
                assert forall|k: int| 0 <= k < steps@.len() implies is_sample_step(
                    #[trigger] steps@[k] as nat,
                    r,
                    n,
                ) by {
                    assert(sample_step(0, r, n) == 0);
                }
                assert forall|i: nat| i < n implies steps@.contains(
                    #[trigger] sample_step(i, r, n) as usize,
                ) by {
                    assert(i * 0 == 0);
                    assert(steps@[0] == 0);
                }
            }
        }
        return steps;
    }
    let mut steps: Vec<usize> = Vec::new();
    let mut sample_index: usize = 0;
    while sample_index < temporal_samples
        invariant
            sample_index <= temporal_samples,
            temporal_samples != 1,
            temporal_samples >= 2 ==> (temporal_samples - 1) * rollout_steps <= usize::MAX,
            temporal_samples == 0 ==> steps@.len() == 0,
            strictly_increasing(steps@),
            forall|k: int|
                0 <= k < steps@.len() ==> is_sample_step(
                    #[trigger] steps@[k] as nat,
                    rollout_steps as nat,
                    temporal_samples as nat,
                ),
            forall|i: nat|
                i < sample_index ==> steps@.contains(
                    #[trigger] sample_step(i, rollout_steps as nat, temporal_samples as nat)
                        as usize,
                ),
            sample_index > 0 ==> steps@.len() > 0 && steps@.last() == sample_step(
                (sample_index - 1) as nat,
                rollout_steps as nat,
                temporal_samples as nat,
            ),
            sample_index == 0 ==> steps@.len() == 0,
        decreases temporal_samples - sample_index,
    {
        assert(sample_index * rollout_steps <= (temporal_samples - 1) * rollout_steps)
            by (nonlinear_arith)
            requires
                sample_index <= temporal_samples - 1,
        ;
        let step = sample_index * rollout_steps / (temporal_samples - 1);
        let ghost r = rollout_steps as nat;
        let ghost n = temporal_samples as nat;
        assert(step == sample_step(sample_index as nat, r, n));
        let ghost before = steps@;
        if steps.len() == 0 || steps[steps.len() - 1] != step {
            steps.push(step);
            proof {
                if sample_index > 0 {
                    lemma_sample_step_monotone((sample_index - 1) as nat, sample_index as nat, r, n);
                }
                assert forall|a: int, b: int| 0 <= a < b < steps@.len() implies steps@[a]
                    < steps@[b] by {
                    if b == steps@.len() - 1 && a < b {
                        assert(before[a] <= before.last());
                    }
                }
                assert forall|k: int| 0 <= k < steps@.len() implies is_sample_step(
                    #[trigger] steps@[k] as nat,
                    r,
                    n,
                ) by {
                    if k == steps@.len() - 1 {
                        assert(sample_step(sample_index as nat, r, n) == steps@[k]);
                    } else {
                        assert(steps@[k] == before[k]);
                    }
                }
                assert forall|i: nat| i < sample_index + 1 implies steps@.contains(
                    #[trigger] sample_step(i, r, n) as usize,
                ) by {
                    if i == sample_index {
                        assert(steps@[steps@.len() - 1] == step);
                    } else {
                        assert(before.contains(sample_step(i, r, n) as usize));
                        let j = choose|j: int|
                            0 <= j < before.len() && before[j] == sample_step(i, r, n) as usize;
                        assert(steps@[j] == before[j]);
                    }
                }
            }
        } else {
            proof {
                assert forall|i: nat| i < sample_index + 1 implies steps@.contains(
                    #[trigger] sample_step(i, r, n) as usize,
                ) by {
                    if i == sample_index {
                        assert(steps@[steps@.len() - 1] == step);
                    }
                }
            }
        }
        sample_index = sample_index + 1;
    }
    proof {
        if temporal_samples >= 2 {
            lemma_spread_endpoints(steps@, rollout_steps as nat, temporal_samples as nat);
        }
    }
    steps
}

/// Position of column `column` of row `row` in a row-major buffer with
/// `row_dims` values per row.
pub open spec fn flat_index(row: int, column: int, row_dims: int) -> int {
    row * row_dims + column
}

/// Gathers whole rows of `values` (each `row_dims` wide) in the order given
/// by `source_rows`.
pub fn reorder_rows<T: Copy>(values: &[T], row_dims: usize, source_rows: &[usize]) -> (reordered:
    Vec<T>)
    requires
        forall|k: int|
            0 <= k < source_rows@.len() ==> (source_rows@[k] + 1) * row_dims <= values@.len(),
        source_rows@.len() * row_dims <= usize::MAX,
    ensures
        reordered@.len() == source_rows@.len() * row_dims,
        forall|i: int, j: int|
            0 <= i < source_rows@.len() && 0 <= j < row_dims ==> reordered@[flat_index(i, j, row_dims as int)]
                == values@[flat_index(source_rows@[i] as int, j, row_dims as int)],
{
    let mut reordered: Vec<T> = Vec::new();
    let mut i: usize = 0;
    while i < source_rows.len()
        invariant
            i <= source_rows@.len(),
            forall|k: int|
                0 <= k < source_rows@.len() ==> (source_rows@[k] + 1) * row_dims <= values@.len(),
            source_rows@.len() * row_dims <= usize::MAX,
            reordered@.len() == i * row_dims,
            forall|a: int, b: int|
                0 <= a < i && 0 <= b < row_dims ==> reordered@[flat_index(a, b, row_dims as int)]
                    == values@[flat_index(source_rows@[a] as int, b, row_dims as int)],
        decreases source_rows@.len() - i,
    {
        let source = source_rows[i];
        assert((source + 1) * row_dims <= values@.len());
        let values_len = values.len();
        assert(source * row_dims + row_dims == (source + 1) * row_dims) by (nonlinear_arith);
        assert(source * row_dims + row_dims <= values_len);
        let base = source * row_dims;
        let mut j: usize = 0;
        while j < row_dims
            invariant
                j <= row_dims,
                i < source_rows@.len(),
                source == source_rows@[i as int],
                base == source * row_dims,
                base + row_dims <= values_len,
                values_len == values@.len(),
                reordered@.len() == i * row_dims + j,
                forall|a: int, b: int|
                    0 <= a < i && 0 <= b < row_dims ==> reordered@[flat_index(a, b, row_dims as int)]
                        == values@[flat_index(source_rows@[a] as int, b, row_dims as int)],
                forall|b: int|
                    0 <= b < j ==> reordered@[flat_index(i as int, b, row_dims as int)]
                        == values@[flat_index(source as int, b, row_dims as int)],
            decreases row_dims - j,
        {
            let ghost prior = reordered@;
            reordered.push(values[base + j]);
            proof {
                assert forall|a: int, b: int|
                    0 <= a < i && 0 <= b < row_dims implies reordered@[flat_index(a, b, row_dims as int)]
                        == values@[flat_index(source_rows@[a] as int, b, row_dims as int)] by {
                    assert(a * row_dims + b < i * row_dims) by (nonlinear_arith)
                        requires
                            a < i,
                            b < row_dims,
                    ;
                    assert(reordered@[flat_index(a, b, row_dims as int)] == prior[flat_index(
                        a,
                        b,
                        row_dims as int,
                    )]);
                }
            }
            j = j + 1;
        }
        assert((i + 1) * row_dims == i * row_dims + row_dims) by (nonlinear_arith);
        i = i + 1;
    }
    reordered
}


/// `n` is a power of two.
pub open spec fn is_power_of_two(n: nat) -> bool
    decreases n,
{
    if n == 1 {
        true
    } else if n == 0 || n % 2 != 0 {
        false
    } else {
        is_power_of_two(n / 2)
    }
}

/// Checks whether `n` is a power of two by halving it while it is even.
pub fn power_of_two(n: usize) -> (is_power: bool)
    ensures
        is_power == is_power_of_two(n as nat),
{
    if n == 0 {
        return false;
    }
    let mut m = n;
    while m % 2 == 0
        invariant
            m != 0,
            is_power_of_two(m as nat) == is_power_of_two(n as nat),
        decreases m,
    {
        m = m / 2;
    }
    m == 1
}

/// Run sizes of a multiscale training configuration, each of which must be
/// positive.
#[derive(Clone, Copy, Debug)]
pub struct MultiscaleRunCounts {
    pub rollouts: usize,
    pub temporal_samples: usize,
    pub rows_per_cut: usize,
    pub validation_rollouts: usize,
    pub steps: usize,
    pub report_interval: usize,
    pub controller_steps: usize,
}

/// Every run size is positive.
pub open spec fn run_counts_positive(counts: MultiscaleRunCounts) -> bool {
    &&& counts.rollouts != 0
    &&& counts.temporal_samples != 0
    &&& counts.rows_per_cut != 0
    &&& counts.validation_rollouts != 0
    &&& counts.steps != 0
    &&& counts.report_interval != 0
    &&& counts.controller_steps != 0
}

/// The integral part of a multiscale training configuration: every material
/// cut keeps between one and all of the fine particles, a recurrent closure
/// has at least one cut that actually coarsens, the run sizes are positive,
/// and the gradient reduction is direct (zero) or chunked by a power of two
/// of at least 128 rows.
pub open spec fn multiscale_schedule_ok(
    cut_leaf_counts: Seq<usize>,
    fine_particle_count: nat,
    closure_recurrent_mode: bool,
    counts: MultiscaleRunCounts,
    gradient_reduction_chunk_rows: nat,
) -> bool {
    &&& fine_particle_count != 0
    &&& cut_leaf_counts.len() != 0
    &&& forall|k: int|
        0 <= k < cut_leaf_counts.len() ==> 0 < #[trigger] cut_leaf_counts[k] <= fine_particle_count
    &&& closure_recurrent_mode ==> exists|k: int|
        0 <= k < cut_leaf_counts.len() && #[trigger] cut_leaf_counts[k] < fine_particle_count
    &&& run_counts_positive(counts)
    &&& (gradient_reduction_chunk_rows == 0 || (gradient_reduction_chunk_rows >= 128
        && is_power_of_two(gradient_reduction_chunk_rows)))
}

/// Checks the integral part of a multiscale training configuration (the
/// model compatibility and the rollout scalars are checked separately, with
/// the same error).
pub fn validate_multiscale_schedule(
    cut_leaf_counts: &Vec<usize>,
    fine_particle_count: usize,
    closure_recurrent_mode: bool,
    counts: MultiscaleRunCounts,
    gradient_reduction_chunk_rows: usize,
) -> (result: AutomataResult<()>)
    ensures
        multiscale_schedule_ok(
            cut_leaf_counts@,
            fine_particle_count as nat,
            closure_recurrent_mode,
            counts,
            gradient_reduction_chunk_rows as nat,
        ) <==> result is Ok,
        result is Ok <==> {
            &&& fine_particle_count != 0
            &&& cut_leaf_counts@.len() != 0
            &&& forall|k: int|
                0 <= k < cut_leaf_counts@.len() ==> 0 < #[trigger] cut_leaf_counts@[k]
                    <= fine_particle_count
            &&& closure_recurrent_mode ==> exists|k: int|
                0 <= k < cut_leaf_counts@.len() && #[trigger] cut_leaf_counts@[k]
                    < fine_particle_count
            &&& counts.rollouts != 0 && counts.temporal_samples != 0 && counts.rows_per_cut != 0
            &&& counts.validation_rollouts != 0 && counts.steps != 0 && counts.report_interval
                != 0 && counts.controller_steps != 0
            &&& (gradient_reduction_chunk_rows == 0 || (gradient_reduction_chunk_rows >= 128
                && is_power_of_two(gradient_reduction_chunk_rows as nat)))
        },
        result is Err ==> is_invalid_argument(result, "invalid adaptive multiscale training config"@),
{
    let mut cuts_valid = cut_leaf_counts.len() != 0;
    let mut coarsens = false;
    let mut i: usize = 0;
    while i < cut_leaf_counts.len()
        invariant
            i <= cut_leaf_counts@.len(),
            cuts_valid <==> cut_leaf_counts@.len() != 0 && forall|k: int|
                0 <= k < i ==> 0 < #[trigger] cut_leaf_counts@[k] <= fine_particle_count,
            coarsens <==> exists|k: int|
                0 <= k < i && #[trigger] cut_leaf_counts@[k] < fine_particle_count,
        decreases cut_leaf_counts@.len() - i,
    {
        let count = cut_leaf_counts[i];
        if count == 0 || count > fine_particle_count {
            cuts_valid = false;
        }
        if count < fine_particle_count {
            coarsens = true;
        }
        i = i + 1;
    }
    let chunk = gradient_reduction_chunk_rows;
    if fine_particle_count == 0 || !cuts_valid || (closure_recurrent_mode && !coarsens)
        || counts.rollouts == 0 || counts.temporal_samples == 0 || counts.rows_per_cut == 0
        || counts.validation_rollouts == 0 || counts.steps == 0 || counts.report_interval == 0
        || counts.controller_steps == 0 || (chunk != 0 && (chunk < 128 || !power_of_two(chunk))) {
        return Err(invalid_argument("invalid adaptive multiscale training config"));
    }
    Ok(())
}


/// The generator that `StdRng::seed_from_u64` builds from `seed`.
pub uninterp spec fn seeded_std_rng(seed: u64) -> StdRng;

/// Builds a generator with `StdRng::seed_from_u64`, which expands the seed
/// deterministically into the generator state.
///
/// Claimed of the call: the generator depends on the seed alone (it is
/// `seeded_std_rng(seed)`); which state that is, is not stated.
#[verifier::external_body]
pub(crate) fn seed_std_rng(seed: u64) -> (rng: StdRng)
    ensures
        rng == seeded_std_rng(seed),
{
    StdRng::seed_from_u64(seed)
}

/// Seed of the row-sampling generator of rollout `rollout_index`: the
/// rollout's teacher seed with a fixed salt mixed in.
pub open spec fn sample_rng_seed(seed: u64, rollout_index: nat) -> u64 {
    (teacher_rollout_seed(seed, rollout_index) as u64) ^ 0xa4a4_5eedu64
}

/// One row-sampling generator per rollout, each seeded from the rollout's
/// salted teacher seed.
pub fn rollout_sample_rngs(seed: u64, rollouts: usize) -> (rngs: Vec<StdRng>)
    ensures
        rngs@.len() == rollouts,
        forall|i: int|
            0 <= i < rollouts ==> #[trigger] rngs@[i] == seeded_std_rng(
                sample_rng_seed(seed, i as nat),
            ),
{
    let mut rngs: Vec<StdRng> = Vec::new();
    let mut i: usize = 0;
    while i < rollouts
        invariant
            i <= rollouts,
            rngs@.len() == i,
            forall|k: int|
                0 <= k < i ==> #[trigger] rngs@[k] == seeded_std_rng(sample_rng_seed(seed, k as nat)),
        decreases rollouts - i,
    {
        let salted = rollout_seed(seed, i) ^ 0xa4a4_5eedu64;
        rngs.push(seed_std_rng(salted));
        i = i + 1;
    }
    rngs
}


/// Buffer lengths of one prepared material cut.
#[derive(Clone, Copy, Debug)]
pub struct PreparedCutLengths {
    pub normalized_features: usize,
    pub compatible_features: usize,
    pub base_update: usize,
    pub restricted_target: usize,
    pub closure_mode_target_update: usize,
    pub closure_mode_active: usize,
}

/// The perception, update and target buffers of a cut of `material_count`
/// rows have one row per material particle (the closure buffers may be
/// absent together), and every selected row exists.
pub open spec fn prepared_cut_shape_ok(
    material_count: nat,
    lengths: PreparedCutLengths,
    selected: Seq<usize>,
    input_dims: nat,
    output_dims: nat,
) -> bool {
    &&& lengths.normalized_features == material_count * input_dims
    &&& lengths.compatible_features == material_count * input_dims
    &&& lengths.base_update == material_count * output_dims
    &&& lengths.restricted_target == material_count * output_dims
    &&& (lengths.closure_mode_target_update == 0 || (lengths.closure_mode_target_update
        == material_count * output_dims && lengths.closure_mode_active == material_count))
    &&& forall|k: int| 0 <= k < selected.len() ==> #[trigger] selected[k] < material_count
}

/// Shape check of a prepared material cut before its training rows are
/// assembled.
pub fn validate_prepared_cut_shape(
    material_count: usize,
    lengths: PreparedCutLengths,
    selected: &Vec<usize>,
    input_dims: usize,
    output_dims: usize,
) -> (result: AutomataResult<()>)
    requires
        material_count * input_dims <= usize::MAX,
        material_count * output_dims <= usize::MAX,
    ensures
        prepared_cut_shape_ok(
            material_count as nat,
            lengths,
            selected@,
            input_dims as nat,
            output_dims as nat,
        ) <==> result is Ok,
        result is Ok <==> {
            &&& lengths.normalized_features == material_count * input_dims
            &&& lengths.compatible_features == material_count * input_dims
            &&& lengths.base_update == material_count * output_dims
            &&& lengths.restricted_target == material_count * output_dims
            &&& (lengths.closure_mode_target_update == 0 || (lengths.closure_mode_target_update
                == material_count * output_dims && lengths.closure_mode_active == material_count))
            &&& forall|k: int| 0 <= k < selected@.len() ==> #[trigger] selected@[k] < material_count
        },
        result is Err ==> is_invalid_model(
            result,
            "prepared multiscale cut has an incompatible perception shape"@,
        ),
{
    let mut rows_exist = true;
    let mut k: usize = 0;
    while k < selected.len()
        invariant
            k <= selected@.len(),
            rows_exist <==> forall|j: int| 0 <= j < k ==> #[trigger] selected@[j] < material_count,
        decreases selected@.len() - k,
    {
        if selected[k] >= material_count {
            rows_exist = false;
        }
        k = k + 1;
    }
    let features = material_count * input_dims;
    let updates = material_count * output_dims;
    if lengths.normalized_features != features || lengths.compatible_features != features
        || lengths.base_update != updates || lengths.restricted_target != updates || !(
    lengths.closure_mode_target_update == 0 || (lengths.closure_mode_target_update == updates
        && lengths.closure_mode_active == material_count)) || !rows_exist {
        return Err(
            AutomataError::InvalidModel(
                text("prepared multiscale cut has an incompatible perception shape"),
            ),
        );
    }
    Ok(())
}

} // verus!
