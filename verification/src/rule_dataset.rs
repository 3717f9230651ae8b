use vstd::prelude::*;

use crate::error::{AutomataResult, invalid_argument, is_invalid_argument};

use crate::schedule::spread_sample_steps;

verus! {

/// Rollout steps at which rule distillation samples whole teacher
/// trajectories: `temporal_samples` samples spread evenly over the rollout,
/// repeated steps taken once. One sample, or an empty rollout, gives the final
/// state alone. The schedule is the multiscale dataset's.
pub fn snapshot_steps(rollout_steps: usize, temporal_samples: usize) -> (steps: Vec<usize>)
    requires
        temporal_samples >= 2 ==> (temporal_samples - 1) * rollout_steps <= usize::MAX,
    ensures
        temporal_samples == 1 || rollout_steps == 0 ==> steps@ == seq![rollout_steps],
        temporal_samples == 0 && rollout_steps != 0 ==> steps@ == Seq::<usize>::empty(),
        temporal_samples >= 2 ==> spread_sample_steps(
            steps@,
            rollout_steps as nat,
            temporal_samples as nat,
        ),
        temporal_samples >= 2 ==> steps@.len() >= 1 && steps@[0] == 0 && steps@.last()
            == rollout_steps,
{
    crate::multiscale_dataset::snapshot_steps(rollout_steps, temporal_samples)
}


/// Run sizes of a rule-distillation configuration, each of which must be
/// positive.
#[derive(Clone, Copy, Debug)]
pub struct RuleDistillationCounts {
    pub particle_count: usize,
    pub rollouts: usize,
    pub temporal_samples: usize,
    pub rows_per_snapshot: usize,
    pub validation_rollouts: usize,
    pub steps: usize,
    pub report_interval: usize,
}

/// Every run size of the distillation is positive.
pub open spec fn distillation_counts_positive(counts: RuleDistillationCounts) -> bool {
    &&& counts.particle_count != 0
    &&& counts.rollouts != 0
    &&& counts.temporal_samples != 0
    &&& counts.rows_per_snapshot != 0
    &&& counts.validation_rollouts != 0
    &&& counts.steps != 0
    &&& counts.report_interval != 0
}

/// Checks the run sizes of a rule-distillation configuration (the model
/// compatibility and the rollout scalars are checked separately, with the
/// same error).
pub fn validate_distillation_counts(counts: RuleDistillationCounts) -> (result: AutomataResult<()>)
    ensures
        distillation_counts_positive(counts) <==> result is Ok,
        result is Ok <==> counts.particle_count != 0 && counts.rollouts != 0
            && counts.temporal_samples != 0 && counts.rows_per_snapshot != 0
            && counts.validation_rollouts != 0 && counts.steps != 0 && counts.report_interval != 0,
        result is Err ==> is_invalid_argument(result, "invalid adaptive rule distillation config"@),
{
    if counts.particle_count == 0 || counts.rollouts == 0 || counts.temporal_samples == 0
        || counts.rows_per_snapshot == 0 || counts.validation_rollouts == 0 || counts.steps == 0
        || counts.report_interval == 0 {
        return Err(invalid_argument("invalid adaptive rule distillation config"));
    }
    Ok(())
}

} // verus!
