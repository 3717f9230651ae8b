use vstd::prelude::*;
use vstd::string::StringExecFns;

use crate::error::{AutomataError, AutomataResult, is_invalid_argument};
use crate::schedule::{
    is_sample_step, lemma_sample_step_bounded, lemma_spread_endpoints, sample_step, sort_dedup,
    spread_sample_steps, strictly_increasing,
};
use crate::text::{decimal, push_decimal, text};

verus! {

/// Backend that evaluates the closure-identifiability audit.
#[derive(Clone, Copy, Debug, PartialEq, Eq, Structural)]
pub enum AdaptiveClosureAuditBackend {
    CpuReference,
    WgpuResident,
}

impl Default for AdaptiveClosureAuditBackend {
    fn default() -> (r: Self)
        ensures
            r == AdaptiveClosureAuditBackend::CpuReference,
    {
        AdaptiveClosureAuditBackend::CpuReference
    }
}

/// Rollout steps at which the audit takes its `samples` temporal snapshots:
/// the samples are spread evenly over the rollout and repeated steps are
/// taken once. A single sample is the final state.
pub fn snapshot_steps(rollout_steps: usize, samples: usize) -> (steps: Vec<usize>)
    requires
        samples >= 2 ==> (samples - 1) * rollout_steps <= usize::MAX,
    ensures
        samples == 0 ==> steps@ == Seq::<usize>::empty(),
        samples == 1 ==> steps@ == seq![rollout_steps],
        samples >= 2 ==> spread_sample_steps(steps@, rollout_steps as nat, samples as nat),
        samples >= 2 ==> steps@.len() >= 1 && steps@[0] == 0 && steps@.last() == rollout_steps,
{
    if samples == 1 {
        let mut steps = Vec::new();
        steps.push(rollout_steps);
        return steps;
    }
    let mut raw: Vec<usize> = Vec::new();
    let mut sample: usize = 0;
    while sample < samples
        invariant
            sample <= samples,
            samples != 1,
            samples >= 2 ==> (samples - 1) * rollout_steps <= usize::MAX,
            raw@.len() == sample,
            forall|k: int|
                0 <= k < sample ==> raw@[k] == sample_step(k as nat, rollout_steps as nat, samples as nat),
        decreases samples - sample,
    {
        assert(sample * rollout_steps <= (samples - 1) * rollout_steps) by (nonlinear_arith)
            requires
                sample <= samples - 1,
        ;
        raw.push(sample * rollout_steps / (samples - 1));
        sample = sample + 1;
    }
    let steps = sort_dedup(&raw);
    proof {
        if samples >= 2 {
            assert forall|k: int| 0 <= k < steps@.len() implies is_sample_step(
                #[trigger] steps@[k] as nat,
                rollout_steps as nat,
                samples as nat,
            ) by {
                assert(raw@.contains(steps@[k]));
                let j = choose|j: int| 0 <= j < raw@.len() && raw@[j] == steps@[k];
                assert(sample_step(j as nat, rollout_steps as nat, samples as nat) == steps@[k]);
            }
            assert forall|i: nat| i < samples as nat implies steps@.contains(
                #[trigger] sample_step(i, rollout_steps as nat, samples as nat) as usize,
            ) by {
                assert(raw@[i as int] == sample_step(i, rollout_steps as nat, samples as nat));
                assert(raw@.contains(raw@[i as int]));
                lemma_sample_step_bounded(i, rollout_steps as nat, samples as nat);
                assert(steps@.contains(raw@[i as int]));
            }
            assert(strictly_increasing(steps@));
            assert(spread_sample_steps(steps@, rollout_steps as nat, samples as nat));
            lemma_spread_endpoints(steps@, rollout_steps as nat, samples as nat);
        } else {
            if steps@.len() > 0 {
                assert(steps@.contains(steps@[0]));
            }
        }
    }
    steps
}


/// The integral part of an enabled closure-identifiability audit: the fine
/// set has room for a coarse cut beside a full spatial simplex and fits the
/// backend, the cut keeps between one and all but one particle, and at
/// least one temporal sample of one rollout is taken.
pub open spec fn audit_schedule_ok(
    fine_particle_count: nat,
    cut_leaf_count: nat,
    temporal_samples: nat,
    rollouts: nat,
    spatial_dims: nat,
    maximum_particle_count: nat,
) -> bool {
    &&& spatial_dims + 2 <= fine_particle_count
    &&& fine_particle_count <= maximum_particle_count
    &&& 0 < cut_leaf_count < fine_particle_count
    &&& temporal_samples != 0
    &&& rollouts != 0
}

/// Message for an audit configuration the backend cannot run.
pub open spec fn audit_config_message(maximum_particle_count: nat) -> Seq<char> {
    "adaptive closure-identifiability configuration is invalid; this backend supports at most "@
        + decimal(maximum_particle_count) + " fine particles"@
}

/// The backend's particle maximum is inclusive: an otherwise valid audit
/// is accepted exactly when its fine set has at most that many particles.
pub proof fn lemma_audit_particle_bound(
    fine_particle_count: nat,
    cut_leaf_count: nat,
    temporal_samples: nat,
    rollouts: nat,
    spatial_dims: nat,
    maximum_particle_count: nat,
)
    ensures
        spatial_dims + 2 <= fine_particle_count && 0 < cut_leaf_count < fine_particle_count
            && temporal_samples != 0 && rollouts != 0 ==> (audit_schedule_ok(
            fine_particle_count,
            cut_leaf_count,
            temporal_samples,
            rollouts,
            spatial_dims,
            maximum_particle_count,
        ) <==> fine_particle_count <= maximum_particle_count),
        audit_schedule_ok(
            fine_particle_count,
            cut_leaf_count,
            temporal_samples,
            rollouts,
            spatial_dims,
            maximum_particle_count,
        ) ==> spatial_dims + 2 <= fine_particle_count <= maximum_particle_count && 0
            < cut_leaf_count < fine_particle_count,
{
}

/// Checks the integral part of a closure-identifiability audit
/// configuration (the rollout scalars are checked separately, with the same
/// error). A disabled audit is always accepted.
pub fn validate_audit_schedule(
    enabled: bool,
    fine_particle_count: usize,
    cut_leaf_count: usize,
    temporal_samples: usize,
    rollouts: usize,
    spatial_dims: usize,
    maximum_particle_count: usize,
) -> (result: AutomataResult<()>)
    ensures
        !enabled || audit_schedule_ok(
            fine_particle_count as nat,
            cut_leaf_count as nat,
            temporal_samples as nat,
            rollouts as nat,
            spatial_dims as nat,
            maximum_particle_count as nat,
        ) <==> result is Ok,
        result is Err ==> is_invalid_argument(
            result,
            audit_config_message(maximum_particle_count as nat),
        ),
        enabled && result is Ok ==> spatial_dims + 2 <= fine_particle_count
            <= maximum_particle_count && 0 < cut_leaf_count < fine_particle_count,
        enabled && spatial_dims + 2 <= fine_particle_count && 0 < cut_leaf_count
            < fine_particle_count && temporal_samples != 0 && rollouts != 0 ==> (result is Ok
            <==> fine_particle_count <= maximum_particle_count),
{
    proof {
        lemma_audit_particle_bound(
            fine_particle_count as nat,
            cut_leaf_count as nat,
            temporal_samples as nat,
            rollouts as nat,
            spatial_dims as nat,
            maximum_particle_count as nat,
        );
    }
    if !enabled {
        return Ok(());
    }
    if fine_particle_count < 2 || fine_particle_count - 2 < spatial_dims || fine_particle_count
        > maximum_particle_count || cut_leaf_count == 0 || cut_leaf_count >= fine_particle_count
        || temporal_samples == 0 || rollouts == 0 {
        let mut message = text(
            "adaptive closure-identifiability configuration is invalid; this backend supports at most ",
        );
        push_decimal(&mut message, maximum_particle_count as u128);
        message.append(" fine particles");
        return Err(AutomataError::InvalidArgument(message));
    }
    Ok(())
}

} // verus!
