use vstd::prelude::*;

use crate::error::{AutomataError, AutomataResult, invalid_argument, is_invalid_argument};
use crate::mlp::{
    DEFAULT_GRADIENT_REDUCTION_CHUNK_ROWS, MlpShape, batch_rows_message, buffer_plan_shape_ok,
    largest_buffer_bytes, optimizer_batch_rows_of, oversized_buffer_message,
    validate_mlp_buffer_plan, MAX_MLP_SINGLE_BUFFER_BYTES,
};

verus! {

/// Image whose composited loss defines the merge-oracle labels.
#[derive(Clone, Copy, Debug, PartialEq, Eq, Structural)]
pub enum AdaptiveRestrictionLabelTarget {
    /// Preserve the fine teacher's rendering (the deployable default).
    FineTeacher,
    /// Match the target image (an explicit ablation).
    TargetImage,
}

impl Default for AdaptiveRestrictionLabelTarget {
    fn default() -> (r: Self)
        ensures
            r == AdaptiveRestrictionLabelTarget::FineTeacher,
    {
        AdaptiveRestrictionLabelTarget::FineTeacher
    }
}

/// Dynamics backend used to collect replay states.
#[derive(Clone, Copy, Debug, PartialEq, Eq, Structural)]
pub enum AdaptiveReplayBackend {
    CpuReference,
    WgpuResident,
}

impl Default for AdaptiveReplayBackend {
    fn default() -> (r: Self)
        ensures
            r == AdaptiveReplayBackend::CpuReference,
    {
        AdaptiveReplayBackend::CpuReference
    }
}

/// Oracle used to label states visited by the recurrent adaptive policy.
#[derive(Clone, Copy, Debug, PartialEq, Eq, Structural)]
pub enum AdaptiveReplayTeacher {
    /// Evaluate the fixed-resolution rule directly on the coarse student state.
    SameState,
    /// Prolong active leaves into stateless affine quadrature, evaluate the
    /// frozen fine rule, and restrict its action back to the active state.
    MarkovQuadrature,
    /// Preserve a fine material realization behind every coarse leaf and
    /// restrict the fine teacher's action onto the recurrent student state.
    CoupledFine,
}

impl Default for AdaptiveReplayTeacher {
    fn default() -> (r: Self)
        ensures
            r == AdaptiveReplayTeacher::SameState,
    {
        AdaptiveReplayTeacher::SameState
    }
}

/// Structure of the single deployable recurrent rule.
#[derive(Clone, Copy, Debug, PartialEq, Eq, Structural)]
pub enum AdaptiveDeploymentStrategy {
    Flat,
    FusedLocal,
}

impl Default for AdaptiveDeploymentStrategy {
    fn default() -> (r: Self)
        ensures
            r == AdaptiveDeploymentStrategy::Flat,
    {
        AdaptiveDeploymentStrategy::Flat
    }
}

/// Functional target used to train the single recurrent deployment rule.
#[derive(Clone, Copy, Debug, PartialEq, Eq, Structural)]
pub enum AdaptiveDeploymentTarget {
    /// Compress the current exact base/local/proxy policy into one MLP.
    Policy,
    /// Learn the measure-restricted fine teacher action directly.
    RestrictedFineTeacher,
}

impl Default for AdaptiveDeploymentTarget {
    fn default() -> (r: Self)
        ensures
            r == AdaptiveDeploymentTarget::Policy,
    {
        AdaptiveDeploymentTarget::Policy
    }
}

/// Parameterization optimized by the multiscale dynamics curriculum.
#[derive(Clone, Copy, Debug, PartialEq, Eq, Structural)]
pub enum AdaptiveMultiscaleRuleStrategy {
    /// Preserve a frozen fixed-resolution rule and learn a gated correction.
    Residual,
    /// Keep the native rule exact and train a complete update for coarse
    /// leaves.
    CoarseReplacement,
    /// Optimize the shared rule on normalized unequal-measure perception.
    FullNormalized,
}

impl Default for AdaptiveMultiscaleRuleStrategy {
    fn default() -> (r: Self)
        ensures
            r == AdaptiveMultiscaleRuleStrategy::Residual,
    {
        AdaptiveMultiscaleRuleStrategy::Residual
    }
}

/// Whether controller training runs unless a configuration disables it.
pub fn default_controller_training_enabled() -> (enabled: bool)
    ensures
        enabled,
{
    true
}

/// Optimizer steps per on-policy round when a configuration omits them.
pub fn default_on_policy_steps() -> (steps: usize)
    ensures
        steps == 250,
{
    250
}

/// Rows per partial gradient reduction when a configuration omits them.
pub fn default_gradient_reduction_chunk_rows() -> (rows: usize)
    ensures
        rows == DEFAULT_GRADIENT_REDUCTION_CHUNK_ROWS,
{
    DEFAULT_GRADIENT_REDUCTION_CHUNK_ROWS
}

/// Rollout steps of each multiscale on-policy trajectory by default.
pub fn default_multiscale_on_policy_rollout_steps() -> (steps: usize)
    ensures
        steps == 64,
{
    64
}

/// Material-cut steps of the multiscale on-policy curriculum by default:
/// a single seed-state cut.
pub fn default_multiscale_on_policy_cut_steps() -> (steps: Vec<usize>)
    ensures
        steps@ == seq![0usize],
{
    let mut steps = Vec::new();
    steps.push(0);
    steps
}

/// Multiscale on-policy rollouts per round by default.
pub fn default_multiscale_on_policy_rollouts() -> (rollouts: usize)
    ensures
        rollouts == 2,
{
    2
}

/// Steps between multiscale on-policy snapshots by default.
pub fn default_multiscale_on_policy_snapshot_interval() -> (interval: usize)
    ensures
        interval == 4,
{
    4
}

/// Rows drawn from each multiscale on-policy snapshot by default.
pub fn default_multiscale_on_policy_rows() -> (rows: usize)
    ensures
        rows == 256,
{
    256
}

/// Width of the leaf-local multiscale correction: zero keeps the base width.
pub fn resolved_local_residual_hidden_dims(
    local_residual_hidden_dims: usize,
    base_hidden_dims: usize,
) -> (dims: usize)
    ensures
        dims == if local_residual_hidden_dims == 0 {
            base_hidden_dims
        } else {
            local_residual_hidden_dims
        },
{
    if local_residual_hidden_dims == 0 {
        base_hidden_dims
    } else {
        local_residual_hidden_dims
    }
}

/// Hidden width of the deployable rule: zero uses twice the base width,
/// capped at 256.
pub fn resolved_deployment_hidden_dims(deployment_hidden_dims: usize, base_hidden_dims: usize) -> (dims: usize)
    ensures
        deployment_hidden_dims == 0 ==> dims == if 2 * base_hidden_dims <= 256 {
            2 * base_hidden_dims
        } else {
            256
        },
        deployment_hidden_dims != 0 ==> dims == deployment_hidden_dims,
{
    if deployment_hidden_dims == 0 {
        if base_hidden_dims <= 128 {
            base_hidden_dims * 2
        } else {
            256
        }
    } else {
        deployment_hidden_dims
    }
}

/// Distillation steps of the deployable rule: zero reuses `steps`.
pub fn resolved_deployment_steps(deployment_steps: usize, steps: usize) -> (resolved: usize)
    ensures
        resolved == if deployment_steps == 0 {
            steps
        } else {
            deployment_steps
        },
{
    if deployment_steps == 0 {
        steps
    } else {
        deployment_steps
    }
}

/// Optimizer steps per deployment on-policy round: zero reuses the resolved
/// deployment steps.
pub fn resolved_deployment_on_policy_steps(
    deployment_on_policy_steps: usize,
    deployment_steps: usize,
    steps: usize,
) -> (resolved: usize)
    ensures
        resolved == if deployment_on_policy_steps != 0 {
            deployment_on_policy_steps
        } else if deployment_steps != 0 {
            deployment_steps
        } else {
            steps
        },
{
    if deployment_on_policy_steps == 0 {
        resolved_deployment_steps(deployment_steps, steps)
    } else {
        deployment_on_policy_steps
    }
}

/// True when a controller batch of `rows` rows has feature and target
/// buffers of exactly the expected lengths.
pub open spec fn controller_batch_shape_ok(
    rows: nat,
    features_len: nat,
    targets_len: nat,
    input_dims: nat,
    output_dims: nat,
) -> bool {
    &&& rows != 0
    &&& features_len == rows * input_dims
    &&& targets_len == rows * output_dims
}

/// Shape check of a controller training batch (the element values are
/// checked separately).
pub fn validate_controller_batch_shape(
    rows: usize,
    features_len: usize,
    targets_len: usize,
    input_dims: usize,
    output_dims: usize,
) -> (result: AutomataResult<()>)
    requires
        rows * input_dims <= usize::MAX,
        rows * output_dims <= usize::MAX,
    ensures
        controller_batch_shape_ok(
            rows as nat,
            features_len as nat,
            targets_len as nat,
            input_dims as nat,
            output_dims as nat,
        ) <==> result is Ok,
        result is Ok <==> rows != 0 && features_len == rows * input_dims && targets_len == rows
            * output_dims,
        result is Err ==> is_invalid_argument(
            result,
            "adaptive controller training batch shape mismatch"@,
        ),
{
    if rows == 0 || features_len != rows * input_dims || targets_len != rows * output_dims {
        return Err(invalid_argument("adaptive controller training batch shape mismatch"));
    }
    Ok(())
}

/// True when the restriction batch layout is consistent: every snapshot
/// contributes the same number of candidate groups, each row carries one rank
/// and one utility target, and no snapshot merges more groups than it has.
pub open spec fn restriction_batch_shape_ok(
    controller_rows: nat,
    snapshots: nat,
    groups_per_snapshot: nat,
    merges_per_snapshot: nat,
    rank_targets_len: nat,
    utility_targets_len: nat,
) -> bool {
    &&& snapshots != 0
    &&& groups_per_snapshot != 0
    &&& controller_rows == snapshots * groups_per_snapshot
    &&& rank_targets_len == controller_rows
    &&& utility_targets_len == controller_rows
    &&& merges_per_snapshot <= groups_per_snapshot
}

/// With whole snapshots and one rank and one utility target per row, a
/// restriction batch is accepted exactly when no snapshot merges more
/// groups than it has; in particular every group of a snapshot may merge.
pub proof fn lemma_restriction_merges_bound(
    controller_rows: nat,
    snapshots: nat,
    groups_per_snapshot: nat,
    merges_per_snapshot: nat,
    rank_targets_len: nat,
    utility_targets_len: nat,
)
    ensures
        snapshots != 0 && groups_per_snapshot != 0 && controller_rows == snapshots
            * groups_per_snapshot && rank_targets_len == controller_rows && utility_targets_len
            == controller_rows ==> (restriction_batch_shape_ok(
            controller_rows,
            snapshots,
            groups_per_snapshot,
            merges_per_snapshot,
            rank_targets_len,
            utility_targets_len,
        ) <==> merges_per_snapshot <= groups_per_snapshot),
        restriction_batch_shape_ok(
            controller_rows,
            snapshots,
            groups_per_snapshot,
            merges_per_snapshot,
            rank_targets_len,
            utility_targets_len,
        ) ==> merges_per_snapshot <= groups_per_snapshot && controller_rows == snapshots
            * groups_per_snapshot,
{
}

/// Shape check of a restriction training batch (the controller batch and
/// the target ranges are checked separately).
pub fn validate_restriction_batch_shape(
    controller_rows: usize,
    snapshots: usize,
    groups_per_snapshot: usize,
    merges_per_snapshot: usize,
    rank_targets_len: usize,
    utility_targets_len: usize,
) -> (result: AutomataResult<()>)
    requires
        snapshots * groups_per_snapshot <= usize::MAX,
    ensures
        restriction_batch_shape_ok(
            controller_rows as nat,
            snapshots as nat,
            groups_per_snapshot as nat,
            merges_per_snapshot as nat,
            rank_targets_len as nat,
            utility_targets_len as nat,
        ) <==> result is Ok,
        result is Ok <==> snapshots != 0 && groups_per_snapshot != 0 && controller_rows
            == snapshots * groups_per_snapshot && rank_targets_len == controller_rows
            && utility_targets_len == controller_rows && merges_per_snapshot <= groups_per_snapshot,
        result is Err ==> is_invalid_argument(
            result,
            "adaptive restriction training batch shape mismatch"@,
        ),
        snapshots != 0 && groups_per_snapshot != 0 && controller_rows == snapshots
            * groups_per_snapshot && rank_targets_len == controller_rows && utility_targets_len
            == controller_rows ==> (result is Ok <==> merges_per_snapshot <= groups_per_snapshot),
        result is Ok ==> merges_per_snapshot <= groups_per_snapshot && controller_rows == snapshots
            * groups_per_snapshot,
{
    proof {
        lemma_restriction_merges_bound(
            controller_rows as nat,
            snapshots as nat,
            groups_per_snapshot as nat,
            merges_per_snapshot as nat,
            rank_targets_len as nat,
            utility_targets_len as nat,
        );
    }
    if snapshots == 0 || groups_per_snapshot == 0 || controller_rows != snapshots
        * groups_per_snapshot || rank_targets_len != controller_rows || utility_targets_len
        != controller_rows || merges_per_snapshot > groups_per_snapshot {
        return Err(invalid_argument("adaptive restriction training batch shape mismatch"));
    }
    Ok(())
}

/// True when a rule-distillation batch has exactly `rows` feature and target
/// rows.
pub open spec fn rule_batch_shape_ok(
    rows: nat,
    features_len: nat,
    targets_len: nat,
    input_dims: nat,
    output_dims: nat,
) -> bool {
    &&& rows != 0
    &&& features_len == rows * input_dims
    &&& targets_len == rows * output_dims
}

/// Shape check of a rule-distillation batch (the element values are checked
/// separately).
pub fn validate_rule_batch_shape(
    rows: usize,
    features_len: usize,
    targets_len: usize,
    input_dims: usize,
    output_dims: usize,
) -> (result: AutomataResult<()>)
    requires
        rows * input_dims <= usize::MAX,
        rows * output_dims <= usize::MAX,
    ensures
        rule_batch_shape_ok(
            rows as nat,
            features_len as nat,
            targets_len as nat,
            input_dims as nat,
            output_dims as nat,
        ) <==> result is Ok,
        result is Ok <==> rows != 0 && features_len == rows * input_dims && targets_len == rows
            * output_dims,
        result is Err ==> is_invalid_argument(result, "adaptive rule training batch shape mismatch"@),
{
    if rows == 0 || features_len != rows * input_dims || targets_len != rows * output_dims {
        return Err(invalid_argument("adaptive rule training batch shape mismatch"));
    }
    Ok(())
}

/// Buffer lengths of a multiscale training batch.
#[derive(Clone, Copy, Debug)]
pub struct MultiscaleBatchLengths {
    pub local_features: usize,
    pub closure_features: usize,
    pub proxy_features: usize,
    pub target_update: usize,
    pub closure_mode_target_update: usize,
    pub closure_basis_target_update: usize,
    pub closure_mode_row_weights: usize,
    pub deployment_features: usize,
    pub deployment_target_update: usize,
    pub deployment_row_weights: usize,
    pub deployment_residual_gate: usize,
    pub controller_features: usize,
    pub controller_targets: usize,
    pub row_weights: usize,
}

/// True when a multiscale batch of `rows` rows has consistent buffers.
///
/// Local features hold at least `input_dims` values per row; closure
/// features are absent or a whole number of values per row; the proxy branch
/// is absent or NPA-shaped; the three closure buffers are either all absent
/// or all present with one row each; every other buffer has exactly one row
/// per sample.
pub open spec fn multiscale_batch_shape_ok(
    rows: nat,
    lengths: MultiscaleBatchLengths,
    input_dims: nat,
    output_dims: nat,
    controller_input_dims: nat,
    controller_output_dims: nat,
) -> bool {
    &&& rows != 0
    &&& (lengths.local_features as nat) % rows == 0
    &&& (lengths.local_features as nat) / rows >= input_dims
    &&& (lengths.closure_features == 0 || (lengths.closure_features as nat) % rows == 0)
    &&& (lengths.proxy_features == 0 || lengths.proxy_features == rows * input_dims)
    &&& lengths.target_update == rows * output_dims
    &&& ((lengths.closure_mode_target_update == 0 && lengths.closure_basis_target_update == 0
        && lengths.closure_mode_row_weights == 0) || (lengths.closure_mode_target_update == rows
        * output_dims && lengths.closure_basis_target_update == rows * output_dims
        && lengths.closure_mode_row_weights == rows))
    &&& lengths.deployment_features == rows * input_dims
    &&& lengths.deployment_target_update == rows * output_dims
    &&& lengths.deployment_row_weights == rows
    &&& lengths.deployment_residual_gate == rows
    &&& lengths.controller_features == rows * controller_input_dims
    &&& lengths.controller_targets == rows * controller_output_dims
    &&& lengths.row_weights == rows
}

/// Shape check of a multiscale training batch (the element values are
/// checked separately).
pub fn validate_multiscale_batch_shape(
    rows: usize,
    lengths: MultiscaleBatchLengths,
    input_dims: usize,
    output_dims: usize,
    controller_input_dims: usize,
    controller_output_dims: usize,
) -> (result: AutomataResult<()>)
    requires
        rows * input_dims <= usize::MAX,
        rows * output_dims <= usize::MAX,
        rows * controller_input_dims <= usize::MAX,
        rows * controller_output_dims <= usize::MAX,
    ensures
        multiscale_batch_shape_ok(
            rows as nat,
            lengths,
            input_dims as nat,
            output_dims as nat,
            controller_input_dims as nat,
            controller_output_dims as nat,
        ) <==> result is Ok,
        result is Ok <==> {
            &&& rows != 0
            &&& lengths.local_features % rows == 0
            &&& lengths.local_features / rows >= input_dims
            &&& (lengths.closure_features == 0 || lengths.closure_features % rows == 0)
            &&& (lengths.proxy_features == 0 || lengths.proxy_features == rows * input_dims)
            &&& lengths.target_update == rows * output_dims
            &&& ((lengths.closure_mode_target_update == 0 && lengths.closure_basis_target_update
                == 0 && lengths.closure_mode_row_weights == 0) || (
            lengths.closure_mode_target_update == rows * output_dims
                && lengths.closure_basis_target_update == rows * output_dims
                && lengths.closure_mode_row_weights == rows))
            &&& lengths.deployment_features == rows * input_dims
            &&& lengths.deployment_target_update == rows * output_dims
            &&& lengths.deployment_row_weights == rows
            &&& lengths.deployment_residual_gate == rows
            &&& lengths.controller_features == rows * controller_input_dims
            &&& lengths.controller_targets == rows * controller_output_dims
            &&& lengths.row_weights == rows
        },
        result is Err ==> is_invalid_argument(
            result,
            "adaptive multiscale training batch shape mismatch"@,
        ),
{
    let message = "adaptive multiscale training batch shape mismatch";
    if rows == 0 || !lengths.local_features.is_multiple_of(rows) || lengths.local_features / rows
        < input_dims || !(lengths.closure_features == 0 || lengths.closure_features.is_multiple_of(
        rows,
    )) || !(lengths.proxy_features == 0 || lengths.proxy_features == rows * input_dims)
        || lengths.target_update != rows * output_dims || !((lengths.closure_mode_target_update
        == 0 && lengths.closure_basis_target_update == 0 && lengths.closure_mode_row_weights == 0)
        || (lengths.closure_mode_target_update == rows * output_dims
        && lengths.closure_basis_target_update == rows * output_dims
        && lengths.closure_mode_row_weights == rows)) || lengths.deployment_features != rows
        * input_dims || lengths.deployment_target_update != rows * output_dims
        || lengths.deployment_row_weights != rows || lengths.deployment_residual_gate != rows
        || lengths.controller_features != rows * controller_input_dims
        || lengths.controller_targets != rows * controller_output_dims || lengths.row_weights
        != rows {
        return Err(invalid_argument(message));
    }
    Ok(())
}

/// Message for an overflowing restriction snapshot count.
pub open spec fn snapshot_overflow_message() -> Seq<char> {
    "adaptive restriction training snapshot count overflow"@
}

/// Message for an overflowing restriction row count.
pub open spec fn row_overflow_message() -> Seq<char> {
    "adaptive restriction training row count overflow"@
}

/// Name under which the restriction ranker's buffers are reported.
pub open spec fn restriction_ranker_name() -> Seq<char> {
    "adaptive restriction ranker"@
}

/// Preflight of the restriction-ranker training memory.
///
/// Each seed yields one snapshot per cut step, and each snapshot contributes
/// a quarter of the bootstrap fine leaves as candidate merge groups. The
/// resulting row count must be representable and the ranker MLP must fit the
/// backend buffer limit.
pub fn validate_adaptive_restriction_training_memory_plan(
    bootstrap_fine_leaf_count: usize,
    seed_count: usize,
    cut_step_count: usize,
    controller: MlpShape,
    optimizer_batch_rows: usize,
) -> (result: AutomataResult<()>)
    ensures
        seed_count * cut_step_count > usize::MAX ==> is_invalid_argument(
            result,
            snapshot_overflow_message(),
        ),
        seed_count * cut_step_count <= usize::MAX && seed_count * cut_step_count * (
        bootstrap_fine_leaf_count / 4) > usize::MAX ==> is_invalid_argument(
            result,
            row_overflow_message(),
        ),
        ({
            let rows = seed_count * cut_step_count * (bootstrap_fine_leaf_count / 4);
            seed_count * cut_step_count <= usize::MAX && rows <= usize::MAX ==> {
                &&& !buffer_plan_shape_ok(rows as nat, controller, optimizer_batch_rows as nat)
                    ==> is_invalid_argument(
                    result,
                    batch_rows_message(restriction_ranker_name(), rows as nat),
                )
                &&& buffer_plan_shape_ok(rows as nat, controller, optimizer_batch_rows as nat)
                    && largest_buffer_bytes(rows as nat, controller, optimizer_batch_rows as nat)
                    > MAX_MLP_SINGLE_BUFFER_BYTES ==> is_invalid_argument(
                    result,
                    oversized_buffer_message(
                        restriction_ranker_name(),
                        rows as nat,
                        largest_buffer_bytes(rows as nat, controller, optimizer_batch_rows as nat),
                    ),
                )
                &&& buffer_plan_shape_ok(rows as nat, controller, optimizer_batch_rows as nat)
                    && largest_buffer_bytes(rows as nat, controller, optimizer_batch_rows as nat)
                    <= MAX_MLP_SINGLE_BUFFER_BYTES ==> result is Ok
            }
        }),
{
    let groups_per_snapshot = bootstrap_fine_leaf_count / 4;
    let snapshots = match seed_count.checked_mul(cut_step_count) {
        Some(snapshots) => snapshots,
        None => {
            return Err(invalid_argument("adaptive restriction training snapshot count overflow"));
        },
    };
    let rows = match snapshots.checked_mul(groups_per_snapshot) {
        Some(rows) => rows,
        None => {
            return Err(invalid_argument("adaptive restriction training row count overflow"));
        },
    };
    match validate_mlp_buffer_plan(rows, controller, optimizer_batch_rows, "adaptive restriction ranker") {
        Ok(_) => Ok(()),
        Err(error) => Err(error),
    }
}

} // verus!
