use burn_automata::closure_audit::AdaptiveClosureAuditBackend;
use burn_automata::mlp::{MlpShape, DEFAULT_GRADIENT_REDUCTION_CHUNK_ROWS};
use burn_automata::training::{
    default_controller_training_enabled, default_gradient_reduction_chunk_rows,
    default_multiscale_on_policy_cut_steps, default_multiscale_on_policy_rollout_steps,
    default_multiscale_on_policy_rollouts, default_multiscale_on_policy_rows,
    default_multiscale_on_policy_snapshot_interval, default_on_policy_steps,
    resolved_deployment_hidden_dims, resolved_deployment_on_policy_steps,
    resolved_deployment_steps, resolved_local_residual_hidden_dims,
    validate_adaptive_restriction_training_memory_plan, validate_controller_batch_shape,
    validate_multiscale_batch_shape, validate_restriction_batch_shape, validate_rule_batch_shape,
    AdaptiveDeploymentStrategy, AdaptiveDeploymentTarget, AdaptiveMultiscaleRuleStrategy,
    AdaptiveReplayBackend, AdaptiveReplayTeacher, AdaptiveRestrictionLabelTarget,
    MultiscaleBatchLengths,
};

#[test]
fn configuration_defaults_match_the_documented_values() {
    assert!(default_controller_training_enabled());
    assert_eq!(default_on_policy_steps(), 250);
    assert_eq!(
        default_gradient_reduction_chunk_rows(),
        DEFAULT_GRADIENT_REDUCTION_CHUNK_ROWS
    );
    assert_eq!(default_gradient_reduction_chunk_rows(), 1_024);
    assert_eq!(default_multiscale_on_policy_rollout_steps(), 64);
    assert_eq!(default_multiscale_on_policy_cut_steps(), vec![0]);
    assert_eq!(default_multiscale_on_policy_rollouts(), 2);
    assert_eq!(default_multiscale_on_policy_snapshot_interval(), 4);
    assert_eq!(default_multiscale_on_policy_rows(), 256);
}

#[test]
fn strategy_enums_default_to_the_deployable_choice() {
    assert_eq!(
        AdaptiveRestrictionLabelTarget::default(),
        AdaptiveRestrictionLabelTarget::FineTeacher
    );
    assert_eq!(AdaptiveReplayBackend::default(), AdaptiveReplayBackend::CpuReference);
    assert_eq!(AdaptiveReplayTeacher::default(), AdaptiveReplayTeacher::SameState);
    assert_eq!(AdaptiveDeploymentStrategy::default(), AdaptiveDeploymentStrategy::Flat);
    assert_eq!(AdaptiveDeploymentTarget::default(), AdaptiveDeploymentTarget::Policy);
    assert_eq!(
        AdaptiveMultiscaleRuleStrategy::default(),
        AdaptiveMultiscaleRuleStrategy::Residual
    );
    assert_eq!(
        AdaptiveClosureAuditBackend::default(),
        AdaptiveClosureAuditBackend::CpuReference
    );
}

#[test]
fn zero_overrides_resolve_to_the_base_configuration() {
    assert_eq!(resolved_local_residual_hidden_dims(0, 96), 96);
    assert_eq!(resolved_local_residual_hidden_dims(32, 96), 32);
    assert_eq!(resolved_deployment_hidden_dims(0, 96), 192);
    assert_eq!(resolved_deployment_hidden_dims(0, 200), 256);
    assert_eq!(resolved_deployment_hidden_dims(0, 128), 256);
    assert_eq!(resolved_deployment_hidden_dims(48, 200), 48);
    assert_eq!(resolved_deployment_steps(0, 500), 500);
    assert_eq!(resolved_deployment_steps(80, 500), 80);
    assert_eq!(resolved_deployment_on_policy_steps(0, 0, 500), 500);
    assert_eq!(resolved_deployment_on_policy_steps(0, 80, 500), 80);
    assert_eq!(resolved_deployment_on_policy_steps(25, 80, 500), 25);
}

#[test]
fn controller_and_rule_batches_need_exact_buffers() {
    assert!(validate_controller_batch_shape(4, 12, 8, 3, 2).is_ok());
    assert_eq!(
        validate_controller_batch_shape(4, 11, 8, 3, 2)
            .unwrap_err()
            .to_string(),
        "adaptive controller training batch shape mismatch"
    );
    assert!(validate_controller_batch_shape(0, 0, 0, 3, 2).is_err());
    assert!(validate_rule_batch_shape(2, 10, 6, 5, 3).is_ok());
    assert_eq!(
        validate_rule_batch_shape(2, 10, 7, 5, 3)
            .unwrap_err()
            .to_string(),
        "adaptive rule training batch shape mismatch"
    );
}

#[test]
fn restriction_batches_need_whole_snapshots() {
    assert!(validate_restriction_batch_shape(12, 3, 4, 2, 12, 12).is_ok());
    assert!(validate_restriction_batch_shape(12, 3, 4, 5, 12, 12).is_err());
    assert!(validate_restriction_batch_shape(12, 3, 4, 2, 11, 12).is_err());
    assert_eq!(
        validate_restriction_batch_shape(12, 0, 4, 2, 12, 12)
            .unwrap_err()
            .to_string(),
        "adaptive restriction training batch shape mismatch"
    );
}

fn consistent_lengths(rows: usize, input: usize, output: usize) -> MultiscaleBatchLengths {
    MultiscaleBatchLengths {
        local_features: rows * (input + 2),
        closure_features: 0,
        proxy_features: rows * input,
        target_update: rows * output,
        closure_mode_target_update: 0,
        closure_basis_target_update: 0,
        closure_mode_row_weights: 0,
        deployment_features: rows * input,
        deployment_target_update: rows * output,
        deployment_row_weights: rows,
        deployment_residual_gate: rows,
        controller_features: rows * 7,
        controller_targets: rows * 3,
        row_weights: rows,
    }
}

#[test]
fn multiscale_batches_accept_optional_branches_only_whole() {
    let lengths = consistent_lengths(5, 4, 2);
    assert!(validate_multiscale_batch_shape(5, lengths, 4, 2, 7, 3).is_ok());
    let closure = MultiscaleBatchLengths {
        closure_mode_target_update: 10,
        closure_basis_target_update: 10,
        closure_mode_row_weights: 5,
        closure_features: 15,
        proxy_features: 0,
        ..lengths
    };
    assert!(validate_multiscale_batch_shape(5, closure, 4, 2, 7, 3).is_ok());
    let partial = MultiscaleBatchLengths {
        closure_mode_target_update: 10,
        ..lengths
    };
    assert_eq!(
        validate_multiscale_batch_shape(5, partial, 4, 2, 7, 3)
            .unwrap_err()
            .to_string(),
        "adaptive multiscale training batch shape mismatch"
    );
    let narrow = MultiscaleBatchLengths {
        local_features: 15,
        ..lengths
    };
    assert!(validate_multiscale_batch_shape(5, narrow, 4, 2, 7, 3).is_err());
}

#[test]
fn restriction_memory_plan_fits_the_default_ranker() {
    let ranker = MlpShape {
        input_dims: 200,
        hidden_dims: 512,
        output_dims: 4,
    };
    assert!(validate_adaptive_restriction_training_memory_plan(4_096, 32, 11, ranker, 0).is_ok());
    let error =
        validate_adaptive_restriction_training_memory_plan(4_096, 128, 11, ranker, 0).unwrap_err();
    assert!(error.to_string().contains("2.75 GiB"), "{}", error.to_string());
    assert!(
        error.to_string().starts_with("adaptive restriction ranker MLP"),
        "{}",
        error.to_string()
    );
    assert!(validate_adaptive_restriction_training_memory_plan(4_096, 128, 11, ranker, 180_224).is_ok());
}

#[test]
fn restriction_memory_plan_reports_overflowing_counts() {
    let ranker = MlpShape {
        input_dims: 2,
        hidden_dims: 2,
        output_dims: 1,
    };
    assert_eq!(
        validate_adaptive_restriction_training_memory_plan(4, usize::MAX, 2, ranker, 0)
            .unwrap_err()
            .to_string(),
        "adaptive restriction training snapshot count overflow"
    );
    assert_eq!(
        validate_adaptive_restriction_training_memory_plan(usize::MAX, usize::MAX / 2, 1, ranker, 0)
            .unwrap_err()
            .to_string(),
        "adaptive restriction training row count overflow"
    );
}
