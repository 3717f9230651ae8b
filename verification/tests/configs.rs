use burn_automata::closure_audit::validate_audit_schedule;
use burn_automata::deployment_on_policy::validate_deployment_replay;
use burn_automata::dual_mlp::{validate_dual_mlp_training_shape, DualMlpTrainingLengths};
use burn_automata::mlp::{
    validate_mlp_training_shape, MlpShape, MlpTrainingLengths, MlpWeightLengths,
};
use burn_automata::multiscale_dataset::{
    power_of_two, validate_multiscale_schedule, validate_prepared_cut_shape, MultiscaleRunCounts,
    PreparedCutLengths,
};
use burn_automata::multiscale_on_policy::validate_on_policy_schedule;
use burn_automata::rule_dataset::{validate_distillation_counts, RuleDistillationCounts};
use burn_automata::training::AdaptiveReplayTeacher;

fn run_counts() -> MultiscaleRunCounts {
    MultiscaleRunCounts {
        rollouts: 2,
        temporal_samples: 5,
        rows_per_cut: 64,
        validation_rollouts: 1,
        steps: 100,
        report_interval: 10,
        controller_steps: 50,
    }
}

#[test]
fn power_of_two_detection() {
    assert!(power_of_two(1));
    assert!(power_of_two(128));
    assert!(power_of_two(1 << 40));
    assert!(!power_of_two(0));
    assert!(!power_of_two(96));
    assert!(!power_of_two(usize::MAX));
}

#[test]
fn multiscale_schedule_checks_cuts_counts_and_chunks() {
    let cuts = vec![16, 32];
    assert!(validate_multiscale_schedule(&cuts, 32, false, run_counts(), 1_024).is_ok());
    assert!(validate_multiscale_schedule(&cuts, 32, true, run_counts(), 0).is_ok());
    assert!(validate_multiscale_schedule(&vec![32], 32, true, run_counts(), 0).is_err());
    assert!(validate_multiscale_schedule(&vec![0, 16], 32, false, run_counts(), 0).is_err());
    assert!(validate_multiscale_schedule(&vec![64], 32, false, run_counts(), 0).is_err());
    assert!(validate_multiscale_schedule(&vec![], 32, false, run_counts(), 0).is_err());
    assert!(validate_multiscale_schedule(&cuts, 32, false, run_counts(), 64).is_err());
    assert!(validate_multiscale_schedule(&cuts, 32, false, run_counts(), 384).is_err());
    let no_steps = MultiscaleRunCounts {
        steps: 0,
        ..run_counts()
    };
    assert_eq!(
        validate_multiscale_schedule(&cuts, 32, false, no_steps, 0)
            .unwrap_err()
            .to_string(),
        "invalid adaptive multiscale training config"
    );
}

#[test]
fn on_policy_schedule_requires_coupled_teacher_for_recurrent_closure() {
    let cuts = vec![0, 16];
    assert!(validate_on_policy_schedule(2, &cuts, 64, 4, 256, false, AdaptiveReplayTeacher::SameState).is_ok());
    assert!(validate_on_policy_schedule(2, &cuts, 64, 4, 256, true, AdaptiveReplayTeacher::CoupledFine).is_ok());
    assert_eq!(
        validate_on_policy_schedule(2, &cuts, 64, 4, 256, true, AdaptiveReplayTeacher::SameState)
            .unwrap_err()
            .to_string(),
        "invalid adaptive multiscale on-policy configuration"
    );
    assert!(validate_on_policy_schedule(2, &vec![], 64, 4, 256, false, AdaptiveReplayTeacher::SameState).is_err());
    assert!(validate_on_policy_schedule(0, &cuts, 64, 4, 256, false, AdaptiveReplayTeacher::SameState).is_err());
    if usize::BITS > 32 {
        let far = vec![(u32::MAX as usize) + 1];
        assert!(validate_on_policy_schedule(2, &far, 64, 4, 256, false, AdaptiveReplayTeacher::SameState).is_err());
    }
}

#[test]
fn audit_schedule_is_skipped_when_disabled() {
    assert!(validate_audit_schedule(false, 0, 0, 0, 0, 2, 0).is_ok());
    assert!(validate_audit_schedule(true, 256, 192, 5, 2, 2, 4_096).is_ok());
    assert!(validate_audit_schedule(true, 3, 2, 5, 2, 2, 4_096).is_err());
    assert!(validate_audit_schedule(true, 4, 2, 5, 2, 2, 4_096).is_ok());
    assert!(validate_audit_schedule(true, 256, 256, 5, 2, 2, 4_096).is_err());
    assert_eq!(
        validate_audit_schedule(true, 8_192, 192, 5, 2, 2, 4_096)
            .unwrap_err()
            .to_string(),
        "adaptive closure-identifiability configuration is invalid; this backend supports at most 4096 fine particles"
    );
}

#[test]
fn distillation_and_replay_counts_must_be_positive() {
    let counts = RuleDistillationCounts {
        particle_count: 32,
        rollouts: 2,
        temporal_samples: 3,
        rows_per_snapshot: 16,
        validation_rollouts: 1,
        steps: 10,
        report_interval: 5,
    };
    assert!(validate_distillation_counts(counts).is_ok());
    assert_eq!(
        validate_distillation_counts(RuleDistillationCounts { rollouts: 0, ..counts })
            .unwrap_err()
            .to_string(),
        "invalid adaptive rule distillation config"
    );
    assert!(validate_deployment_replay(true, 2, 64, 4, 256).is_ok());
    assert_eq!(
        validate_deployment_replay(false, 2, 64, 4, 256)
            .unwrap_err()
            .to_string(),
        "invalid resident adaptive deployment replay configuration"
    );
    assert!(validate_deployment_replay(true, 2, 64, 0, 256).is_err());
}

fn weights(shape: MlpShape) -> MlpWeightLengths {
    MlpWeightLengths {
        w1: shape.hidden_dims * shape.input_dims,
        b1: shape.hidden_dims,
        w2: shape.output_dims * shape.hidden_dims,
        b2: shape.output_dims,
    }
}

#[test]
fn mlp_training_shape_checks_buffers_then_the_plan() {
    let shape = MlpShape {
        input_dims: 3,
        hidden_dims: 8,
        output_dims: 2,
    };
    let lengths = MlpTrainingLengths {
        features: 30,
        targets: 20,
        weights: weights(shape),
        row_weights: Some(10),
        output_scale: None,
        row_output_scale: None,
    };
    assert!(validate_mlp_training_shape(10, shape, 5, 1, 0, lengths, "probe").is_ok());
    assert!(validate_mlp_training_shape(10, shape, 5, 1, 5, lengths, "probe").is_ok());
    assert_eq!(
        validate_mlp_training_shape(10, shape, 5, 1, 3, lengths, "probe")
            .unwrap_err()
            .to_string(),
        "probe MLP training shape/config mismatch"
    );
    let wrong_scale = MlpTrainingLengths {
        output_scale: Some(3),
        ..lengths
    };
    assert!(validate_mlp_training_shape(10, shape, 5, 1, 0, wrong_scale, "probe").is_err());
    assert!(validate_mlp_training_shape(10, shape, 0, 1, 0, lengths, "probe").is_err());
    let big = MlpShape {
        input_dims: 200,
        hidden_dims: 512,
        output_dims: 4,
    };
    let rows = 1_441_792;
    let big_lengths = MlpTrainingLengths {
        features: rows * 200,
        targets: rows * 4,
        weights: weights(big),
        row_weights: None,
        output_scale: None,
        row_output_scale: None,
    };
    let error = validate_mlp_training_shape(rows, big, 5, 1, 0, big_lengths, "restriction").unwrap_err();
    assert!(error.to_string().contains("2.75 GiB"), "{}", error.to_string());
}

#[test]
fn dual_mlp_shape_requires_matching_branches() {
    let shape = MlpShape {
        input_dims: 4,
        hidden_dims: 6,
        output_dims: 2,
    };
    let lengths = DualMlpTrainingLengths {
        local_features: 20,
        proxy_features: 20,
        targets: 10,
        row_weights: 5,
        local: weights(shape),
        proxy: weights(shape),
    };
    assert!(validate_dual_mlp_training_shape(5, shape, 3, 1, lengths).is_ok());
    let bad_proxy = DualMlpTrainingLengths {
        proxy: MlpWeightLengths { b2: 3, ..weights(shape) },
        ..lengths
    };
    assert_eq!(
        validate_dual_mlp_training_shape(5, shape, 3, 1, bad_proxy)
            .unwrap_err()
            .to_string(),
        "adaptive dual MLP training shape/config mismatch"
    );
}

#[test]
fn prepared_cuts_need_one_row_per_particle() {
    let lengths = PreparedCutLengths {
        normalized_features: 12,
        compatible_features: 12,
        base_update: 8,
        restricted_target: 8,
        closure_mode_target_update: 0,
        closure_mode_active: 0,
    };
    assert!(validate_prepared_cut_shape(4, lengths, &vec![0, 3], 3, 2).is_ok());
    assert_eq!(
        validate_prepared_cut_shape(4, lengths, &vec![0, 4], 3, 2)
            .unwrap_err()
            .to_string(),
        "prepared multiscale cut has an incompatible perception shape"
    );
    let closure = PreparedCutLengths {
        closure_mode_target_update: 8,
        closure_mode_active: 4,
        ..lengths
    };
    assert!(validate_prepared_cut_shape(4, closure, &vec![1], 3, 2).is_ok());
    let partial = PreparedCutLengths {
        closure_mode_target_update: 8,
        ..lengths
    };
    assert!(validate_prepared_cut_shape(4, partial, &vec![1], 3, 2).is_err());
}
