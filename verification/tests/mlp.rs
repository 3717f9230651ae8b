use burn_automata::mlp::{
    effective_optimizer_batch_rows, gradient_reduction_shape, optimizer_batch_start, tensor_bytes,
    validate_mlp_buffer_plan, MlpShape, DEFAULT_GRADIENT_REDUCTION_CHUNK_ROWS,
    MAX_MLP_SINGLE_BUFFER_BYTES,
};

#[test]
fn direct_gradient_reduction_remains_available_for_parity_ablation() {
    assert_eq!(gradient_reduction_shape(46_080, 0), None);
    assert_eq!(gradient_reduction_shape(1, 1_024), None);
    assert_eq!(gradient_reduction_shape(255, 128), None);
    assert_eq!(
        gradient_reduction_shape(46_080, 1_024),
        Some((45, 1_024, 0))
    );
    assert_eq!(gradient_reduction_shape(2_304, 1_024), Some((9, 256, 0)));
    assert_eq!(gradient_reduction_shape(8_283, 1_024), Some((8, 1_024, 91)));
}

#[test]
fn buffer_preflight_rejects_the_previous_unbounded_restriction_shape() {
    let shape = MlpShape {
        input_dims: 200,
        hidden_dims: 512,
        output_dims: 4,
    };
    let error = validate_mlp_buffer_plan(1_441_792, shape, 0, "restriction").unwrap_err();
    assert!(error.to_string().contains("2.75 GiB"), "{}", error.to_string());
    assert_eq!(
        validate_mlp_buffer_plan(1_441_792, shape, 180_224, "restriction").unwrap(),
        180_224,
    );
}

#[test]
fn oversized_buffer_message_names_the_buffer_and_the_limit() {
    let shape = MlpShape {
        input_dims: 200,
        hidden_dims: 512,
        output_dims: 4,
    };
    let error = validate_mlp_buffer_plan(1_441_792, shape, 0, "restriction").unwrap_err();
    let text = error.to_string();
    assert_eq!(
        text,
        "restriction MLP would materialize a 2.75 GiB buffer, above the 1.86 GiB backend-safe limit; set optimizer_batch_rows to a divisor of 1441792"
    );
}

#[test]
fn batch_rows_that_do_not_divide_the_dataset_are_rejected() {
    let shape = MlpShape {
        input_dims: 3,
        hidden_dims: 8,
        output_dims: 2,
    };
    let error = validate_mlp_buffer_plan(100, shape, 7, "probe").unwrap_err();
    assert_eq!(
        error.to_string(),
        "probe MLP optimizer_batch_rows must be zero or a divisor of 100"
    );
    assert!(validate_mlp_buffer_plan(100, shape, 200, "probe").is_err());
    assert!(validate_mlp_buffer_plan(0, shape, 0, "probe").is_err());
    assert_eq!(validate_mlp_buffer_plan(100, shape, 25, "probe").unwrap(), 25);
    assert_eq!(validate_mlp_buffer_plan(100, shape, 0, "probe").unwrap(), 100);
}

#[test]
fn zero_batch_rows_means_the_whole_dataset() {
    assert_eq!(effective_optimizer_batch_rows(1_000, 0), 1_000);
    assert_eq!(effective_optimizer_batch_rows(1_000, 250), 250);
}

#[test]
fn tensor_bytes_counts_f32_values_and_saturates() {
    assert_eq!(tensor_bytes(3, 5), 60);
    assert_eq!(tensor_bytes(0, 5), 0);
    assert_eq!(tensor_bytes(usize::MAX, 2), usize::MAX);
    assert!(MAX_MLP_SINGLE_BUFFER_BYTES < usize::MAX);
}

#[test]
fn gradient_reduction_chunks_cover_every_row() {
    for rows in [256usize, 300, 1_000, 4_097, 46_080, 100_003, 1_441_792] {
        if let Some((chunks, chunk_rows, tail)) =
            gradient_reduction_shape(rows, DEFAULT_GRADIENT_REDUCTION_CHUNK_ROWS)
        {
            assert_eq!(chunks * chunk_rows + tail, rows);
            assert!(chunks >= 2);
            assert!(tail < chunk_rows);
            assert!((128..=DEFAULT_GRADIENT_REDUCTION_CHUNK_ROWS).contains(&chunk_rows));
        }
    }
    assert_eq!(gradient_reduction_shape(256, 1_024), Some((2, 128, 0)));
    assert_eq!(gradient_reduction_shape(300, 1_024), Some((2, 150, 0)));
    assert_eq!(gradient_reduction_shape(4_097, 1_024), Some((4, 1_024, 1)));
}

#[test]
fn optimizer_batches_cycle_through_every_row_once() {
    assert_eq!(optimizer_batch_start(0, 100, 25), 0);
    assert_eq!(optimizer_batch_start(3, 100, 25), 75);
    assert_eq!(optimizer_batch_start(4, 100, 25), 0);
    assert_eq!(optimizer_batch_start(9, 100, 100), 0);
    let mut covered = vec![0usize; 100];
    for step in 0..4 {
        let start = optimizer_batch_start(step, 100, 25);
        for row in start..start + 25 {
            covered[row] += 1;
        }
    }
    assert!(covered.iter().all(|count| *count == 1));
}
