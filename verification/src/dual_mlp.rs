use vstd::prelude::*;

use crate::error::{AutomataResult, invalid_argument, is_invalid_argument};
use crate::mlp::{MlpShape, MlpWeightLengths, weight_lengths_match, weight_lengths_ok};

verus! {

/// Element counts of the buffers handed to a dual (local and proxy branch)
/// MLP training run.
#[derive(Clone, Copy, Debug)]
pub struct DualMlpTrainingLengths {
    pub local_features: usize,
    pub proxy_features: usize,
    pub targets: usize,
    pub row_weights: usize,
    pub local: MlpWeightLengths,
    pub proxy: MlpWeightLengths,
}

/// Both branches share the MLP shape: each branch has one feature row and
/// the run one target row and one weight per sample, and both parameter sets
/// fit the shape; the run has rows, nonzero widths and a positive schedule.
pub open spec fn dual_mlp_training_shape_ok(
    rows: nat,
    shape: MlpShape,
    steps: nat,
    report_interval: nat,
    lengths: DualMlpTrainingLengths,
) -> bool {
    &&& rows != 0
    &&& shape.input_dims != 0
    &&& shape.hidden_dims != 0
    &&& shape.output_dims != 0
    &&& steps != 0
    &&& report_interval != 0
    &&& lengths.local_features == rows * shape.input_dims
    &&& lengths.proxy_features == rows * shape.input_dims
    &&& lengths.targets == rows * shape.output_dims
    &&& lengths.row_weights == rows
    &&& weight_lengths_ok(lengths.local, shape)
    &&& weight_lengths_ok(lengths.proxy, shape)
}

/// Shape check of a dual MLP training run (the branch scales and element
/// values are checked separately, with the same error for a bad scale).
pub fn validate_dual_mlp_training_shape(
    rows: usize,
    shape: MlpShape,
    steps: usize,
    report_interval: usize,
    lengths: DualMlpTrainingLengths,
) -> (result: AutomataResult<()>)
    requires
        rows * shape.input_dims <= usize::MAX,
        rows * shape.output_dims <= usize::MAX,
        shape.hidden_dims * shape.input_dims <= usize::MAX,
        shape.output_dims * shape.hidden_dims <= usize::MAX,
    ensures
        dual_mlp_training_shape_ok(rows as nat, shape, steps as nat, report_interval as nat, lengths)
            <==> result is Ok,
        result is Ok <==> {
            &&& rows != 0 && shape.input_dims != 0 && shape.hidden_dims != 0 && shape.output_dims
                != 0
            &&& steps != 0 && report_interval != 0
            &&& lengths.local_features == rows * shape.input_dims
            &&& lengths.proxy_features == rows * shape.input_dims
            &&& lengths.targets == rows * shape.output_dims
            &&& lengths.row_weights == rows
            &&& lengths.local.w1 == shape.hidden_dims * shape.input_dims && lengths.local.b1
                == shape.hidden_dims && lengths.local.w2 == shape.output_dims * shape.hidden_dims
                && lengths.local.b2 == shape.output_dims
            &&& lengths.proxy.w1 == shape.hidden_dims * shape.input_dims && lengths.proxy.b1
                == shape.hidden_dims && lengths.proxy.w2 == shape.output_dims * shape.hidden_dims
                && lengths.proxy.b2 == shape.output_dims
        },
        result is Err ==> is_invalid_argument(
            result,
            "adaptive dual MLP training shape/config mismatch"@,
        ),
{
    if rows == 0 || shape.input_dims == 0 || shape.hidden_dims == 0 || shape.output_dims == 0
        || steps == 0 || report_interval == 0 || lengths.local_features != rows * shape.input_dims
        || lengths.proxy_features != rows * shape.input_dims || lengths.targets != rows
        * shape.output_dims || lengths.row_weights != rows || !weight_lengths_match(
        lengths.local,
        shape,
    ) || !weight_lengths_match(lengths.proxy, shape) {
        return Err(invalid_argument("adaptive dual MLP training shape/config mismatch"));
    }
    Ok(())
}

} // verus!
