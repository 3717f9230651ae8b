use vstd::prelude::*;
use vstd::string::StringExecFns;

use crate::error::{AutomataError, AutomataResult, is_invalid_argument};
use crate::text::{decimal, gib_text, push_decimal, push_gib, text};

verus! {

/// Rows per partial weight-gradient reduction used by default. The adaptive
/// MLPs have a small output width and many rows, so the reduction over rows is
/// split into independent chunks that are summed afterwards.
pub const DEFAULT_GRADIENT_REDUCTION_CHUNK_ROWS: usize = 1024;

/// Largest single training buffer, in bytes, that the backends accept.
pub const MAX_MLP_SINGLE_BUFFER_BYTES: usize = 2000000000;

/// Bytes in one `f32` element.
pub const F32_BYTES: usize = 4;

/// Layer widths of a one-hidden-layer MLP.
#[derive(Clone, Copy, Debug)]
pub struct MlpShape {
    pub input_dims: usize,
    pub hidden_dims: usize,
    pub output_dims: usize,
}

/// Rows materialized by one optimizer step: zero requests the whole dataset.
pub open spec fn optimizer_batch_rows_of(rows: nat, requested: nat) -> nat {
    if requested == 0 {
        rows
    } else {
        requested
    }
}

/// Rows materialized by one optimizer step: zero requests the whole dataset.
pub fn effective_optimizer_batch_rows(rows: usize, requested: usize) -> (batch_rows: usize)
    ensures
        batch_rows == optimizer_batch_rows_of(rows as nat, requested as nat),
{
    if requested == 0 {
        rows
    } else {
        requested
    }
}

/// Bytes of an `f32` tensor of `rows` x `dims`, saturating at `usize::MAX`.
pub open spec fn tensor_byte_count(rows: nat, dims: nat) -> nat {
    if rows * dims * 4 <= usize::MAX {
        rows * dims * 4
    } else {
        usize::MAX as nat
    }
}

/// Bytes of an `f32` tensor of `rows` x `dims`; an unrepresentable size
/// saturates at `usize::MAX`.
pub fn tensor_bytes(rows: usize, dims: usize) -> (bytes: usize)
    ensures
        bytes == tensor_byte_count(rows as nat, dims as nat),
{
    match rows.checked_mul(dims) {
        Some(values) => match values.checked_mul(F32_BYTES) {
            Some(bytes) => bytes,
            None => usize::MAX,
        },
        None => {
            assert(rows * dims * 4 >= rows * dims) by (nonlinear_arith);
            usize::MAX
        },
    }
}

/// The row and batch configuration accepted before sizes are considered.
pub open spec fn buffer_plan_shape_ok(rows: nat, shape: MlpShape, requested: nat) -> bool {
    &&& rows != 0
    &&& shape.input_dims != 0
    &&& shape.hidden_dims != 0
    &&& shape.output_dims != 0
    &&& requested <= rows
    &&& (requested == 0 || rows % requested == 0)
}

/// Largest of the four buffers a training run materializes: the full input
/// and target tensors and the per-batch hidden and output activations.
pub open spec fn largest_buffer_bytes(rows: nat, shape: MlpShape, requested: nat) -> nat {
    let batch = optimizer_batch_rows_of(rows, requested);
    let a = tensor_byte_count(rows, shape.input_dims as nat);
    let b = tensor_byte_count(rows, shape.output_dims as nat);
    let c = tensor_byte_count(batch, shape.hidden_dims as nat);
    let d = tensor_byte_count(batch, shape.output_dims as nat);
    let ab = if a >= b {
        a
    } else {
        b
    };
    let cd = if c >= d {
        c
    } else {
        d
    };
    if ab >= cd {
        ab
    } else {
        cd
    }
}

/// Message for a batch size that is neither zero nor a divisor of the rows.
pub open spec fn batch_rows_message(name: Seq<char>, rows: nat) -> Seq<char> {
    name + " MLP optimizer_batch_rows must be zero or a divisor of "@ + decimal(rows)
}

/// Message for a plan whose largest buffer exceeds the backend limit.
pub open spec fn oversized_buffer_message(name: Seq<char>, rows: nat, bytes: nat) -> Seq<char> {
    name + " MLP would materialize a "@ + gib_text(bytes) + " GiB buffer, above the "@ + gib_text(
        MAX_MLP_SINGLE_BUFFER_BYTES as nat,
    ) + " GiB backend-safe limit; set optimizer_batch_rows to a divisor of "@ + decimal(rows)
}

/// Every buffer of a training run fits the backend: the full feature and
/// target tensors of `rows` rows and the hidden and output activations of a
/// `batch`-row optimizer step, at four bytes per value.
pub open spec fn raw_buffers_fit(rows: int, shape: MlpShape, batch: int) -> bool {
    &&& rows * shape.input_dims * 4 <= MAX_MLP_SINGLE_BUFFER_BYTES
    &&& rows * shape.output_dims * 4 <= MAX_MLP_SINGLE_BUFFER_BYTES
    &&& batch * shape.hidden_dims * 4 <= MAX_MLP_SINGLE_BUFFER_BYTES
    &&& batch * shape.output_dims * 4 <= MAX_MLP_SINGLE_BUFFER_BYTES
}

/// An accepted plan of `batch` rows per step: the requested batch (or all
/// rows), a nonzero divisor of the rows, with every buffer within the limit.
pub open spec fn batch_plan_fits(rows: int, shape: MlpShape, requested: int, batch: int) -> bool {
    &&& batch == if requested == 0 {
        rows
    } else {
        requested
    }
    &&& 0 < batch <= rows
    &&& rows % batch == 0
    &&& raw_buffers_fit(rows, shape, batch)
}

/// The largest buffer is at least each of the four buffers of a run, so it
/// is within the backend limit exactly when each of them is.
pub proof fn lemma_largest_buffer_bounds(rows: nat, shape: MlpShape, requested: nat)
    ensures
        ({
            let batch = optimizer_batch_rows_of(rows, requested);
            let largest = largest_buffer_bytes(rows, shape, requested);
            &&& largest >= tensor_byte_count(rows, shape.input_dims as nat)
            &&& largest >= tensor_byte_count(rows, shape.output_dims as nat)
            &&& largest >= tensor_byte_count(batch, shape.hidden_dims as nat)
            &&& largest >= tensor_byte_count(batch, shape.output_dims as nat)
            &&& largest <= MAX_MLP_SINGLE_BUFFER_BYTES <==> raw_buffers_fit(
                rows as int,
                shape,
                batch as int,
            )
        }),
{
}

/// Preflight of the buffers an MLP training run would allocate.
///
/// Returns the rows per optimizer step, or an error when the batch size does
/// not evenly divide the dataset or when a single buffer would exceed
/// `MAX_MLP_SINGLE_BUFFER_BYTES`.
pub fn validate_mlp_buffer_plan(
    rows: usize,
    shape: MlpShape,
    requested_batch_rows: usize,
    name: &str,
) -> (result: AutomataResult<usize>)
    ensures
        !buffer_plan_shape_ok(rows as nat, shape, requested_batch_rows as nat) ==> is_invalid_argument(
            result,
            batch_rows_message(name@, rows as nat),
        ),
        buffer_plan_shape_ok(rows as nat, shape, requested_batch_rows as nat)
            && largest_buffer_bytes(rows as nat, shape, requested_batch_rows as nat)
            > MAX_MLP_SINGLE_BUFFER_BYTES ==> is_invalid_argument(
            result,
            oversized_buffer_message(
                name@,
                rows as nat,
                largest_buffer_bytes(rows as nat, shape, requested_batch_rows as nat),
            ),
        ),
        buffer_plan_shape_ok(rows as nat, shape, requested_batch_rows as nat)
            && largest_buffer_bytes(rows as nat, shape, requested_batch_rows as nat)
            <= MAX_MLP_SINGLE_BUFFER_BYTES ==> result == Ok::<usize, AutomataError>(
            optimizer_batch_rows_of(rows as nat, requested_batch_rows as nat) as usize,
        ),
        result matches Ok(batch) ==> batch_plan_fits(rows as int, shape, requested_batch_rows as int, batch as int),
        rows != 0 && shape.input_dims != 0 && shape.hidden_dims != 0 && shape.output_dims != 0
            && requested_batch_rows <= rows && (requested_batch_rows == 0 || rows
            % requested_batch_rows == 0) && raw_buffers_fit(
            rows as int,
            shape,
            if requested_batch_rows == 0 {
                rows as int
            } else {
                requested_batch_rows as int
            },
        ) ==> result is Ok,
{
    proof {
        lemma_largest_buffer_bounds(rows as nat, shape, requested_batch_rows as nat);
    }
    if rows == 0 || shape.input_dims == 0 || shape.hidden_dims == 0 || shape.output_dims == 0
        || requested_batch_rows > rows || (requested_batch_rows != 0 && !rows.is_multiple_of(
        requested_batch_rows,
    )) {
        let mut message = text(name);
        message.append(" MLP optimizer_batch_rows must be zero or a divisor of ");
        push_decimal(&mut message, rows as u128);
        return Err(AutomataError::InvalidArgument(message));
    }
    let optimizer_batch_rows = effective_optimizer_batch_rows(rows, requested_batch_rows);
    let a = tensor_bytes(rows, shape.input_dims);
    let b = tensor_bytes(rows, shape.output_dims);
    let c = tensor_bytes(optimizer_batch_rows, shape.hidden_dims);
    let d = tensor_bytes(optimizer_batch_rows, shape.output_dims);
    let ab = if a >= b {
        a
    } else {
        b
    };
    let cd = if c >= d {
        c
    } else {
        d
    };
    let largest = if ab >= cd {
        ab
    } else {
        cd
    };
    if largest > MAX_MLP_SINGLE_BUFFER_BYTES {
        let mut message = text(name);
        message.append(" MLP would materialize a ");
        push_gib(&mut message, largest as u64);
        message.append(" GiB buffer, above the ");
        push_gib(&mut message, MAX_MLP_SINGLE_BUFFER_BYTES as u64);
        message.append(" GiB backend-safe limit; set optimizer_batch_rows to a divisor of ");
        push_decimal(&mut message, rows as u128);
        return Err(AutomataError::InvalidArgument(message));
    }
    Ok(optimizer_batch_rows)
}

/// Chunk size after halving `chunk` until it divides `rows` or drops below
/// 128 rows.
pub open spec fn halved_chunk(chunk: nat, rows: nat) -> nat
    decreases chunk,
{
    if chunk >= 128 && rows % chunk != 0 {
        halved_chunk(chunk / 2, rows)
    } else {
        chunk
    }
}

/// The requested chunk size capped at half of the rows.
pub open spec fn capped_chunk(rows: nat, requested: nat) -> nat {
    if requested <= rows / 2 {
        requested
    } else {
        rows / 2
    }
}

/// Partition of `rows` into `(chunks, chunk_rows, tail_rows)` for the chunked
/// gradient reduction, or `None` for the direct reduction.
///
/// A zero request or fewer than 256 rows use the direct reduction. Otherwise
/// the capped request is halved until it divides the rows; if that happens at
/// 128 rows or more there is no tail. Failing that, the capped request is kept
/// and the remainder forms a short tail, provided at least two full chunks of
/// at least 128 rows remain.
pub open spec fn reduction_shape(rows: nat, requested: nat) -> Option<(usize, usize, usize)> {
    if requested == 0 || rows < 256 {
        None
    } else {
        let start = capped_chunk(rows, requested);
        let divisor = halved_chunk(start, rows);
        if divisor >= 128 {
            Some(((rows / divisor) as usize, divisor as usize, 0usize))
        } else if start >= 128 && rows / start >= 2 {
            Some(
                (
                    (rows / start) as usize,
                    start as usize,
                    (rows - (rows / start) * start) as usize,
                ),
            )
        } else {
            None
        }
    }
}

proof fn lemma_halved_chunk(chunk: nat, rows: nat)
    ensures
        halved_chunk(chunk, rows) <= chunk,
        halved_chunk(chunk, rows) >= 128 ==> rows % halved_chunk(chunk, rows) == 0,
    decreases chunk,
{
    if chunk >= 128 && rows % chunk != 0 {
        lemma_halved_chunk(chunk / 2, rows);
    }
}

/// Chooses how the weight-gradient reduction over `rows` is split into
/// chunks of `requested_chunk_rows` (see `reduction_shape`).
///
/// Whenever a split is returned, it covers every row exactly once: full
/// chunks of between 128 and `requested_chunk_rows` rows, at least two of
/// them, followed by a tail shorter than one chunk.
pub fn gradient_reduction_shape(rows: usize, requested_chunk_rows: usize) -> (shape: Option<
    (usize, usize, usize),
>)
    ensures
        shape == reduction_shape(rows as nat, requested_chunk_rows as nat),
        shape matches Some((chunks, chunk_rows, tail)) ==> {
            &&& chunks * chunk_rows + tail == rows
            &&& 128 <= chunk_rows <= requested_chunk_rows
            &&& chunk_rows <= rows / 2
            &&& chunks >= 2
            &&& tail < chunk_rows
        },
{
    if requested_chunk_rows == 0 || rows < 256 {
        return None;
    }
    let start = if requested_chunk_rows <= rows / 2 {
        requested_chunk_rows
    } else {
        rows / 2
    };
    let mut chunk_rows = start;
    while chunk_rows >= 128 && !rows.is_multiple_of(chunk_rows)
        invariant
            halved_chunk(chunk_rows as nat, rows as nat) == halved_chunk(start as nat, rows as nat),
            chunk_rows <= start,
        decreases chunk_rows,
    {
        chunk_rows = chunk_rows / 2;
    }
    proof {
        lemma_halved_chunk(start as nat, rows as nat);
    }
    if chunk_rows >= 128 {
        proof {
            let c = chunk_rows as int;
            let r = rows as int;
            assert(r % c == 0);
            assert((r / c) * c == r) by (nonlinear_arith)
                requires
                    r % c == 0,
                    c > 0,
            ;
            assert(r / c >= 2) by (nonlinear_arith)
                requires
                    c <= r / 2,
                    c > 0,
                    r >= 0,
            ;
        }
        return Some((rows / chunk_rows, chunk_rows, 0));
    }
    let chunks = rows / start;
    proof {
        let c = start as int;
        let r = rows as int;
        assert(c > 0);
        assert(chunks * c <= r && r - chunks * c < c) by (nonlinear_arith)
            requires
                chunks == r / c,
                c > 0,
                r >= 0,
        ;
    }
    if start >= 128 && chunks >= 2 {
        Some((chunks, start, rows - chunks * start))
    } else {
        None
    }
}


/// Element counts of the four parameter buffers of an MLP.
#[derive(Clone, Copy, Debug)]
pub struct MlpWeightLengths {
    pub w1: usize,
    pub b1: usize,
    pub w2: usize,
    pub b2: usize,
}

/// The parameter buffers have exactly the sizes that `shape` implies.
pub open spec fn weight_lengths_ok(weights: MlpWeightLengths, shape: MlpShape) -> bool {
    &&& weights.w1 == shape.hidden_dims * shape.input_dims
    &&& weights.b1 == shape.hidden_dims
    &&& weights.w2 == shape.output_dims * shape.hidden_dims
    &&& weights.b2 == shape.output_dims
}

/// Checks the parameter buffer sizes of an MLP against its shape.
pub fn weight_lengths_match(weights: MlpWeightLengths, shape: MlpShape) -> (ok: bool)
    requires
        shape.hidden_dims * shape.input_dims <= usize::MAX,
        shape.output_dims * shape.hidden_dims <= usize::MAX,
    ensures
        ok == weight_lengths_ok(weights, shape),
{
    weights.w1 == shape.hidden_dims * shape.input_dims && weights.b1 == shape.hidden_dims
        && weights.w2 == shape.output_dims * shape.hidden_dims && weights.b2 == shape.output_dims
}

/// Element counts of the buffers handed to an MLP training run; the optional
/// buffers are `None` when the run does not use them.
#[derive(Clone, Copy, Debug)]
pub struct MlpTrainingLengths {
    pub features: usize,
    pub targets: usize,
    pub weights: MlpWeightLengths,
    pub row_weights: Option<usize>,
    pub output_scale: Option<usize>,
    pub row_output_scale: Option<usize>,
}

/// An optional buffer is absent or has exactly `expected` elements.
pub open spec fn optional_len_ok(len: Option<usize>, expected: nat) -> bool {
    match len {
        Some(n) => n == expected,
        None => true,
    }
}

/// The training run has rows, nonzero layer widths, a positive schedule, an
/// optimizer batch that evenly divides the rows, and buffers of exactly the
/// shapes the MLP implies.
pub open spec fn mlp_training_shape_ok(
    rows: nat,
    shape: MlpShape,
    steps: nat,
    report_interval: nat,
    requested_batch_rows: nat,
    lengths: MlpTrainingLengths,
) -> bool {
    let input = shape.input_dims as nat;
    let hidden = shape.hidden_dims as nat;
    let output = shape.output_dims as nat;
    &&& buffer_plan_shape_ok(rows, shape, requested_batch_rows)
    &&& steps != 0
    &&& report_interval != 0
    &&& lengths.features == rows * input
    &&& lengths.targets == rows * output
    &&& weight_lengths_ok(lengths.weights, shape)
    &&& optional_len_ok(lengths.row_weights, rows)
    &&& optional_len_ok(lengths.output_scale, output)
    &&& optional_len_ok(lengths.row_output_scale, rows)
}

/// Message for a training run whose buffers or schedule do not fit its MLP.
pub open spec fn training_shape_message(name: Seq<char>) -> Seq<char> {
    name + " MLP training shape/config mismatch"@
}

fn optional_len_matches(len: Option<usize>, expected: usize) -> (ok: bool)
    ensures
        ok == optional_len_ok(len, expected as nat),
{
    match len {
        Some(n) => n == expected,
        None => true,
    }
}

/// The buffers of a training run, one by one: feature and target rows for
/// every sample, parameters of the MLP's sizes, per-row weights and per-row
/// output scales with one value per row, a per-channel output scale with one
/// value per output, a positive schedule, and a batch size that is zero or a
/// divisor of the rows.
pub open spec fn training_lengths_consistent(
    rows: int,
    shape: MlpShape,
    steps: int,
    report_interval: int,
    requested: int,
    lengths: MlpTrainingLengths,
) -> bool {
    &&& rows != 0
    &&& shape.input_dims != 0
    &&& shape.hidden_dims != 0
    &&& shape.output_dims != 0
    &&& steps != 0
    &&& report_interval != 0
    &&& requested <= rows
    &&& (requested == 0 || rows % requested == 0)
    &&& lengths.features == rows * shape.input_dims
    &&& lengths.targets == rows * shape.output_dims
    &&& lengths.weights.w1 == shape.hidden_dims * shape.input_dims
    &&& lengths.weights.b1 == shape.hidden_dims
    &&& lengths.weights.w2 == shape.output_dims * shape.hidden_dims
    &&& lengths.weights.b2 == shape.output_dims
    &&& (lengths.row_weights matches Some(n) ==> n == rows)
    &&& (lengths.output_scale matches Some(n) ==> n == shape.output_dims)
    &&& (lengths.row_output_scale matches Some(n) ==> n == rows)
}

/// A training run's shape is accepted exactly when each of its buffers has
/// the size its role implies (see `training_lengths_consistent`).
pub proof fn lemma_training_shape_per_buffer(
    rows: nat,
    shape: MlpShape,
    steps: nat,
    report_interval: nat,
    requested: nat,
    lengths: MlpTrainingLengths,
)
    ensures
        mlp_training_shape_ok(rows, shape, steps, report_interval, requested, lengths)
            <==> training_lengths_consistent(
            rows as int,
            shape,
            steps as int,
            report_interval as int,
            requested as int,
            lengths,
        ),
{
}

/// Shape preflight of an MLP training run (the element values are checked
/// separately): the buffers and schedule must fit the MLP, and then the
/// buffer plan must fit the backend (see `validate_mlp_buffer_plan`).
pub fn validate_mlp_training_shape(
    rows: usize,
    shape: MlpShape,
    steps: usize,
    report_interval: usize,
    requested_batch_rows: usize,
    lengths: MlpTrainingLengths,
    name: &str,
) -> (result: AutomataResult<()>)
    requires
        rows * shape.input_dims <= usize::MAX,
        rows * shape.output_dims <= usize::MAX,
        shape.hidden_dims * shape.input_dims <= usize::MAX,
        shape.output_dims * shape.hidden_dims <= usize::MAX,
    ensures
        ({
            let ok = mlp_training_shape_ok(
                rows as nat,
                shape,
                steps as nat,
                report_interval as nat,
                requested_batch_rows as nat,
                lengths,
            );
            let largest = largest_buffer_bytes(rows as nat, shape, requested_batch_rows as nat);
            &&& !ok ==> is_invalid_argument(result, training_shape_message(name@))
            &&& ok && largest > MAX_MLP_SINGLE_BUFFER_BYTES ==> is_invalid_argument(
                result,
                oversized_buffer_message(name@, rows as nat, largest),
            )
            &&& ok && largest <= MAX_MLP_SINGLE_BUFFER_BYTES ==> result is Ok
        }),
        result is Ok ==> training_lengths_consistent(
            rows as int,
            shape,
            steps as int,
            report_interval as int,
            requested_batch_rows as int,
            lengths,
        ) && raw_buffers_fit(
            rows as int,
            shape,
            if requested_batch_rows == 0 {
                rows as int
            } else {
                requested_batch_rows as int
            },
        ),
        training_lengths_consistent(
            rows as int,
            shape,
            steps as int,
            report_interval as int,
            requested_batch_rows as int,
            lengths,
        ) && raw_buffers_fit(
            rows as int,
            shape,
            if requested_batch_rows == 0 {
                rows as int
            } else {
                requested_batch_rows as int
            },
        ) ==> result is Ok,
{
    proof {
        lemma_training_shape_per_buffer(
            rows as nat,
            shape,
            steps as nat,
            report_interval as nat,
            requested_batch_rows as nat,
            lengths,
        );
        lemma_largest_buffer_bounds(rows as nat, shape, requested_batch_rows as nat);
    }
    if rows == 0 || shape.input_dims == 0 || shape.hidden_dims == 0 || shape.output_dims == 0
        || steps == 0 || report_interval == 0 || requested_batch_rows > rows || (
    requested_batch_rows != 0 && !rows.is_multiple_of(requested_batch_rows))
        || lengths.features != rows * shape.input_dims || lengths.targets != rows
        * shape.output_dims || !weight_lengths_match(lengths.weights, shape)
        || !optional_len_matches(lengths.row_weights, rows)
        || !optional_len_matches(lengths.output_scale, shape.output_dims)
        || !optional_len_matches(lengths.row_output_scale, rows) {
        let mut message = text(name);
        message.append(" MLP training shape/config mismatch");
        return Err(AutomataError::InvalidArgument(message));
    }
    match validate_mlp_buffer_plan(rows, shape, requested_batch_rows, name) {
        Ok(_) => Ok(()),
        Err(error) => Err(error),
    }
}


/// First row of the optimizer batch used at step `step`: the batches of
/// `batch_rows` rows are cycled through in order.
pub fn optimizer_batch_start(step: usize, rows: usize, batch_rows: usize) -> (start: usize)
    requires
        0 < batch_rows <= rows,
        rows % batch_rows == 0,
    ensures
        start == (step % (rows / batch_rows)) * batch_rows,
        start + batch_rows <= rows,
{
    let batches = rows / batch_rows;
    assert(batches >= 1) by (nonlinear_arith)
        requires
            batches == rows / batch_rows,
            0 < batch_rows <= rows,
    ;
    let batch = step % batches;
    proof {
        assert(batch * batch_rows + batch_rows <= rows) by (nonlinear_arith)
            requires
                batch < batches,
                batches == rows / batch_rows,
                rows % batch_rows == 0,
                batch_rows > 0,
        ;
    }
    batch * batch_rows
}

/// When the batch size divides the rows, cycling through the optimizer
/// batches neither splits nor drops a training row: every row lies in
/// exactly one batch, the one numbered `row / batch_rows`.
pub proof fn lemma_optimizer_batches_partition_rows(rows: nat, batch_rows: nat, row: nat)
    requires
        batch_rows > 0,
        rows % batch_rows == 0,
        row < rows,
    ensures
        row / batch_rows < rows / batch_rows,
        (row / batch_rows) * batch_rows <= row < (row / batch_rows) * batch_rows + batch_rows,
        forall|batch: nat|
            batch < rows / batch_rows && #[trigger] (batch * batch_rows) <= row < batch * batch_rows
                + batch_rows ==> batch == row / batch_rows,
{
    let k = row / batch_rows;
    assert(k * batch_rows <= row < k * batch_rows + batch_rows) by (nonlinear_arith)
        requires
            k == row / batch_rows,
            batch_rows > 0,
    ;
    assert(k < rows / batch_rows) by (nonlinear_arith)
        requires
            k == row / batch_rows,
            row < rows,
            rows % batch_rows == 0,
            batch_rows > 0,
    ;
    assert forall|batch: nat|
        batch < rows / batch_rows && #[trigger] (batch * batch_rows) <= row < batch * batch_rows
            + batch_rows implies batch == k by {
        assert(batch == k) by (nonlinear_arith)
            requires
                batch * batch_rows <= row < batch * batch_rows + batch_rows,
                k * batch_rows <= row < k * batch_rows + batch_rows,
                batch_rows > 0,
        ;
    }
}

} // verus!
