use vstd::prelude::*;

verus! {

/// Every element is strictly smaller than the next.
pub open spec fn strictly_increasing(s: Seq<usize>) -> bool {
    forall|a: int, b: int| 0 <= a < b < s.len() ==> s[a] < s[b]
}

/// The rollout step of temporal sample `i` when `samples` samples are spread
/// evenly over `rollout_steps` steps.
pub open spec fn sample_step(i: nat, rollout_steps: nat, samples: nat) -> nat {
    i * rollout_steps / ((samples - 1) as nat)
}

/// `value` is the step of one of the `samples` temporal samples.
pub open spec fn is_sample_step(value: nat, rollout_steps: nat, samples: nat) -> bool {
    exists|i: nat| i < samples && #[trigger] sample_step(i, rollout_steps, samples) == value
}

/// `steps` lists, in increasing order and without repetition, exactly the
/// sample steps of the `samples` evenly spread temporal samples.
pub open spec fn spread_sample_steps(steps: Seq<usize>, rollout_steps: nat, samples: nat) -> bool {
    &&& strictly_increasing(steps)
    &&& forall|k: int| 0 <= k < steps.len() ==> is_sample_step(#[trigger] steps[k] as nat, rollout_steps, samples)
    &&& forall|i: nat|
        i < samples ==> steps.contains(#[trigger] sample_step(i, rollout_steps, samples) as usize)
}

/// Sample steps are nondecreasing in the sample index.
pub proof fn lemma_sample_step_monotone(i: nat, j: nat, rollout_steps: nat, samples: nat)
    requires
        i <= j,
        samples >= 2,
    ensures
        sample_step(i, rollout_steps, samples) <= sample_step(j, rollout_steps, samples),
{
    assert(i * rollout_steps <= j * rollout_steps) by (nonlinear_arith)
        requires
            i <= j,
    ;
    vstd::arithmetic::div_mod::lemma_div_is_ordered(
        (i * rollout_steps) as int,
        (j * rollout_steps) as int,
        (samples - 1) as int,
    );
}

/// The last sample lands on the final rollout step.
pub proof fn lemma_last_sample_step(rollout_steps: nat, samples: nat)
    requires
        samples >= 2,
    ensures
        sample_step((samples - 1) as nat, rollout_steps, samples) == rollout_steps,
{
    let d = (samples - 1) as nat;
    assert(d * rollout_steps / d == rollout_steps) by (nonlinear_arith)
        requires
            d > 0,
    ;
    assert(d * rollout_steps == (samples - 1) as nat * rollout_steps);
}

/// The distinct values of `values`, in increasing order.
pub fn sort_dedup(values: &Vec<usize>) -> (sorted: Vec<usize>)
    ensures
        strictly_increasing(sorted@),
        forall|x: usize| sorted@.contains(x) <==> values@.contains(x),
{
    let mut sorted: Vec<usize> = Vec::new();
    let mut n: usize = 0;
    while n < values.len()
        invariant
            n <= values.len(),
            strictly_increasing(sorted@),
            forall|x: usize| sorted@.contains(x) <==> values@.take(n as int).contains(x),
        decreases values.len() - n,
    {
        let v = values[n];
        let mut p: usize = 0;
        while p < sorted.len() && sorted[p] < v
            invariant
                p <= sorted.len(),
                forall|a: int| 0 <= a < p ==> sorted@[a] < v,
            decreases sorted.len() - p,
        {
            p = p + 1;
        }
        let ghost before = sorted@;
        if p < sorted.len() && sorted[p] == v {
        } else {
            sorted.insert(p, v);
            proof {
                assert forall|a: int, b: int| 0 <= a < b < sorted@.len() implies sorted@[a]
                    < sorted@[b] by {
                    if b < p {
                    } else if b == p {
                    } else if a < p {
                        assert(before[b - 1] >= v || b - 1 == p) by {
                            if p < before.len() {
                                assert(before[p as int] > v);
                            }
                        }
                        if p < before.len() {
                            assert(before[p as int] > v);
                            assert(before[p as int] <= before[b - 1]);
                        }
                    } else if a == p {
                        assert(before[p as int] > v);
                        if b - 1 > p {
                            assert(before[p as int] < before[b - 1]);
                        }
                    } else {
                    }
                }
            }
        }
        proof {
            assert(values@.take(n + 1) == values@.take(n as int).push(v));
            assert forall|x: usize| values@.take(n + 1).contains(x) implies sorted@.contains(x) by {
                {
                    if x == v {
                        if p < before.len() && before[p as int] == v {
                            assert(sorted@[p as int] == v);
                        } else {
                            assert(sorted@[p as int] == v);
                        }
                    } else {
                        let k = choose|k: int| 0 <= k < n + 1 && #[trigger] values@.take(n + 1)[k] == x;
                        assert(values@.take(n as int)[k] == x);
                        assert(before.contains(x));
                        let j = choose|j: int| 0 <= j < before.len() && #[trigger] before[j] == x;
                        if p < before.len() && before[p as int] == v {
                            assert(sorted@[j] == x);
                        } else if j < p {
                            assert(sorted@[j] == x);
                        } else {
                            assert(sorted@[j + 1] == x);
                        }
                    }
                }
            }
            assert forall|x: usize| sorted@.contains(x) implies values@.take(n + 1).contains(x) by {
                {
                    let j = choose|j: int| 0 <= j < sorted@.len() && #[trigger] sorted@[j] == x;
                    if x == v {
                        assert(values@.take(n + 1)[n as int] == v);
                    } else {
                        if p < before.len() && before[p as int] == v {
                            assert(before.contains(x));
                        } else if j < p {
                            assert(before[j] == x);
                        } else {
                            assert(before[j - 1] == x);
                        }
                        assert(before.contains(x));
                        assert(values@.take(n as int).contains(x));
                        let k = choose|k: int| 0 <= k < n && #[trigger] values@.take(n as int)[k] == x;
                        assert(values@.take(n + 1)[k] == x);
                    }
                }
            }
        }
        n = n + 1;
    }
    proof {
        assert(values@.take(values.len() as int) == values@);
    }
    sorted
}

/// Every sample step lies within the rollout.
pub proof fn lemma_sample_step_bounded(i: nat, rollout_steps: nat, samples: nat)
    requires
        i < samples,
        samples >= 2,
    ensures
        sample_step(i, rollout_steps, samples) <= rollout_steps,
{
    lemma_sample_step_monotone(i, (samples - 1) as nat, rollout_steps, samples);
    lemma_last_sample_step(rollout_steps, samples);
}

/// A schedule of spread sample steps starts at the seed state and ends at
/// the final rollout step.
pub proof fn lemma_spread_endpoints(steps: Seq<usize>, rollout_steps: nat, samples: nat)
    requires
        samples >= 2,
        rollout_steps <= usize::MAX,
        spread_sample_steps(steps, rollout_steps, samples),
    ensures
        steps.len() >= 1,
        steps[0] == 0,
        steps.last() == rollout_steps,
{
    assert(sample_step(0, rollout_steps, samples) == 0);
    assert(steps.contains(sample_step(0, rollout_steps, samples) as usize));
    lemma_last_sample_step(rollout_steps, samples);
    let last = (samples - 1) as nat;
    assert(steps.contains(sample_step(last, rollout_steps, samples) as usize));
    let z = choose|z: int| 0 <= z < steps.len() && steps[z] == 0;
    if z > 0 {
        assert(steps[0] < steps[z]);
    }
    let w = choose|w: int| 0 <= w < steps.len() && steps[w] == rollout_steps;
    let l = steps.len() - 1;
    assert(is_sample_step(steps[l] as nat, rollout_steps, samples));
    let i = choose|i: nat| i < samples && #[trigger] sample_step(i, rollout_steps, samples) == steps[l];
    lemma_sample_step_bounded(i, rollout_steps, samples);
    if w < l {
        assert(steps[w] < steps[l]);
    }
}


/// Splits rollouts `0..rollouts` into consecutive batches of at most `lanes`
/// rollouts: batch `k` covers `k * lanes` up to `min((k + 1) * lanes,
/// rollouts)`, and there are just enough batches to cover every rollout.
pub fn rollout_chunks(rollouts: usize, lanes: usize) -> (chunks: Vec<(usize, usize)>)
    requires
        lanes > 0,
    ensures
        chunks@.len() * lanes >= rollouts,
        chunks@.len() == 0 || (chunks@.len() - 1) * lanes < rollouts,
        forall|k: int|
            0 <= k < chunks@.len() ==> (#[trigger] chunks@[k]).0 == k * lanes && chunks@[k].1 == if k
                * lanes + lanes <= rollouts {
                k * lanes + lanes
            } else {
                rollouts as int
            },
{
    let mut chunks: Vec<(usize, usize)> = Vec::new();
    let mut start: usize = 0;
    assert(chunks@.len() * lanes == 0) by (nonlinear_arith)
        requires
            chunks@.len() == 0,
    ;
    while start < rollouts
        invariant
            lanes > 0,
            start <= rollouts,
            start < rollouts ==> start == chunks@.len() * lanes,
            start == rollouts ==> chunks@.len() * lanes >= rollouts,
            chunks@.len() == 0 || (chunks@.len() - 1) * lanes < rollouts,
            forall|k: int|
                0 <= k < chunks@.len() ==> (#[trigger] chunks@[k]).0 == k * lanes && chunks@[k].1
                    == if k * lanes + lanes <= rollouts {
                    k * lanes + lanes
                } else {
                    rollouts as int
                },
        decreases rollouts - start,
    {
        let end = if rollouts - start > lanes {
            start + lanes
        } else {
            rollouts
        };
        proof {
            let n = chunks@.len();
            assert((n + 1) * lanes == n * lanes + lanes) by (nonlinear_arith);
        }
        chunks.push((start, end));
        start = end;
    }
    proof {
        if rollouts == 0 {
            assert(chunks@.len() == 0);
        }
    }
    chunks
}

/// Steps at which a resident replay captures snapshots: every `interval`
/// steps from the seed state up to the end of the rollout.
pub fn interval_snapshot_steps(rollout_steps: usize, interval: usize) -> (steps: Vec<usize>)
    requires
        interval > 0,
    ensures
        steps@.len() == rollout_steps / interval + 1,
        forall|k: int| 0 <= k < steps@.len() ==> #[trigger] steps@[k] == k * interval,
{
    let mut steps: Vec<usize> = Vec::new();
    let mut step: usize = 0;
    assert(steps@.len() * interval == 0) by (nonlinear_arith)
        requires
            steps@.len() == 0,
    ;
    loop
        invariant_except_break
            step == steps@.len() * interval,
            steps@.len() <= rollout_steps / interval,
        invariant
            interval > 0,
            step <= rollout_steps,
            forall|k: int| 0 <= k < steps@.len() ==> #[trigger] steps@[k] == k * interval,
        ensures
            steps@.len() == rollout_steps / interval + 1,
            forall|k: int| 0 <= k < steps@.len() ==> #[trigger] steps@[k] == k * interval,
        decreases rollout_steps - step,
    {
        let ghost n = steps@.len();
        steps.push(step);
        proof {
            assert((n + 1) * interval == n * interval + interval) by (nonlinear_arith);
        }
        if rollout_steps - step < interval {
            proof {
                assert(rollout_steps / interval == n) by (nonlinear_arith)
                    requires
                        step == n * interval,
                        step <= rollout_steps,
                        rollout_steps < step + interval,
                        interval > 0,
                ;
            }
            break;
        }
        proof {
            assert(n + 1 <= rollout_steps / interval) by (nonlinear_arith)
                requires
                    step == n * interval,
                    step + interval <= rollout_steps,
                    interval > 0,
            ;
        }
        step = step + interval;
    }
    steps
}


/// Snapshots one on-policy rollout yields: one every `interval` steps from
/// the seed state through the end of the rollout.
pub open spec fn snapshots_per_rollout(rollout_steps: nat, interval: nat) -> nat {
    rollout_steps / interval + 1
}

/// Rollout and step of the `snapshot_index`-th snapshot when the snapshots
/// of all rollouts are listed rollout by rollout, each rollout's at the
/// steps of `interval_snapshot_steps`.
pub fn snapshot_position(snapshot_index: usize, rollout_steps: usize, interval: usize) -> (position:
    (usize, usize))
    requires
        interval > 0,
        rollout_steps / interval < usize::MAX,
    ensures
        ({
            let per = snapshots_per_rollout(rollout_steps as nat, interval as nat);
            &&& position.0 == (snapshot_index as nat) / per
            &&& position.1 == ((snapshot_index as nat) % per) * interval
            &&& position.1 <= rollout_steps
        }),
{
    let per = rollout_steps / interval + 1;
    let within = snapshot_index % per;
    proof {
        assert(within * interval <= rollout_steps) by (nonlinear_arith)
            requires
                within < per,
                per == rollout_steps / interval + 1,
                interval > 0,
        ;
    }
    (snapshot_index / per, within * interval)
}

/// Listing snapshots rollout by rollout puts snapshot `k` of rollout
/// `rollout` at index `rollout * per + k`, where `per` snapshots are taken
/// per rollout.
pub proof fn lemma_snapshot_position_inverse(rollout: nat, k: nat, rollout_steps: nat, interval: nat)
    requires
        interval > 0,
        k < snapshots_per_rollout(rollout_steps, interval),
    ensures
        ({
            let per = snapshots_per_rollout(rollout_steps, interval);
            &&& (rollout * per + k) / per == rollout
            &&& (rollout * per + k) % per == k
        }),
{
    let per = snapshots_per_rollout(rollout_steps, interval);
    vstd::arithmetic::div_mod::lemma_fundamental_div_mod_converse(
        (rollout * per + k) as int,
        per as int,
        rollout as int,
        k as int,
    );
}


proof fn lemma_increasing_agree_upto(a: Seq<usize>, b: Seq<usize>, i: int)
    requires
        strictly_increasing(a),
        strictly_increasing(b),
        forall|x: usize| a.contains(x) <==> b.contains(x),
        0 <= i < a.len(),
        i < b.len(),
    ensures
        forall|j: int| 0 <= j <= i ==> a[j] == b[j],
    decreases i,
{
    if i > 0 {
        lemma_increasing_agree_upto(a, b, i - 1);
    }
    if a[i] != b[i] {
        if a[i] < b[i] {
            assert(a.contains(a[i]));
            let j = choose|j: int| 0 <= j < b.len() && b[j] == a[i];
            if j < i {
                assert(a[j] == b[j]);
                assert(a[j] < a[i]);
            } else if j > i {
                assert(b[i] < b[j]);
            }
        } else {
            assert(b.contains(b[i]));
            let j = choose|j: int| 0 <= j < a.len() && a[j] == b[i];
            if j < i {
                assert(a[j] == b[j]);
                assert(b[j] < b[i]);
            } else if j > i {
                assert(a[i] < a[j]);
            }
        }
    }
}

/// Two strictly increasing sequences with the same elements are equal.
proof fn lemma_increasing_unique(a: Seq<usize>, b: Seq<usize>)
    requires
        strictly_increasing(a),
        strictly_increasing(b),
        forall|x: usize| a.contains(x) <==> b.contains(x),
    ensures
        a == b,
{
    if a.len() > 0 && b.len() > 0 {
        let n = if a.len() <= b.len() {
            a.len()
        } else {
            b.len()
        };
        lemma_increasing_agree_upto(a, b, n - 1);
    }
    if a.len() < b.len() {
        let y = b[a.len() as int];
        assert(b.contains(y));
        let k = choose|k: int| 0 <= k < a.len() && a[k] == y;
        assert(a[k] == b[k]);
        assert(b[k] < b[a.len() as int]);
    } else if b.len() < a.len() {
        let y = a[b.len() as int];
        assert(a.contains(y));
        let k = choose|k: int| 0 <= k < b.len() && b[k] == y;
        assert(a[k] == b[k]);
        assert(a[k] < a[b.len() as int]);
    }
    assert(a =~= b);
}

/// A schedule of spread sample steps is unique: any two schedules of the
/// same samples over the same rollout are equal. The audit, multiscale and
/// rule-distillation snapshot schedules, which all list spread sample steps
/// for two or more samples, therefore agree.
pub proof fn lemma_spread_schedule_unique(
    a: Seq<usize>,
    b: Seq<usize>,
    rollout_steps: nat,
    samples: nat,
)
    requires
        spread_sample_steps(a, rollout_steps, samples),
        spread_sample_steps(b, rollout_steps, samples),
    ensures
        a == b,
{
    assert forall|x: usize| a.contains(x) implies b.contains(x) by {
        let k = choose|k: int| 0 <= k < a.len() && a[k] == x;
        assert(is_sample_step(a[k] as nat, rollout_steps, samples));
        let i = choose|i: nat| i < samples && #[trigger] sample_step(i, rollout_steps, samples)
            == a[k] as nat;
        assert(b.contains(sample_step(i, rollout_steps, samples) as usize));
    }
    assert forall|x: usize| b.contains(x) implies a.contains(x) by {
        let k = choose|k: int| 0 <= k < b.len() && b[k] == x;
        assert(is_sample_step(b[k] as nat, rollout_steps, samples));
        let i = choose|i: nat| i < samples && #[trigger] sample_step(i, rollout_steps, samples)
            == b[k] as nat;
        assert(a.contains(sample_step(i, rollout_steps, samples) as usize));
    }
    lemma_increasing_unique(a, b);
}

} // verus!
