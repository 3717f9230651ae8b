use vstd::prelude::*;
use vstd::string::StringExecFns;

use crate::error::{AutomataError, AutomataResult, invalid_argument, is_invalid_argument};
use crate::text::{decimal, push_decimal, text};

verus! {

/// Message for a trajectory too large for one WGPU dispatch.
pub open spec fn dispatch_limit_message(particles_per_seed: nat, max_workgroups: nat) -> Seq<char> {
    "restriction trajectory has "@ + decimal(particles_per_seed)
        + " particles, exceeding the WGPU dispatch limit "@ + decimal(max_workgroups)
}

/// Number of restriction seeds simulated together in one resident dispatch.
///
/// A seed's particles must fit one dispatch dimension (and there must be at
/// least one particle); then as many seeds as the executor has independent
/// trajectory lanes, but at least one, are batched together.
pub fn restriction_seeds_per_dispatch_for_limits(
    particles_per_seed: usize,
    max_workgroups: usize,
    max_lanes: usize,
) -> (result: AutomataResult<usize>)
    ensures
        particles_per_seed == 0 || particles_per_seed > max_workgroups ==> is_invalid_argument(
            result,
            dispatch_limit_message(particles_per_seed as nat, max_workgroups as nat),
        ),
        !(particles_per_seed == 0 || particles_per_seed > max_workgroups) ==> result
            == Ok::<usize, AutomataError>(
            if max_lanes >= 1 {
                max_lanes
            } else {
                1
            },
        ),
{
    if particles_per_seed == 0 || particles_per_seed > max_workgroups {
        let mut message = text("restriction trajectory has ");
        push_decimal(&mut message, particles_per_seed as u128);
        message.append(" particles, exceeding the WGPU dispatch limit ");
        push_decimal(&mut message, max_workgroups as u128);
        return Err(AutomataError::InvalidArgument(message));
    }
    Ok(
        if max_lanes >= 1 {
            max_lanes
        } else {
            1
        },
    )
}


/// A first-level cut of `target` leaves is reachable from `fine` bootstrap
/// leaves by four-to-one merges: at least a quarter of the leaves remain,
/// at least one merge happens, and every merge removes three leaves.
pub open spec fn restriction_cut_reachable(fine: nat, target: nat) -> bool {
    &&& fine != 0
    &&& (fine + 3) / 4 <= target
    &&& target < fine
    &&& (fine - target) % 3 == 0
}

/// A reachable cut is exactly the result of merging between one and
/// `fine / 4` disjoint groups of four leaves.
pub proof fn lemma_reachable_cut_merges(fine: nat, target: nat)
    ensures
        restriction_cut_reachable(fine, target) <==> exists|merges: nat|
            1 <= merges <= fine / 4 && #[trigger] (3 * merges) == fine - target,
{
    if restriction_cut_reachable(fine, target) {
        let merges = ((fine - target) / 3) as nat;
        assert(3 * merges == fine - target);
        assert(merges <= fine / 4);
    }
    if exists|merges: nat| 1 <= merges <= fine / 4 && #[trigger] (3 * merges) == fine - target {
        let merges = choose|merges: nat| 1 <= merges <= fine / 4 && #[trigger] (3 * merges) == fine
            - target;
        assert((fine - target) % 3 == 0);
        assert((fine + 3) / 4 <= target);
    }
}

/// The integral part of a restriction dataset configuration: a 2D model
/// whose target cut is reachable, at least one seed, and at least one cut
/// step, none of them at step zero.
pub open spec fn restriction_schedule_ok(
    spatial_dims: nat,
    fine: nat,
    target: nat,
    seed_count: nat,
    cut_steps: Seq<usize>,
) -> bool {
    &&& spatial_dims == 2
    &&& restriction_cut_reachable(fine, target)
    &&& seed_count != 0
    &&& cut_steps.len() != 0
    &&& !cut_steps.contains(0)
}

/// Message for a restriction dataset configuration that cannot be used.
pub open spec fn restriction_config_message() -> Seq<char> {
    "adaptive restriction dataset requires a reachable 2D first-level cut, non-empty positive cut steps/seeds, valid rollout scalars, a supported isotropic/diagnostic decoder, and compactness in [0,1]"@
}

/// Checks the integral part of a restriction dataset configuration (the
/// rollout scalars and the decoder are checked separately, with the same
/// error).
pub fn validate_restriction_schedule(
    spatial_dims: usize,
    bootstrap_fine_leaf_count: usize,
    target_leaves: usize,
    seed_count: usize,
    cut_steps: &Vec<usize>,
) -> (result: AutomataResult<()>)
    ensures
        restriction_schedule_ok(
            spatial_dims as nat,
            bootstrap_fine_leaf_count as nat,
            target_leaves as nat,
            seed_count as nat,
            cut_steps@,
        ) <==> result is Ok,
        result is Ok <==> {
            &&& spatial_dims == 2
            &&& bootstrap_fine_leaf_count != 0
            &&& 4 * target_leaves >= bootstrap_fine_leaf_count
            &&& target_leaves < bootstrap_fine_leaf_count
            &&& (bootstrap_fine_leaf_count - target_leaves) % 3 == 0
            &&& seed_count != 0
            &&& cut_steps@.len() != 0
            &&& forall|k: int| 0 <= k < cut_steps@.len() ==> #[trigger] cut_steps@[k] != 0
        },
        result is Err ==> is_invalid_argument(result, restriction_config_message()),
{
    let fine = bootstrap_fine_leaf_count;
    let mut has_zero = false;
    let mut i: usize = 0;
    while i < cut_steps.len()
        invariant
            i <= cut_steps@.len(),
            has_zero <==> exists|j: int| 0 <= j < i && cut_steps@[j] == 0,
        decreases cut_steps@.len() - i,
    {
        if cut_steps[i] == 0 {
            has_zero = true;
        }
        i = i + 1;
    }
    proof {
        if has_zero {
            let j = choose|j: int| 0 <= j < cut_steps@.len() && cut_steps@[j] == 0;
            assert(cut_steps@.contains(cut_steps@[j]));
        }
    }
    let quarter = if fine % 4 == 0 {
        fine / 4
    } else {
        fine / 4 + 1
    };
    if spatial_dims != 2 || fine == 0 || target_leaves < quarter || target_leaves >= fine || (fine - target_leaves) % 3 != 0 || seed_count == 0
        || cut_steps.len() == 0 || has_zero {
        return Err(
            invalid_argument(
                "adaptive restriction dataset requires a reachable 2D first-level cut, non-empty positive cut steps/seeds, valid rollout scalars, a supported isotropic/diagnostic decoder, and compactness in [0,1]",
            ),
        );
    }
    Ok(())
}


/// Sort key under which unsigned comparison of the keys orders `f32` bit
/// patterns as `f32::total_cmp` orders the floats: negative patterns are
/// inverted, the others get their sign bit set.
pub open spec fn total_order_key_spec(bits: u32) -> u32 {
    if bits >= 0x8000_0000 {
        !bits
    } else {
        bits | 0x8000_0000
    }
}

/// Sort key of an `f32` bit pattern (see `total_order_key_spec`).
pub fn total_order_key(bits: u32) -> (key: u32)
    ensures
        key == total_order_key_spec(bits),
{
    if bits >= 0x8000_0000 {
        !bits
    } else {
        bits | 0x8000_0000
    }
}

/// Number of `true` entries.
pub open spec fn count_true(s: Seq<bool>) -> nat
    decreases s.len(),
{
    if s.len() == 0 {
        0
    } else {
        count_true(s.drop_last()) + if s.last() {
            1nat
        } else {
            0nat
        }
    }
}

/// Candidate `h` ranks before candidate `g`: a larger score key, ties going
/// to the lower index.
pub open spec fn outranks(keys: Seq<u32>, h: int, g: int) -> bool {
    keys[h] > keys[g] || (keys[h] == keys[g] && h < g)
}

/// Position of candidate `g` when the candidates are ranked by decreasing
/// score key, ties going to the lower index: the number of candidates that
/// rank before it.
pub open spec fn merge_rank(keys: Seq<u32>, g: int) -> nat {
    count_true(Seq::new(keys.len(), |h: int| outranks(keys, h, g)))
}

proof fn lemma_count_true_push(s: Seq<bool>, b: bool)
    ensures
        count_true(s.push(b)) == count_true(s) + if b {
            1nat
        } else {
            0nat
        },
{
    assert(s.push(b).drop_last() =~= s);
}

proof fn lemma_count_true_update(s: Seq<bool>, i: int, b: bool)
    requires
        0 <= i < s.len(),
    ensures
        count_true(s.update(i, b)) + (if s[i] {
            1nat
        } else {
            0nat
        }) == count_true(s) + if b {
            1nat
        } else {
            0nat
        },
    decreases s.len(),
{
    if i == s.len() - 1 {
        assert(s.update(i, b).drop_last() =~= s.drop_last());
    } else {
        assert(s.update(i, b).drop_last() =~= s.drop_last().update(i, b));
        lemma_count_true_update(s.drop_last(), i, b);
    }
}

proof fn lemma_count_true_mono(a: Seq<bool>, b: Seq<bool>)
    requires
        a.len() == b.len(),
        forall|i: int| 0 <= i < a.len() && #[trigger] a[i] ==> b[i],
    ensures
        count_true(a) <= count_true(b),
    decreases a.len(),
{
    if a.len() > 0 {
        lemma_count_true_mono(a.drop_last(), b.drop_last());
    }
}

proof fn lemma_count_true_bounds(s: Seq<bool>, i: int)
    requires
        0 <= i < s.len(),
    ensures
        count_true(s) <= s.len(),
        !s[i] ==> count_true(s) < s.len(),
        s[i] ==> count_true(s) >= 1,
    decreases s.len(),
{
    if i == s.len() - 1 {
        lemma_count_true_le_len(s.drop_last());
    } else {
        lemma_count_true_bounds(s.drop_last(), i);
    }
}

proof fn lemma_count_true_le_len(s: Seq<bool>)
    ensures
        count_true(s) <= s.len(),
    decreases s.len(),
{
    if s.len() > 0 {
        lemma_count_true_le_len(s.drop_last());
    }
}

proof fn lemma_count_true_all(s: Seq<bool>)
    requires
        forall|i: int| 0 <= i < s.len() ==> s[i],
    ensures
        count_true(s) == s.len(),
    decreases s.len(),
{
    if s.len() > 0 {
        lemma_count_true_all(s.drop_last());
    }
}

/// Ranking before a candidate ranks before everything that candidate ranks
/// before, so a candidate's rank exceeds that of every candidate ranked
/// before it.
proof fn lemma_rank_strict(keys: Seq<u32>, g: int, h: int)
    requires
        0 <= g < keys.len(),
        0 <= h < keys.len(),
        outranks(keys, g, h),
    ensures
        merge_rank(keys, h) >= merge_rank(keys, g) + 1,
{
    let a = Seq::new(keys.len(), |x: int| outranks(keys, x, g));
    let b = Seq::new(keys.len(), |x: int| outranks(keys, x, h));
    lemma_count_true_update(a, g, true);
    lemma_count_true_mono(a.update(g, true), b);
}

/// A candidate ranks after at most all the others.
proof fn lemma_rank_below_len(keys: Seq<u32>, g: int)
    requires
        0 <= g < keys.len(),
    ensures
        merge_rank(keys, g) < keys.len(),
{
    lemma_count_true_bounds(Seq::new(keys.len(), |h: int| outranks(keys, h, g)), g);
}

/// Marks the `merges` best-ranked candidates among `keys[start..start +
/// groups]` (see `merge_rank`): exactly `min(merges, groups)` of them.
pub fn select_top_merges(keys: &Vec<u32>, start: usize, groups: usize, merges: usize) -> (selected:
    Vec<bool>)
    requires
        start + groups <= keys@.len(),
    ensures
        selected@.len() == groups,
        forall|g: int|
            0 <= g < groups ==> (#[trigger] selected@[g] <==> merge_rank(
                keys@.subrange(start as int, start + groups),
                g,
            ) < merges),
        count_true(selected@) == if merges <= groups {
            merges
        } else {
            groups
        },
{
    let ghost region = keys@.subrange(start as int, start + groups);
    let len = keys.len();
    let mut selected: Vec<bool> = Vec::new();
    let mut i: usize = 0;
    while i < groups
        invariant
            i <= groups,
            selected@.len() == i,
            forall|g: int| 0 <= g < i ==> !selected@[g],
            count_true(selected@) == 0,
        decreases groups - i,
    {
        proof {
            lemma_count_true_push(selected@, false);
        }
        selected.push(false);
        i = i + 1;
    }
    let mut taken: usize = 0;
    while taken < merges && taken < groups
        invariant
            start + groups <= keys@.len(),
            len == keys@.len(),
            region == keys@.subrange(start as int, start + groups),
            taken <= groups,
            taken <= merges,
            selected@.len() == groups,
            count_true(selected@) == taken,
            forall|g: int|
                0 <= g < groups ==> (#[trigger] selected@[g] <==> merge_rank(region, g) < taken),
        decreases groups - taken,
    {
        let mut best: usize = 0;
        let mut found = false;
        let mut g: usize = 0;
        while g < groups
            invariant
                start + groups <= keys@.len(),
                len == keys@.len(),
                region == keys@.subrange(start as int, start + groups),
                g <= groups,
                selected@.len() == groups,
                found ==> best < g && !selected@[best as int],
                found ==> forall|h: int|
                    0 <= h < g && !selected@[h] && h != best ==> outranks(region, best as int, h),
                !found ==> forall|h: int| 0 <= h < g ==> selected@[h],
            decreases groups - g,
        {
            if !selected[g] {
                if !found || keys[start + g] > keys[start + best] {
                    best = g;
                    found = true;
                }
            }
            g = g + 1;
        }
        proof {
            if !found {
                lemma_count_true_all(selected@);
            }
            let p = best as int;
            let s = selected@;
            let rank_p = Seq::new(region.len(), |x: int| outranks(region, x, p));
            assert forall|x: int| 0 <= x < groups && #[trigger] rank_p[x] implies s[x] by {
                if !s[x] {
                    assert(x != p);
                    assert(outranks(region, p, x));
                }
            }
            lemma_count_true_mono(rank_p, s);
            assert(merge_rank(region, p) == taken);
            let t = s.update(p, true);
            lemma_count_true_update(s, p, true);
            assert forall|g: int| 0 <= g < groups && !s[g] && g != p implies merge_rank(region, g)
                >= taken + 1 by {
                let rank_g = Seq::new(region.len(), |x: int| outranks(region, x, g));
                assert forall|x: int| 0 <= x < groups && #[trigger] t[x] implies rank_g[x] by {
                    if x != p {
                        assert(s[x]);
                        if outranks(region, g, x) {
                            lemma_rank_strict(region, g, x);
                        }
                    }
                }
                lemma_count_true_mono(t, rank_g);
            }
        }
        selected.set(best, true);
        taken = taken + 1;
    }
    proof {
        if taken < merges {
            assert forall|g: int| 0 <= g < groups implies merge_rank(region, g) < taken by {
                lemma_rank_below_len(region, g);
            }
        }
    }
    selected
}


/// Counts of a merge selection compared with the oracle's merges, over all
/// candidate groups, and the number of snapshots selected exactly.
#[derive(Clone, Copy, Debug, PartialEq, Eq, Structural)]
pub struct SelectionCounts {
    pub true_positive: usize,
    pub true_negative: usize,
    pub false_positive: usize,
    pub false_negative: usize,
    pub exact_cuts: usize,
}

/// Score keys of the candidate groups of one snapshot.
pub open spec fn snapshot_keys(keys: Seq<u32>, snapshot: int, groups: int) -> Seq<u32> {
    keys.subrange(snapshot * groups, snapshot * groups + groups)
}

/// Whether candidate row `row` is among the `merges` best-ranked groups of
/// its snapshot.
pub open spec fn row_selected(keys: Seq<u32>, groups: int, merges: nat, row: int) -> bool {
    merge_rank(snapshot_keys(keys, row / groups, groups), row % groups) < merges
}

/// Number of the first `rows` rows on which the selection is `predicted`
/// and the oracle is `oracle`.
pub open spec fn outcome_count(
    keys: Seq<u32>,
    expected: Seq<bool>,
    groups: int,
    merges: nat,
    rows: int,
    predicted: bool,
    oracle: bool,
) -> nat
    decreases rows,
{
    if rows <= 0 {
        0
    } else {
        outcome_count(keys, expected, groups, merges, rows - 1, predicted, oracle) + if row_selected(
            keys,
            groups,
            merges,
            rows - 1,
        ) == predicted && expected[rows - 1] == oracle {
            1nat
        } else {
            0nat
        }
    }
}

/// The selection of snapshot `snapshot` equals the oracle's merges.
pub open spec fn snapshot_exact(
    keys: Seq<u32>,
    expected: Seq<bool>,
    groups: int,
    merges: nat,
    snapshot: int,
) -> bool {
    forall|g: int|
        0 <= g < groups ==> (#[trigger] row_selected(keys, groups, merges, snapshot * groups + g)
            == expected[snapshot * groups + g])
}

/// Number of the first `snapshots` snapshots selected exactly.
pub open spec fn exact_count(
    keys: Seq<u32>,
    expected: Seq<bool>,
    groups: int,
    merges: nat,
    snapshots: int,
) -> nat
    decreases snapshots,
{
    if snapshots <= 0 {
        0
    } else {
        exact_count(keys, expected, groups, merges, snapshots - 1) + if snapshot_exact(
            keys,
            expected,
            groups,
            merges,
            snapshots - 1,
        ) {
            1nat
        } else {
            0nat
        }
    }
}

proof fn lemma_row_position(snapshot: int, groups: int, g: int)
    requires
        0 <= snapshot,
        0 <= g < groups,
    ensures
        (snapshot * groups + g) / groups == snapshot,
        (snapshot * groups + g) % groups == g,
{
    vstd::arithmetic::div_mod::lemma_fundamental_div_mod_converse(
        snapshot * groups + g,
        groups,
        snapshot,
        g,
    );
}

/// Compares, snapshot by snapshot, the `merges` best-scored candidate groups
/// with the oracle's merges `expected`: the confusion counts over all
/// candidate rows and the number of snapshots whose selection is exact.
pub fn restriction_selection_counts(
    keys: &Vec<u32>,
    expected: &Vec<bool>,
    snapshots: usize,
    groups: usize,
    merges: usize,
) -> (counts: SelectionCounts)
    requires
        keys@.len() == snapshots * groups,
        expected@.len() == keys@.len(),
    ensures
        ({
            let rows = (snapshots * groups) as int;
            let k = keys@;
            let e = expected@;
            let g = groups as int;
            let m = merges as nat;
            &&& counts.true_positive == outcome_count(k, e, g, m, rows, true, true)
            &&& counts.true_negative == outcome_count(k, e, g, m, rows, false, false)
            &&& counts.false_positive == outcome_count(k, e, g, m, rows, true, false)
            &&& counts.false_negative == outcome_count(k, e, g, m, rows, false, true)
            &&& counts.exact_cuts == exact_count(k, e, g, m, snapshots as int)
        }),
        counts.true_positive + counts.true_negative + counts.false_positive + counts.false_negative
            == snapshots * groups,
        counts.exact_cuts <= snapshots,
{
    let ghost k = keys@;
    let ghost e = expected@;
    let ghost gi = groups as int;
    let ghost m = merges as nat;
    let mut counts = SelectionCounts {
        true_positive: 0,
        true_negative: 0,
        false_positive: 0,
        false_negative: 0,
        exact_cuts: 0,
    };
    let total = keys.len();
    let mut snapshot: usize = 0;
    while snapshot < snapshots
        invariant
            snapshot <= snapshots,
            total == keys@.len(),
            k == keys@,
            e == expected@,
            gi == groups as int,
            m == merges as nat,
            keys@.len() == snapshots * groups,
            expected@.len() == keys@.len(),
            counts.true_positive == outcome_count(k, e, gi, m, snapshot * gi, true, true),
            counts.true_negative == outcome_count(k, e, gi, m, snapshot * gi, false, false),
            counts.false_positive == outcome_count(k, e, gi, m, snapshot * gi, true, false),
            counts.false_negative == outcome_count(k, e, gi, m, snapshot * gi, false, true),
            counts.exact_cuts == exact_count(k, e, gi, m, snapshot as int),
            counts.true_positive + counts.true_negative + counts.false_positive
                + counts.false_negative == snapshot * groups,
            counts.exact_cuts <= snapshot,
        decreases snapshots - snapshot,
    {
        assert(snapshot * groups + groups <= snapshots * groups) by (nonlinear_arith)
            requires
                snapshot < snapshots,
        ;
        let start = snapshot * groups;
        let selected = select_top_merges(keys, start, groups, merges);
        proof {
            assert(k.subrange(start as int, start + groups) == snapshot_keys(
                k,
                snapshot as int,
                gi,
            ));
        }
        let mut exact = true;
        let mut g: usize = 0;
        while g < groups
            invariant
                g <= groups,
                total == keys@.len(),
                snapshot < snapshots,
                start == snapshot * groups,
                start + groups <= snapshots * groups,
                k == keys@,
                e == expected@,
                gi == groups as int,
                m == merges as nat,
                keys@.len() == snapshots * groups,
                expected@.len() == keys@.len(),
                selected@.len() == groups,
                forall|h: int|
                    0 <= h < groups ==> (#[trigger] selected@[h] <==> merge_rank(
                        snapshot_keys(k, snapshot as int, gi),
                        h,
                    ) < merges),
                counts.true_positive == outcome_count(k, e, gi, m, start + g, true, true),
                counts.true_negative == outcome_count(k, e, gi, m, start + g, false, false),
                counts.false_positive == outcome_count(k, e, gi, m, start + g, true, false),
                counts.false_negative == outcome_count(k, e, gi, m, start + g, false, true),
                counts.exact_cuts == exact_count(k, e, gi, m, snapshot as int),
                counts.true_positive + counts.true_negative + counts.false_positive
                    + counts.false_negative == start + g,
                counts.exact_cuts <= snapshot,
                exact <==> forall|h: int|
                    0 <= h < g ==> (#[trigger] row_selected(k, gi, m, snapshot * gi + h)
                        == e[snapshot * gi + h]),
            decreases groups - g,
        {
            let row = start + g;
            let predicted = selected[g];
            let oracle = expected[row];
            proof {
                lemma_row_position(snapshot as int, gi, g as int);
                assert(predicted == row_selected(k, gi, m, row as int));
            }
            if predicted && oracle {
                counts.true_positive = counts.true_positive + 1;
            } else if !predicted && !oracle {
                counts.true_negative = counts.true_negative + 1;
            } else if predicted && !oracle {
                counts.false_positive = counts.false_positive + 1;
                exact = false;
            } else {
                counts.false_negative = counts.false_negative + 1;
                exact = false;
            }
            g = g + 1;
        }
        proof {
            assert(exact == snapshot_exact(k, e, gi, m, snapshot as int));
            assert((snapshot + 1) * groups == snapshot * groups + groups) by (nonlinear_arith);
        }
        if exact {
            counts.exact_cuts = counts.exact_cuts + 1;
        }
        snapshot = snapshot + 1;
    }
    counts
}


/// Cost `j` ranks before cost `i` in increasing order, ties going to the
/// lower index.
pub open spec fn precedes(keys: Seq<u32>, j: int, i: int) -> bool {
    keys[j] < keys[i] || (keys[j] == keys[i] && j < i)
}

/// Position of cost `i` when the costs are ranked in increasing order of
/// their keys, ties going to the lower index.
pub open spec fn cost_rank(keys: Seq<u32>, i: int) -> nat {
    count_true(Seq::new(keys.len(), |j: int| precedes(keys, j, i)))
}

proof fn lemma_cost_rank_strict(keys: Seq<u32>, i: int, j: int)
    requires
        0 <= i < keys.len(),
        0 <= j < keys.len(),
        precedes(keys, i, j),
    ensures
        cost_rank(keys, j) >= cost_rank(keys, i) + 1,
{
    let a = Seq::new(keys.len(), |x: int| precedes(keys, x, i));
    let b = Seq::new(keys.len(), |x: int| precedes(keys, x, j));
    lemma_count_true_update(a, i, true);
    lemma_count_true_mono(a.update(i, true), b);
}

/// Ranks of the costs whose total-order keys are `keys` (see `cost_rank`):
/// every cost gets a different rank below the number of costs.
pub fn ascending_cost_ranks(keys: &Vec<u32>) -> (ranks: Vec<usize>)
    ensures
        ranks@.len() == keys@.len(),
        forall|i: int| 0 <= i < keys@.len() ==> #[trigger] ranks@[i] == cost_rank(keys@, i),
        forall|i: int| 0 <= i < keys@.len() ==> #[trigger] ranks@[i] < keys@.len(),
        ranks@.no_duplicates(),
{
    let n = keys.len();
    let mut ranks: Vec<usize> = Vec::new();
    let mut i: usize = 0;
    while i < n
        invariant
            n == keys@.len(),
            i <= n,
            ranks@.len() == i,
            forall|a: int| 0 <= a < i ==> #[trigger] ranks@[a] == cost_rank(keys@, a),
        decreases n - i,
    {
        let mut rank: usize = 0;
        let mut j: usize = 0;
        while j < n
            invariant
                n == keys@.len(),
                i < n,
                j <= n,
                rank == count_true(Seq::new(j as nat, |x: int| precedes(keys@, x, i as int))),
                rank <= j,
            decreases n - j,
        {
            proof {
                let f = |x: int| precedes(keys@, x, i as int);
                assert(Seq::new((j + 1) as nat, f) =~= Seq::new(j as nat, f).push(f(j as int)));
                lemma_count_true_push(Seq::new(j as nat, f), f(j as int));
            }
            if keys[j] < keys[i] || (keys[j] == keys[i] && j < i) {
                rank = rank + 1;
            }
            j = j + 1;
        }
        proof {
            assert(Seq::new(n as nat, |x: int| precedes(keys@, x, i as int)) =~= Seq::new(
                keys@.len(),
                |x: int| precedes(keys@, x, i as int),
            ));
        }
        ranks.push(rank);
        i = i + 1;
    }
    proof {
        assert forall|a: int| 0 <= a < keys@.len() implies #[trigger] ranks@[a] < keys@.len() by {
            lemma_count_true_bounds(
                Seq::new(keys@.len(), |x: int| precedes(keys@, x, a)),
                a,
            );
        }
        assert forall|a: int, b: int|
            0 <= a < ranks@.len() && 0 <= b < ranks@.len() && a != b implies ranks@[a]
            != ranks@[b] by {
            if precedes(keys@, a, b) {
                lemma_cost_rank_strict(keys@, a, b);
            } else {
                lemma_cost_rank_strict(keys@, b, a);
            }
        }
    }
    ranks
}

} // verus!
