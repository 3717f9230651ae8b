use vstd::prelude::*;
use vstd::string::StringExecFns;

use crate::error::{AutomataError, AutomataResult, is_invalid_argument, is_invalid_model};
use crate::multiscale_dataset::gpu::{rollout_seed, teacher_rollout_seed};
use crate::text::{decimal, push_decimal, text};

verus! {

/// Which recurrent rule receives the adaptive Target2D gradient.
#[derive(Clone, Copy, Debug, PartialEq, Eq, Structural)]
pub enum AdaptiveTarget2dRuleTraining {
    /// Optimize the primary rule (a research control).
    SharedRule,
    /// Optimize one primary rule with a continuous material-scale input whose
    /// added column starts at zero.
    SharedScaleConditionedRule,
    /// Optimize the shared rule end-to-end through normalized,
    /// moment-corrected variable-scale perception.
    NormalizedAdaptiveRule,
    /// Freeze the native-scale rule and train a zero-initialized correction
    /// from normalized variable-scale perception.
    FrozenBaseNormalizedAdaptiveResidual,
    /// Freeze the native-scale rule and train a residual that sees row scale
    /// and coarse-source exposure.
    FrozenBaseMaterialConditionedResidual,
    /// Freeze the native-scale rule and train a mixed-resolution residual
    /// over rule-compatible perception.
    FrozenBaseCompatibleResidual,
}

impl Default for AdaptiveTarget2dRuleTraining {
    fn default() -> (r: Self)
        ensures
            r == AdaptiveTarget2dRuleTraining::SharedRule,
    {
        AdaptiveTarget2dRuleTraining::SharedRule
    }
}

/// Rollout steps appended after a topology event so that its recovery is
/// scored: zero reuses the post-event recovery horizon.
pub fn recovery_extension_budget(max_recovery_extension_steps: usize, post_event_recovery_steps: usize) -> (budget: usize)
    ensures
        budget == if max_recovery_extension_steps == 0 {
            post_event_recovery_steps
        } else {
            max_recovery_extension_steps
        },
{
    if max_recovery_extension_steps == 0 {
        post_event_recovery_steps
    } else {
        max_recovery_extension_steps
    }
}

/// The 32-bit update-mask key of a particle: the xor of the two halves of
/// its 64-bit identifier.
pub open spec fn update_key(particle_id: u64) -> u32 {
    (particle_id % 0x1_0000_0000) as u32 ^ (particle_id / 0x1_0000_0000) as u32
}

/// The update-mask key of a particle (see `update_key`).
pub fn material_update_key(particle_id: u64) -> (key: u32)
    ensures
        key == update_key(particle_id),
{
    let low = (particle_id & 0xffff_ffff) as u32;
    let high = (particle_id >> 32u64) as u32;
    assert(particle_id & 0xffff_ffff == particle_id % 0x1_0000_0000) by (bit_vector);
    assert(particle_id >> 32u64 == particle_id / 0x1_0000_0000) by (bit_vector);
    low ^ high
}

/// `active` material rows can represent `reference` fine units when every
/// row holds at least one and at most `max_units` units.
pub open spec fn material_budget_ok(active: nat, reference: nat, max_units: nat) -> bool {
    &&& active != 0
    &&& active <= reference
    &&& max_units != 0
    &&& reference <= active * max_units
}

/// Message for an unrepresentable material budget.
pub open spec fn material_budget_message(active: nat, reference: nat, max_units: nat) -> Seq<
    char,
> {
    "adaptive Target2D requires active <= reference <= active * max_initial_fine_units, got active="@
        + decimal(active) + " reference="@ + decimal(reference) + " max_units="@ + decimal(
        max_units,
    )
}

/// Checks that `active` rows holding between one and `max_units` fine units
/// each can represent exactly `reference` fine units.
pub fn validate_material_budget(active: usize, reference: usize, max_units: usize) -> (result:
    AutomataResult<()>)
    ensures
        material_budget_ok(active as nat, reference as nat, max_units as nat) <==> result is Ok,
        result is Ok <==> active != 0 && active <= reference && max_units != 0 && reference
            <= active * max_units,
        result is Err ==> is_invalid_argument(
            result,
            material_budget_message(active as nat, reference as nat, max_units as nat),
        ),
{
    let exceeds = match active.checked_mul(max_units) {
        Some(capacity) => reference > capacity,
        None => false,
    };
    if active == 0 || reference < active || max_units == 0 || exceeds {
        let mut message = text(
            "adaptive Target2D requires active <= reference <= active * max_initial_fine_units, got active=",
        );
        push_decimal(&mut message, active as u128);
        message.append(" reference=");
        push_decimal(&mut message, reference as u128);
        message.append(" max_units=");
        push_decimal(&mut message, max_units as u128);
        return Err(AutomataError::InvalidArgument(message));
    }
    Ok(())
}

/// Sum of a sequence of counts.
pub open spec fn seq_sum(s: Seq<usize>) -> int
    decreases s.len(),
{
    if s.len() == 0 {
        0
    } else {
        seq_sum(s.drop_last()) + s.last()
    }
}

/// Number of coarse rows the canonical grouping creates: the excess fine
/// units spread over rows that each absorb up to `max_units - 1` extra units.
pub open spec fn coarse_row_count(active: nat, reference: nat, max_units: nat) -> nat {
    let excess = (reference - active) as nat;
    let capacity = (max_units - 1) as nat;
    if excess == 0 {
        0
    } else {
        (excess + capacity - 1) as nat / capacity
    }
}

/// Row that receives the extra units of coarse group `coarse`: the coarse
/// groups are spread evenly over the active rows.
pub open spec fn coarse_slot(coarse: nat, active: nat, coarse_rows: nat) -> nat {
    coarse * active / coarse_rows
}

/// Extra units absorbed by coarse group `coarse`: a full group, except that
/// the last group takes what remains.
pub open spec fn coarse_extra(coarse: nat, active: nat, reference: nat, max_units: nat) -> nat {
    let excess = (reference - active) as nat;
    let capacity = (max_units - 1) as nat;
    if excess - coarse * capacity >= capacity {
        capacity
    } else {
        (excess - coarse * capacity) as nat
    }
}

proof fn lemma_seq_sum_update(s: Seq<usize>, i: int, v: usize)
    requires
        0 <= i < s.len(),
    ensures
        seq_sum(s.update(i, v)) == seq_sum(s) - s[i] + v,
    decreases s.len(),
{
    if i == s.len() - 1 {
        assert(s.update(i, v).drop_last() =~= s.drop_last());
    } else {
        assert(s.update(i, v).drop_last() =~= s.drop_last().update(i, v));
        lemma_seq_sum_update(s.drop_last(), i, v);
    }
}

proof fn lemma_seq_sum_push(s: Seq<usize>, v: usize)
    ensures
        seq_sum(s.push(v)) == seq_sum(s) + v,
{
    assert(s.push(v).drop_last() =~= s);
}

proof fn lemma_slot_increasing(c1: nat, c2: nat, active: nat, k: nat)
    requires
        c1 < c2,
        0 < k <= active,
    ensures
        coarse_slot(c1, active, k) < coarse_slot(c2, active, k),
{
    let q = c1 * active / k;
    assert(q * k <= c1 * active) by (nonlinear_arith)
        requires
            q == c1 * active / k,
            k > 0,
    ;
    assert(c1 * active < (q + 1) * k) by (nonlinear_arith)
        requires
            q == c1 * active / k,
            k > 0,
    ;
    assert(c2 * active >= (q + 1) * k) by (nonlinear_arith)
        requires
            c1 * active < (q + 1) * k,
            c1 < c2,
            k <= active,
            c1 * active >= q * k,
            q == c1 * active / k,
    ;
    assert(((q + 1) * k) / k == q + 1) by (nonlinear_arith)
        requires
            k > 0,
    ;
    vstd::arithmetic::div_mod::lemma_div_is_ordered(
        ((q + 1) * k) as int,
        (c2 * active) as int,
        k as int,
    );
}

/// Canonical integral material groups for `active` rows representing
/// `reference` fine units with at most `max_units` units per row.
///
/// Every row starts with one fine unit. The excess units form coarse groups
/// of `max_units - 1` extra units each (the last group holding the
/// remainder), and group `c` of `k` is placed on row `c * active / k`, which
/// spreads the coarse rows evenly. The layout conserves the fine units and
/// keeps every row within `[1, max_units]`.
pub fn canonical_grouped_fine_units(active: usize, reference: usize, max_units: usize) -> (units:
    Vec<usize>)
    requires
        material_budget_ok(active as nat, reference as nat, max_units as nat),
        coarse_row_count(active as nat, reference as nat, max_units as nat) == 0 || (
        coarse_row_count(active as nat, reference as nat, max_units as nat) - 1) * active
            <= usize::MAX,
    ensures
        units@.len() == active,
        ({
            let k = coarse_row_count(active as nat, reference as nat, max_units as nat);
            &&& forall|c: nat|
                c < k ==> units@[coarse_slot(c, active as nat, k) as int] == 1 + #[trigger] coarse_extra(
                    c,
                    active as nat,
                    reference as nat,
                    max_units as nat,
                )
            &&& forall|r: int|
                0 <= r < active && (forall|c: nat| c < k ==> #[trigger] coarse_slot(c, active as nat, k) != r)
                    ==> units@[r] == 1
        }),
        seq_sum(units@) == reference,
        forall|r: int| 0 <= r < active ==> 1 <= #[trigger] units@[r] <= max_units,
{
    let ghost a = active as nat;
    let ghost total = reference as nat;
    let ghost m = max_units as nat;
    let mut units: Vec<usize> = Vec::new();
    let mut i: usize = 0;
    while i < active
        invariant
            i <= active,
            units@.len() == i,
            forall|r: int| 0 <= r < i ==> units@[r] == 1,
            seq_sum(units@) == i,
        decreases active - i,
    {
        proof {
            lemma_seq_sum_push(units@, 1);
        }
        units.push(1);
        i = i + 1;
    }
    let excess0 = reference - active;
    let capacity = max_units - 1;
    let mut excess = excess0;
    let coarse_rows = if excess0 == 0 {
        0
    } else {
        excess0 / capacity + if excess0 % capacity != 0 {
            1
        } else {
            0
        }
    };
    let ghost k = coarse_rows as nat;
    proof {
        if excess0 > 0 {
            assert(capacity > 0) by {
                if capacity == 0 {
                    assert(active * max_units == active * 1);
                }
            }
            let e = excess0 as int;
            let cap = capacity as int;
            assert(coarse_rows as int == (e + cap - 1) / cap) by (nonlinear_arith)
                requires
                    cap > 0,
                    e > 0,
                    coarse_rows as int == e / cap + if e % cap != 0 {
                        1int
                    } else {
                        0int
                    },
            ;
            assert(coarse_rows == coarse_row_count(a, total, m));
            assert(e <= (active as int) * cap) by (nonlinear_arith)
                requires
                    e == reference - active,
                    reference <= active * max_units,
                    cap == max_units - 1,
            ;
            assert(coarse_rows <= active) by (nonlinear_arith)
                requires
                    coarse_rows as int == (e + cap - 1) / cap,
                    e <= (active as int) * cap,
                    cap > 0,
            ;
            assert((coarse_rows - 1) * cap < e && e <= coarse_rows * cap) by (nonlinear_arith)
                requires
                    coarse_rows as int == (e + cap - 1) / cap,
                    cap > 0,
                    e > 0,
            ;
            assert(coarse_rows > 0) by (nonlinear_arith)
                requires
                    coarse_rows as int == (e + cap - 1) / cap,
                    cap > 0,
                    e > 0,
            ;
            assert forall|c: nat| c < k implies #[trigger] coarse_slot(c, a, k) < active by {
                assert(c * a < k * a) by (nonlinear_arith)
                    requires
                        c < k,
                        a > 0,
                ;
                vstd::arithmetic::div_mod::lemma_multiply_divide_lt((c * a) as int, k as int, a as int);
            }
        } else {
            assert(coarse_rows == coarse_row_count(a, total, m));
        }
    }
    let mut coarse: usize = 0;
    while coarse < coarse_rows
        invariant
            coarse <= coarse_rows,
            k == coarse_rows as nat,
            k == coarse_row_count(a, total, m),
            a == active as nat,
            total == reference as nat,
            m == max_units as nat,
            excess0 == reference - active,
            capacity == max_units - 1,
            k > 0 ==> capacity > 0 && k <= active && (k - 1) * capacity < excess0 && excess0 <= k
                * capacity,
            k == 0 || (k - 1) * active <= usize::MAX,
            coarse < k ==> excess == excess0 - coarse * capacity,
            coarse == k ==> excess == 0,
            units@.len() == active,
            seq_sum(units@) == reference - excess,
            forall|c: nat|
                c < coarse ==> units@[coarse_slot(c, a, k) as int] == 1 + #[trigger] coarse_extra(
                    c,
                    a,
                    total,
                    m,
                ),
            forall|r: int|
                0 <= r < active && (forall|c: nat| c < coarse ==> #[trigger] coarse_slot(c, a, k) != r)
                    ==> units@[r] == 1,
            forall|c: nat| c < k ==> #[trigger] coarse_slot(c, a, k) < active,
        decreases coarse_rows - coarse,
    {
        assert(coarse * active <= (k - 1) * active) by (nonlinear_arith)
            requires
                coarse < k,
        ;
        let row = coarse * active / coarse_rows;
        assert(row == coarse_slot(coarse as nat, a, k));
        let add = if excess <= capacity {
            excess
        } else {
            capacity
        };
        proof {
            assert(excess0 - coarse * capacity > 0) by (nonlinear_arith)
                requires
                    coarse < k,
                    (k - 1) * capacity < excess0,
                    capacity > 0,
            ;
            if coarse + 1 < k {
                assert(excess0 - coarse * capacity > capacity) by (nonlinear_arith)
                    requires
                        coarse + 1 < k,
                        (k - 1) * capacity < excess0,
                        capacity > 0,
                ;
            } else {
                assert(excess0 - coarse * capacity <= capacity) by (nonlinear_arith)
                    requires
                        coarse + 1 == k,
                        excess0 <= k * capacity,
                ;
            }
            assert(add == coarse_extra(coarse as nat, a, total, m));
            assert(units@[row as int] == 1) by {
                assert forall|c: nat| c < coarse implies #[trigger] coarse_slot(c, a, k) != row by {
                    lemma_slot_increasing(c, coarse as nat, a, k);
                }
            }
        }
        let ghost prior = units@;
        units.set(row, 1 + add);
        proof {
            lemma_seq_sum_update(prior, row as int, (1 + add) as usize);
            assert forall|c: nat| c < coarse + 1 implies units@[coarse_slot(c, a, k) as int] == 1
                + #[trigger] coarse_extra(c, a, total, m) by {
                if c < coarse {
                    lemma_slot_increasing(c, coarse as nat, a, k);
                }
            }
            assert forall|r: int|
                0 <= r < active && (forall|c: nat| c < coarse + 1 ==> #[trigger] coarse_slot(c, a, k) != r)
                    implies units@[r] == 1 by {
                assert(coarse_slot(coarse as nat, a, k) != r);
            }
            if coarse + 1 < k {
                assert(excess - add == excess0 - (coarse + 1) * capacity) by (nonlinear_arith)
                    requires
                        excess == excess0 - coarse * capacity,
                        add == capacity,
                ;
            }
        }
        excess = excess - add;
        coarse = coarse + 1;
    }
    proof {
        assert forall|r: int| 0 <= r < active implies 1 <= #[trigger] units@[r] <= max_units by {
            if exists|c: nat| c < k && #[trigger] coarse_slot(c, a, k) == r {
                let c = choose|c: nat| c < k && #[trigger] coarse_slot(c, a, k) == r;
                assert(units@[coarse_slot(c, a, k) as int] == 1 + coarse_extra(c, a, total, m));
                assert(excess0 - c * capacity > 0) by (nonlinear_arith)
                    requires
                        c < k,
                        (k - 1) * capacity < excess0,
                        capacity > 0,
                ;
                assert(coarse_extra(c, a, total, m) <= capacity);
            }
        }
    }
    units
}


/// Number of occurrences of `u` in `s`.
pub open spec fn count_of(s: Seq<usize>, u: usize) -> nat
    decreases s.len(),
{
    if s.len() == 0 {
        0
    } else {
        count_of(s.drop_last(), u) + if s.last() == u {
            1nat
        } else {
            0nat
        }
    }
}

/// Layout position `i` asks for a row of its unit class after every such
/// row has been taken by an earlier position.
pub open spec fn seed_shortage(rows: Seq<usize>, fine: Seq<usize>, i: int) -> bool {
    count_of(fine.take(i), fine[i]) >= count_of(rows, fine[i])
}

/// Message for a unit class that runs out of seed rows.
pub open spec fn too_few_rows_message(units: nat) -> Seq<char> {
    "adaptive Target2D seed has too few "@ + decimal(units)
        + "-unit rows for the static material layout"@
}

/// Message for a seed with rows of a unit class that the layout never asks for.
pub open spec fn multiplicities_differ_message() -> Seq<char> {
    "adaptive Target2D seed/layout material multiplicities differ"@
}

proof fn lemma_count_push(s: Seq<usize>, x: usize, u: usize)
    ensures
        count_of(s.push(x), u) == count_of(s, u) + if x == u {
            1nat
        } else {
            0nat
        },
{
    assert(s.push(x).drop_last() =~= s);
}

proof fn lemma_count_take_succ(s: Seq<usize>, i: int, u: usize)
    requires
        0 <= i < s.len(),
    ensures
        count_of(s.take(i + 1), u) == count_of(s.take(i), u) + if s[i] == u {
            1nat
        } else {
            0nat
        },
{
    assert(s.take(i + 1) =~= s.take(i).push(s[i]));
    lemma_count_push(s.take(i), s[i], u);
}

proof fn lemma_count_prefix(s: Seq<usize>, a: int, u: usize)
    requires
        0 <= a <= s.len(),
    ensures
        count_of(s.take(a), u) <= count_of(s, u),
    decreases s.len(),
{
    if a == s.len() {
        assert(s.take(a) =~= s);
    } else {
        assert(s.drop_last().take(a) =~= s.take(a));
        lemma_count_prefix(s.drop_last(), a, u);
    }
}

proof fn lemma_count_le_len(s: Seq<usize>, u: usize)
    ensures
        count_of(s, u) <= s.len(),
    decreases s.len(),
{
    if s.len() > 0 {
        lemma_count_le_len(s.drop_last(), u);
    }
}

proof fn lemma_count_absent(s: Seq<usize>, u: usize)
    requires
        forall|i: int| 0 <= i < s.len() ==> s[i] != u,
    ensures
        count_of(s, u) == 0,
    decreases s.len(),
{
    if s.len() > 0 {
        lemma_count_absent(s.drop_last(), u);
    }
}

proof fn lemma_occurrences_ordered(s: Seq<usize>, u: usize, a: int, b: int)
    requires
        0 <= a < b < s.len(),
        s[a] == u,
    ensures
        count_of(s.take(a), u) < count_of(s.take(b), u),
{
    lemma_count_take_succ(s, a, u);
    assert(s.take(b).take(a + 1) =~= s.take(a + 1));
    lemma_count_prefix(s.take(b), a + 1, u);
}

proof fn lemma_nth_occurrence(s: Seq<usize>, u: usize, n: nat)
    requires
        n < count_of(s, u),
    ensures
        exists|i: int|
            0 <= i < s.len() && s[i] == u && #[trigger] count_of(s.take(i), u) == n,
    decreases s.len(),
{
    let rest = s.drop_last();
    if n < count_of(rest, u) {
        lemma_nth_occurrence(rest, u, n);
        let i = choose|i: int|
            0 <= i < rest.len() && rest[i] == u && #[trigger] count_of(rest.take(i), u) == n;
        assert(s.take(i) =~= rest.take(i));
        assert(s[i] == u && count_of(s.take(i), u) == n);
    } else {
        let i = s.len() - 1;
        assert(s.take(i) =~= rest);
        assert(s[i] == u && count_of(s.take(i), u) == n);
    }
}

/// A layout-matched seed ordering with the same unit multiplicities on both
/// sides visits every seed row exactly once.
proof fn lemma_seed_order_is_permutation(rows: Seq<usize>, fine: Seq<usize>, order: Seq<usize>)
    requires
        order.len() == fine.len(),
        forall|u: usize| count_of(fine, u) == count_of(rows, u),
        forall|i: int|
            0 <= i < order.len() ==> {
                &&& #[trigger] order[i] < rows.len()
                &&& rows[order[i] as int] == fine[i]
                &&& count_of(rows.take(order[i] as int), fine[i]) == count_of(fine.take(i), fine[i])
            },
    ensures
        order.no_duplicates(),
        forall|r: usize| r < rows.len() ==> order.contains(r),
{
    assert forall|i: int, j: int|
        0 <= i < order.len() && 0 <= j < order.len() && i != j implies order[i] != order[j] by {
        if order[i] == order[j] {
            let u = fine[i];
            assert(order[i] < rows.len() && order[j] < rows.len());
            if i < j {
                lemma_occurrences_ordered(fine, u, i, j);
            } else {
                lemma_occurrences_ordered(fine, u, j, i);
            }
        }
    }
    assert forall|r: usize| r < rows.len() implies order.contains(r) by {
        let u = rows[r as int];
        let n = count_of(rows.take(r as int), u);
        lemma_count_take_succ(rows, r as int, u);
        lemma_count_prefix(rows, r + 1, u);
        lemma_nth_occurrence(fine, u, n);
        let i = choose|i: int|
            0 <= i < fine.len() && fine[i] == u && #[trigger] count_of(fine.take(i), u) == n;
        assert(order[i] < rows.len());
        let q = order[i] as int;
        if q < r {
            lemma_occurrences_ordered(rows, u, q, r as int);
        } else if q > r {
            lemma_occurrences_ordered(rows, u, r as int, q);
        }
        assert(order[i] == r);
    }
}

/// The outcome of ordering seed rows with units `rows` to match the layout
/// `fine` (see `canonical_seed_row_order`).
pub open spec fn seed_order_result(
    rows: Seq<usize>,
    fine: Seq<usize>,
    result: AutomataResult<Vec<usize>>,
) -> bool {
    &&& result is Ok <==> forall|u: usize| count_of(fine, u) == count_of(rows, u)
    &&& result matches Ok(order) ==> {
        &&& order@.len() == fine.len()
        &&& forall|i: int|
            0 <= i < order@.len() ==> {
                &&& #[trigger] order@[i] < rows.len()
                &&& rows[order@[i] as int] == fine[i]
                &&& count_of(rows.take(order@[i] as int), fine[i]) == count_of(fine.take(i), fine[i])
            }
        &&& order@.no_duplicates()
        &&& forall|r: usize| r < rows.len() ==> order@.contains(r)
    }
    &&& forall|i: int|
        0 <= i < fine.len() && seed_shortage(rows, fine, i) && (forall|j: int|
            0 <= j < i ==> !seed_shortage(rows, fine, j)) ==> is_invalid_model(
            result,
            too_few_rows_message(fine[i] as nat),
        )
    &&& result is Err && (forall|i: int| 0 <= i < fine.len() ==> !seed_shortage(rows, fine, i))
        ==> is_invalid_model(result, multiplicities_differ_message())
}

/// Orders seed rows whose units all occur in the layout (see
/// `canonical_seed_row_order`).
fn order_layout_rows(row_units: &Vec<usize>, fine_units: &Vec<usize>) -> (result: AutomataResult<
    Vec<usize>,
>)
    requires
        forall|i: int| 0 <= i < fine_units.len() ==> #[trigger] fine_units[i] < usize::MAX,
        forall|r: int|
            0 <= r < row_units.len() ==> 1 <= #[trigger] row_units[r] && exists|i: int|
                0 <= i < fine_units.len() && row_units[r] <= #[trigger] fine_units[i],
    ensures
        seed_order_result(row_units@, fine_units@, result),
{
    let ghost rows = row_units@;
    let ghost fine = fine_units@;
    let mut max_units: usize = 0;
    let mut i: usize = 0;
    while i < fine_units.len()
        invariant
            i <= fine_units.len(),
            forall|j: int| 0 <= j < i ==> fine_units[j] <= max_units,
            max_units < usize::MAX,
            forall|j: int| 0 <= j < fine_units.len() ==> #[trigger] fine_units[j] < usize::MAX,
        decreases fine_units.len() - i,
    {
        if fine_units[i] > max_units {
            max_units = fine_units[i];
        }
        i = i + 1;
    }
    let mut used: Vec<usize> = Vec::new();
    let mut next: Vec<usize> = Vec::new();
    let mut counts: Vec<usize> = Vec::new();
    let mut v: usize = 0;
    while v <= max_units
        invariant
            v <= max_units + 1,
            max_units < usize::MAX,
            used.len() == v,
            next.len() == v,
            counts.len() == v,
            forall|w: int| 0 <= w < v ==> used[w] == 0 && next[w] == 0 && counts[w] == 0,
        decreases max_units + 1 - v,
    {
        used.push(0);
        next.push(0);
        counts.push(0);
        v = v + 1;
    }
    proof {
        assert(fine.take(0) =~= Seq::<usize>::empty());
        assert(rows.take(0) =~= Seq::<usize>::empty());
    }
    let mut order: Vec<usize> = Vec::new();
    i = 0;
    while i < fine_units.len()
        invariant
            rows == row_units@,
            fine == fine_units@,
            i <= fine_units.len(),
            forall|j: int| 0 <= j < fine_units.len() ==> fine_units[j] <= max_units,
            used.len() == max_units + 1,
            next.len() == max_units + 1,
            forall|w: int|
                0 <= w <= max_units ==> {
                    &&& #[trigger] used[w] == count_of(fine.take(i as int), w as usize)
                    &&& next[w] <= rows.len()
                    &&& count_of(rows.take(next[w] as int), w as usize) == used[w]
                },
            order.len() == i,
            forall|j: int|
                0 <= j < i ==> {
                    &&& #[trigger] order[j] < rows.len()
                    &&& rows[order[j] as int] == fine[j]
                    &&& count_of(rows.take(order[j] as int), fine[j]) == count_of(
                        fine.take(j),
                        fine[j],
                    )
                },
            forall|j: int| 0 <= j < i ==> !seed_shortage(rows, fine, j),
        decreases fine_units.len() - i,
    {
        let u = fine_units[i];
        assert(used[u as int] == count_of(fine.take(i as int), u));
        let mut r = next[u];
        while r < row_units.len() && row_units[r] != u
            invariant
                rows == row_units@,
                u <= max_units,
                used.len() == max_units + 1,
                next.len() == max_units + 1,
                next[u as int] <= r <= rows.len(),
                count_of(rows.take(r as int), u) == used[u as int],
            decreases rows.len() - r,
        {
            proof {
                lemma_count_take_succ(rows, r as int, u);
            }
            r = r + 1;
        }
        if r == row_units.len() {
            proof {
                assert(rows.take(r as int) =~= rows);
                assert(seed_shortage(rows, fine, i as int));
                lemma_count_take_succ(fine, i as int, u);
                lemma_count_prefix(fine, i + 1, u);
                assert(count_of(fine, u) != count_of(rows, u));
            }
            let mut message = text("adaptive Target2D seed has too few ");
            push_decimal(&mut message, u as u128);
            message.append("-unit rows for the static material layout");
            return Err(AutomataError::InvalidModel(message));
        }
        proof {
            lemma_count_take_succ(rows, r as int, u);
            lemma_count_prefix(rows, r + 1, u);
            assert forall|w: int| 0 <= w <= max_units implies #[trigger] count_of(
                fine.take(i + 1),
                w as usize,
            ) == count_of(fine.take(i as int), w as usize) + if w == u {
                1nat
            } else {
                0nat
            } by {
                lemma_count_take_succ(fine, i as int, w as usize);
            }
        }
        proof {
            lemma_count_le_len(fine.take(i as int), u);
        }
        order.push(r);
        let seen = used[u];
        used.set(u, seen + 1);
        next.set(u, r + 1);
        i = i + 1;
    }
    proof {
        assert(fine.take(fine.len() as int) =~= fine);
    }
    let mut r: usize = 0;
    while r < row_units.len()
        invariant
            rows == row_units@,
            fine == fine_units@,
            used.len() == max_units + 1,
            forall|x: int| 0 <= x <= max_units ==> #[trigger] used[x] == count_of(fine, x as usize),
            forall|j: int| 0 <= j < fine.len() ==> !seed_shortage(rows, fine, j),
            forall|j: int| 0 <= j < fine.len() ==> fine[j] <= max_units,
            r <= rows.len(),
            counts.len() == max_units + 1,
            forall|q: int| 0 <= q < rows.len() ==> rows[q] <= max_units,
            forall|w: int|
                0 <= w <= max_units ==> #[trigger] counts[w] == count_of(
                    rows.take(r as int),
                    w as usize,
                ) && counts[w] <= r,
        decreases rows.len() - r,
    {
        let w = row_units[r];
        proof {
            assert forall|x: int| 0 <= x <= max_units implies #[trigger] count_of(
                rows.take(r + 1),
                x as usize,
            ) == count_of(rows.take(r as int), x as usize) + if x == w {
                1nat
            } else {
                0nat
            } by {
                lemma_count_take_succ(rows, r as int, x as usize);
            }
        }
        let c = counts[w];
        counts.set(w, c + 1);
        r = r + 1;
    }
    proof {
        assert(rows.take(rows.len() as int) =~= rows);
    }
    let mut w: usize = 0;
    while w <= max_units
        invariant
            w <= max_units + 1,
            max_units < usize::MAX,
            used.len() == max_units + 1,
            counts.len() == max_units + 1,
            forall|x: int| 0 <= x < w ==> #[trigger] counts[x] == used[x],
            rows == row_units@,
            fine == fine_units@,
            forall|x: int| 0 <= x <= max_units ==> #[trigger] used[x] == count_of(fine, x as usize),
            forall|x: int| 0 <= x <= max_units ==> #[trigger] counts[x] == count_of(rows, x as usize),
            forall|j: int| 0 <= j < fine.len() ==> !seed_shortage(rows, fine, j),
            forall|j: int| 0 <= j < fine.len() ==> fine[j] <= max_units,
            forall|q: int| 0 <= q < rows.len() ==> rows[q] <= max_units,
        decreases max_units + 1 - w,
    {
        if counts[w] != used[w] {
            return Err(AutomataError::InvalidModel(
                text("adaptive Target2D seed/layout material multiplicities differ"),
            ));
        }
        w = w + 1;
    }
    proof {
        assert forall|u: usize| count_of(fine, u) == count_of(rows, u) by {
            if u > max_units {
                lemma_count_absent(fine, u);
                lemma_count_absent(rows, u);
            } else {
                assert(counts[u as int] == used[u as int]);
            }
        }
        lemma_seed_order_is_permutation(rows, fine, order@);
    }
    Ok(order)
}


/// Members an update mask can gate together.
pub const ADAPTIVE_TARGET2D_UPDATE_MASK_MEMBERS: usize = 6;

/// Message for a coarse parent with more members than a mask can hold.
pub open spec fn too_many_members_message(particle_id: u64, members: nat) -> Seq<char> {
    "adaptive Target2D material parent "@ + decimal(particle_id as nat) + " has "@ + decimal(
        members,
    ) + " update-mask members; at most 6 are supported"@
}

/// Update-mask keys of one material row: a row without a bootstrap
/// template is gated by its own key; a coarse parent is gated by the keys
/// of its fine members, in member order. Unused slots hold zero.
pub fn update_mask_keys(particle_id: u64, member_ids: Option<&Vec<u64>>) -> (result: AutomataResult<
    [u32; 6],
>)
    ensures
        match member_ids {
            None => result matches Ok(keys) && keys@ == seq![update_key(particle_id), 0u32, 0u32, 0u32, 0u32, 0u32],
            Some(ids) => {
                &&& ids@.len() > ADAPTIVE_TARGET2D_UPDATE_MASK_MEMBERS ==> is_invalid_argument(
                    result,
                    too_many_members_message(particle_id, ids@.len()),
                )
                &&& ids@.len() <= ADAPTIVE_TARGET2D_UPDATE_MASK_MEMBERS ==> (result matches Ok(
                    keys,
                ) && forall|k: int|
                    0 <= k < 6 ==> #[trigger] keys@[k] == if k < ids@.len() {
                        update_key(ids@[k])
                    } else {
                        0u32
                    })
            },
        },
{
    let mut keys = [0u32; 6];
    match member_ids {
        None => {
            keys[0] = material_update_key(particle_id);
            assert(keys@ =~= seq![update_key(particle_id), 0u32, 0u32, 0u32, 0u32, 0u32]);
            Ok(keys)
        },
        Some(ids) => {
            if ids.len() > ADAPTIVE_TARGET2D_UPDATE_MASK_MEMBERS {
                let mut message = text("adaptive Target2D material parent ");
                push_decimal(&mut message, particle_id as u128);
                message.append(" has ");
                push_decimal(&mut message, ids.len() as u128);
                message.append(" update-mask members; at most 6 are supported");
                return Err(AutomataError::InvalidArgument(message));
            }
            let mut member: usize = 0;
            while member < ids.len()
                invariant
                    ids@.len() <= 6,
                    member <= ids@.len(),
                    keys@.len() == 6,
                    forall|k: int|
                        0 <= k < 6 ==> #[trigger] keys@[k] == if k < member {
                            update_key(ids@[k])
                        } else {
                            0u32
                        },
                decreases ids@.len() - member,
            {
                keys[member] = material_update_key(ids[member]);
                member = member + 1;
            }
            Ok(keys)
        },
    }
}


/// Seeds of the training-pool rows of the Target2D seed bank: at least one
/// row, row `r` seeded like rollout `r` of the teacher dataset.
pub fn seed_bank_row_seeds(seed: u64, pool_size: usize) -> (seeds: Vec<u64>)
    ensures
        seeds@.len() == if pool_size == 0 {
            1
        } else {
            pool_size
        },
        forall|r: int|
            0 <= r < seeds@.len() ==> #[trigger] seeds@[r] as nat == teacher_rollout_seed(
                seed,
                r as nat,
            ),
{
    let rows = if pool_size == 0 {
        1
    } else {
        pool_size
    };
    let mut seeds: Vec<u64> = Vec::new();
    let mut row: usize = 0;
    while row < rows
        invariant
            row <= rows,
            seeds@.len() == row,
            forall|r: int|
                0 <= r < row ==> #[trigger] seeds@[r] as nat == teacher_rollout_seed(seed, r as nat),
        decreases rows - row,
    {
        seeds.push(rollout_seed(seed, row));
        row = row + 1;
    }
    seeds
}


/// Whether integral material groups match a layout of `rows` active rows
/// that represents `reference` fine units: one group per row, conserving
/// the fine units.
pub fn integral_layout_conserves(fine_units: &Vec<usize>, rows: usize, reference: usize) -> (ok:
    bool)
    ensures
        ok == (fine_units@.len() == rows && seq_sum(fine_units@) == reference),
{
    if fine_units.len() != rows {
        return false;
    }
    let mut total: usize = 0;
    let mut i: usize = 0;
    while i < fine_units.len()
        invariant
            i <= fine_units@.len(),
            total == seq_sum(fine_units@.take(i as int)),
            total <= reference,
        decreases fine_units@.len() - i,
    {
        proof {
            assert(fine_units@.take(i + 1).drop_last() =~= fine_units@.take(i as int));
        }
        if fine_units[i] > reference - total {
            proof {
                lemma_seq_sum_prefix_le(fine_units@, i + 1);
            }
            return false;
        }
        total = total + fine_units[i];
        i = i + 1;
    }
    proof {
        assert(fine_units@.take(fine_units@.len() as int) =~= fine_units@);
    }
    total == reference
}

proof fn lemma_seq_sum_prefix_le(s: Seq<usize>, n: int)
    requires
        0 <= n <= s.len(),
    ensures
        seq_sum(s.take(n)) <= seq_sum(s),
    decreases s.len(),
{
    if n == s.len() {
        assert(s.take(n) =~= s);
    } else {
        assert(s.drop_last().take(n) =~= s.take(n));
        lemma_seq_sum_prefix_le(s.drop_last(), n);
    }
}


/// A seed row's units fit the layout: at least one unit and no more than
/// the layout's largest group.
pub open spec fn layout_units(units: usize, fine: Seq<usize>) -> bool {
    1 <= units && exists|i: int| 0 <= i < fine.len() && units <= #[trigger] fine[i]
}

/// Message for a seed row whose units fit no layout group.
pub open spec fn non_layout_row_message(row: nat, measure: Seq<char>) -> Seq<char> {
    "adaptive Target2D restricted row "@ + decimal(row) + " represents non-layout measure "@
        + measure
}

/// Orders seed rows to match a canonical material layout.
///
/// `row_units[r]` is the number of fine units represented by seed row `r`
/// (`row_measures[r]` is its represented measure as it is reported) and
/// `fine_units[i]` the number the layout places at position `i`. The first
/// row whose units fit no layout group is reported. Otherwise position `i`
/// takes, among the rows with `fine_units[i]` units, the first one that no
/// earlier position took, so rows of one unit class keep their seed order.
/// The ordering exists exactly when the seed and the layout hold the same
/// number of rows of every unit class, and it then lists every seed row
/// exactly once.
pub fn canonical_seed_row_order(
    row_units: &Vec<usize>,
    row_measures: &Vec<String>,
    fine_units: &Vec<usize>,
) -> (result: AutomataResult<Vec<usize>>)
    requires
        forall|i: int| 0 <= i < fine_units.len() ==> #[trigger] fine_units[i] < usize::MAX,
        row_measures@.len() == row_units@.len(),
    ensures
        forall|r: int|
            0 <= r < row_units.len() && !layout_units(row_units[r], fine_units@) && (forall|q: int|
                0 <= q < r ==> layout_units(#[trigger] row_units[q], fine_units@))
                ==> is_invalid_model(result, non_layout_row_message(r as nat, row_measures[r]@)),
        (forall|r: int| 0 <= r < row_units.len() ==> layout_units(#[trigger] row_units[r], fine_units@))
            ==> seed_order_result(row_units@, fine_units@, result),
{
    let mut max_units: usize = 0;
    let mut i: usize = 0;
    while i < fine_units.len()
        invariant
            i <= fine_units.len(),
            forall|j: int| 0 <= j < i ==> fine_units[j] <= max_units,
            max_units == 0 || exists|j: int| 0 <= j < i && fine_units[j] == max_units,
        decreases fine_units.len() - i,
    {
        if fine_units[i] > max_units {
            max_units = fine_units[i];
        }
        i = i + 1;
    }
    let mut r: usize = 0;
    while r < row_units.len()
        invariant
            r <= row_units.len(),
            row_measures@.len() == row_units@.len(),
            forall|j: int| 0 <= j < fine_units.len() ==> fine_units[j] <= max_units,
            max_units == 0 || exists|j: int| 0 <= j < fine_units.len() && fine_units[j] == max_units,
            forall|q: int| 0 <= q < r ==> layout_units(#[trigger] row_units[q], fine_units@),
        decreases row_units.len() - r,
    {
        let units = row_units[r];
        if units == 0 || units > max_units {
            proof {
                if layout_units(units, fine_units@) {
                    let j = choose|j: int| 0 <= j < fine_units.len() && units <= #[trigger] fine_units@[j];
                    assert(fine_units[j] <= max_units);
                }
            }
            let mut message = text("adaptive Target2D restricted row ");
            push_decimal(&mut message, r as u128);
            message.append(" represents non-layout measure ");
            message.append(row_measures[r].as_str());
            return Err(AutomataError::InvalidModel(message));
        }
        proof {
            let j = choose|j: int| 0 <= j < fine_units.len() && fine_units[j] == max_units;
            assert(units <= fine_units@[j]);
        }
        r = r + 1;
    }
    order_layout_rows(row_units, fine_units)
}

} // verus!
