use vstd::prelude::*;

use crate::error::{AutomataError, AutomataResult, invalid_argument};
use crate::multiscale_dataset::flat_index;

verus! {

/// Coarse student members of one coupled lane, each given by the fine leaf
/// indices (local to the lane) that it represents, in hierarchy order.
pub type LaneMembers = Vec<Vec<usize>>;

/// A member tagged with the lane that owns it.
pub open spec fn tag_members(lane: int, members: Seq<Seq<usize>>) -> Seq<(int, Seq<usize>)> {
    members.map_values(|member: Seq<usize>| (lane, member))
}

/// Every member of every lane, lane by lane, each tagged with its lane.
pub open spec fn flat_members(lanes: Seq<Seq<Seq<usize>>>) -> Seq<(int, Seq<usize>)>
    decreases lanes.len(),
{
    if lanes.len() == 0 {
        Seq::empty()
    } else {
        flat_members(lanes.drop_last()) + tag_members(lanes.len() - 1, lanes.last())
    }
}

/// Global fine-leaf indices of one member: its lane's block of `fine_count`
/// leaves offset by each local leaf index.
pub open spec fn member_globals(member: (int, Seq<usize>), fine_count: int) -> Seq<int> {
    member.1.map_values(|leaf: usize| member.0 * fine_count + leaf)
}

/// Global fine-leaf indices of all members, concatenated in member order.
pub open spec fn member_list_globals(members: Seq<(int, Seq<usize>)>, fine_count: int) -> Seq<int>
    decreases members.len(),
{
    if members.len() == 0 {
        Seq::empty()
    } else {
        member_list_globals(members.drop_last(), fine_count) + member_globals(
            members.last(),
            fine_count,
        )
    }
}

/// CSR offsets of the members: zero, then the running count of leaves after
/// each member.
pub open spec fn member_list_offsets(members: Seq<(int, Seq<usize>)>) -> Seq<int>
    decreases members.len(),
{
    if members.len() == 0 {
        seq![0int]
    } else {
        member_list_offsets(members.drop_last()).push(
            member_list_globals(members, 0).len() as int,
        )
    }
}

/// True when every packed index, and the total number of packed leaves, fits
/// in a `u32`.
pub open spec fn packing_fits_u32(lanes: Seq<Seq<Seq<usize>>>, fine_count: int) -> bool {
    let globals = member_list_globals(flat_members(lanes), fine_count);
    &&& globals.len() <= u32::MAX
    &&& forall|k: int| 0 <= k < globals.len() ==> #[trigger] globals[k] <= u32::MAX
}

/// Message reported for the packed index `global` that does not fit a `u32`:
/// an index beyond the address range overflows before it can be narrowed.
pub open spec fn leaf_failure_message(global: int) -> Seq<char> {
    if global > usize::MAX {
        "coupled-fine member index overflow"@
    } else {
        "coupled-fine member index exceeds u32"@
    }
}

/// The failure reported for the first index of `globals` that does not fit
/// a `u32`, if there is one.
pub open spec fn first_wide_leaf(globals: Seq<int>) -> Option<Seq<char>>
    decreases globals.len(),
{
    if globals.len() == 0 {
        None
    } else if globals[0] > u32::MAX {
        Some(leaf_failure_message(globals[0]))
    } else {
        first_wide_leaf(globals.skip(1))
    }
}

/// The failure reported while packing one member whose indices are
/// `globals`, after `packed` leaves were packed before it: a wide index, or
/// an end offset that does not fit a `u32`.
pub open spec fn member_failure(packed: int, globals: Seq<int>) -> Option<Seq<char>> {
    match first_wide_leaf(globals) {
        Some(message) => Some(message),
        None => if packed + globals.len() > u32::MAX {
            Some("coupled-fine mapping exceeds u32"@)
        } else {
            None
        },
    }
}

/// The first failure met when the members are packed in order, if any.
pub open spec fn packing_failure(members: Seq<(int, Seq<usize>)>, fine_count: int) -> Option<
    Seq<char>,
>
    decreases members.len(),
{
    if members.len() == 0 {
        None
    } else {
        match packing_failure(members.drop_last(), fine_count) {
            Some(message) => Some(message),
            None => member_failure(
                member_list_globals(members.drop_last(), fine_count).len() as int,
                member_globals(members.last(), fine_count),
            ),
        }
    }
}

proof fn lemma_first_wide_leaf_at(globals: Seq<int>, p: int)
    requires
        0 <= p < globals.len(),
        globals[p] > u32::MAX,
        forall|j: int| 0 <= j < p ==> globals[j] <= u32::MAX,
    ensures
        first_wide_leaf(globals) == Some(leaf_failure_message(globals[p])),
    decreases p,
{
    if p > 0 {
        lemma_first_wide_leaf_at(globals.skip(1), p - 1);
    }
}

proof fn lemma_first_wide_leaf_none(globals: Seq<int>)
    requires
        forall|j: int| 0 <= j < globals.len() ==> globals[j] <= u32::MAX,
    ensures
        first_wide_leaf(globals) is None,
    decreases globals.len(),
{
    if globals.len() > 0 {
        lemma_first_wide_leaf_none(globals.skip(1));
    }
}

proof fn lemma_packing_failure_extends(members: Seq<(int, Seq<usize>)>, n: int, fine_count: int)
    requires
        0 <= n <= members.len(),
        packing_failure(members.take(n), fine_count) is Some,
    ensures
        packing_failure(members, fine_count) == packing_failure(members.take(n), fine_count),
    decreases members.len(),
{
    if n == members.len() {
        assert(members.take(n) =~= members);
    } else {
        assert(members.drop_last().take(n) =~= members.take(n));
        lemma_packing_failure_extends(members.drop_last(), n, fine_count);
    }
}

proof fn lemma_globals_append(a: Seq<(int, Seq<usize>)>, b: Seq<(int, Seq<usize>)>, fine_count: int)
    ensures
        member_list_globals(a + b, fine_count) == member_list_globals(a, fine_count)
            + member_list_globals(b, fine_count),
    decreases b.len(),
{
    if b.len() == 0 {
        assert(a + b =~= a);
        assert(member_list_globals(a, fine_count) + Seq::<int>::empty() =~= member_list_globals(
            a,
            fine_count,
        ));
    } else {
        assert((a + b).drop_last() =~= a + b.drop_last());
        assert((a + b).last() == b.last());
        lemma_globals_append(a, b.drop_last(), fine_count);
    }
}

proof fn lemma_globals_len_independent(members: Seq<(int, Seq<usize>)>, fine_count: int)
    ensures
        member_list_globals(members, fine_count).len() == member_list_globals(members, 0).len(),
    decreases members.len(),
{
    if members.len() > 0 {
        lemma_globals_len_independent(members.drop_last(), fine_count);
    }
}

proof fn lemma_flat_members_prefix(lanes: Seq<Seq<Seq<usize>>>, n: int)
    requires
        0 <= n <= lanes.len(),
    ensures
        flat_members(lanes.take(n)).len() <= flat_members(lanes).len(),
        flat_members(lanes.take(n)) == flat_members(lanes).take(
            flat_members(lanes.take(n)).len() as int,
        ),
    decreases lanes.len() - n,
{
    if n == lanes.len() {
        assert(lanes.take(n) =~= lanes);
        assert(flat_members(lanes).take(flat_members(lanes).len() as int) =~= flat_members(lanes));
    } else {
        lemma_flat_members_prefix(lanes, n + 1);
        assert(lanes.take(n + 1).drop_last() =~= lanes.take(n));
        let tagged = tag_members(n, lanes[n]);
        let small = flat_members(lanes.take(n));
        let big = flat_members(lanes.take(n + 1));
        assert(big == small + tagged);
        assert(small =~= big.take(small.len() as int));
        assert(flat_members(lanes).take(small.len() as int) =~= big.take(small.len() as int));
    }
}

proof fn lemma_globals_prefix(
    members: Seq<(int, Seq<usize>)>,
    prefix: Seq<(int, Seq<usize>)>,
    fine_count: int,
)
    requires
        prefix.len() <= members.len(),
        prefix == members.take(prefix.len() as int),
    ensures
        member_list_globals(prefix, fine_count).len() <= member_list_globals(members, fine_count).len(),
        forall|k: int|
            0 <= k < member_list_globals(prefix, fine_count).len() ==> #[trigger] member_list_globals(
                prefix,
                fine_count,
            )[k] == member_list_globals(members, fine_count)[k],
{
    let rest = members.skip(prefix.len() as int);
    assert(members =~= prefix + rest);
    lemma_globals_append(prefix, rest, fine_count);
}

proof fn lemma_member_position(
    view: Seq<Seq<Seq<usize>>>,
    lane: int,
    member: int,
    position: int,
    fine: int,
)
    requires
        0 <= lane < view.len(),
        0 <= member < view[lane].len(),
        0 <= position,
    ensures
        ({
            let done = flat_members(view.take(lane)) + tag_members(lane, view[lane].take(member));
            let globals = member_list_globals(flat_members(view), fine);
            let start = member_list_globals(done, fine).len();
            &&& start + view[lane][member].len() <= globals.len()
            &&& position < view[lane][member].len() ==> globals[start + position] == lane * fine
                + view[lane][member][position]
        }),
{
    let done = flat_members(view.take(lane)) + tag_members(lane, view[lane].take(member));
    let current = flat_members(view.take(lane)) + tag_members(lane, view[lane].take(member + 1));
    lemma_current_member_prefix(view, lane, member);
    assert(view[lane].take(member + 1) =~= view[lane].take(member).push(view[lane][member]));
    assert(current =~= done.push((lane, view[lane][member])));
    assert(current.drop_last() =~= done);
    assert(current.last() == (lane, view[lane][member]));
    let tail = member_globals((lane, view[lane][member]), fine);
    assert(member_list_globals(current, fine) == member_list_globals(done, fine) + tail);
    lemma_globals_prefix(flat_members(view), current, fine);
    let start = member_list_globals(done, fine).len();
    if position < view[lane][member].len() {
        assert(tail[position] == lane * fine + view[lane][member][position]);
        assert(member_list_globals(current, fine)[start + position] == tail[position]);
    }
}

proof fn lemma_current_member_prefix(view: Seq<Seq<Seq<usize>>>, lane: int, member: int)
    requires
        0 <= lane < view.len(),
        0 <= member < view[lane].len(),
    ensures
        ({
            let current = flat_members(view.take(lane)) + tag_members(lane, view[lane].take(member + 1));
            &&& current.len() <= flat_members(view).len()
            &&& current == flat_members(view).take(current.len() as int)
        }),
{
    let current = flat_members(view.take(lane)) + tag_members(lane, view[lane].take(member + 1));
    let whole = flat_members(view.take(lane + 1));
    assert(view.take(lane + 1).drop_last() =~= view.take(lane));
    assert(whole == flat_members(view.take(lane)) + tag_members(lane, view[lane]));
    assert(current =~= whole.take(current.len() as int));
    lemma_flat_members_prefix(view, lane + 1);
    assert(current =~= flat_members(view).take(current.len() as int));
}

/// When the members packed so far succeeded, the failure of the member
/// being packed is the first failure of the whole packing.
proof fn lemma_member_failure_reaches_end(view: Seq<Seq<Seq<usize>>>, lane: int, member: int, fine: int)
    requires
        0 <= lane < view.len(),
        0 <= member < view[lane].len(),
        ({
            let done = flat_members(view.take(lane)) + tag_members(lane, view[lane].take(member));
            &&& packing_failure(done, fine) is None
            &&& member_failure(
                member_list_globals(done, fine).len() as int,
                member_globals((lane, view[lane][member]), fine),
            ) is Some
        }),
    ensures
        ({
            let done = flat_members(view.take(lane)) + tag_members(lane, view[lane].take(member));
            packing_failure(flat_members(view), fine) == member_failure(
                member_list_globals(done, fine).len() as int,
                member_globals((lane, view[lane][member]), fine),
            )
        }),
{
    let done = flat_members(view.take(lane)) + tag_members(lane, view[lane].take(member));
    let current = flat_members(view.take(lane)) + tag_members(lane, view[lane].take(member + 1));
    lemma_current_member_prefix(view, lane, member);
    assert(view[lane].take(member + 1) =~= view[lane].take(member).push(view[lane][member]));
    assert(current =~= done.push((lane, view[lane][member])));
    assert(current.drop_last() =~= done);
    lemma_packing_failure_extends(flat_members(view), current.len() as int, fine);
}

/// Packs the coupled-fine member mapping of several lanes into CSR form:
/// `offsets[k]..offsets[k + 1]` delimits, in `leaves`, the global fine-leaf
/// indices (lane block plus local leaf) of the `k`-th member, members being
/// taken lane by lane.
///
/// Packing succeeds exactly when every global index and the total number of
/// leaves fit in a `u32`; otherwise the first index or offset that does not
/// fit is reported.
pub fn pack_members(lanes: &Vec<LaneMembers>, fine_count: usize) -> (result: AutomataResult<
    (Vec<u32>, Vec<u32>),
>)
    ensures
        ({
            let view = lanes@.map_values(|lane: LaneMembers| lane@.map_values(|m: Vec<usize>| m@));
            let members = flat_members(view);
            let globals = member_list_globals(members, fine_count as int);
            let offsets = member_list_offsets(members);
            &&& result is Ok <==> packing_fits_u32(view, fine_count as int)
            &&& result matches Ok((packed_offsets, packed_leaves)) ==> {
                &&& packed_offsets@.len() == offsets.len()
                &&& forall|k: int|
                    0 <= k < offsets.len() ==> packed_offsets@[k] as int == #[trigger] offsets[k]
                &&& packed_leaves@.len() == globals.len()
                &&& forall|k: int|
                    0 <= k < globals.len() ==> packed_leaves@[k] as int == #[trigger] globals[k]
            }
            &&& result matches Err(e) ==> {
                &&& e is InvalidArgument
                &&& packing_failure(members, fine_count as int) == Some(e.text())
            }
        }),
{
    let ghost view = lanes@.map_values(|lane: LaneMembers| lane@.map_values(|m: Vec<usize>| m@));
    let ghost fine = fine_count as int;
    let mut offsets: Vec<u32> = Vec::new();
    let mut leaves: Vec<u32> = Vec::new();
    offsets.push(0);
    let ghost mut done: Seq<(int, Seq<usize>)> = Seq::empty();
    let mut lane: usize = 0;
    while lane < lanes.len()
        invariant
            lane <= lanes@.len(),
            view == lanes@.map_values(|lane: LaneMembers| lane@.map_values(|m: Vec<usize>| m@)),
            fine == fine_count as int,
            done == flat_members(view.take(lane as int)),
            leaves@.len() == member_list_globals(done, fine).len(),
            forall|k: int|
                0 <= k < leaves@.len() ==> leaves@[k] as int == #[trigger] member_list_globals(
                    done,
                    fine,
                )[k],
            offsets@.len() == member_list_offsets(done).len(),
            forall|k: int|
                0 <= k < offsets@.len() ==> offsets@[k] as int == #[trigger] member_list_offsets(
                    done,
                )[k],
            leaves@.len() <= 4294967295,
            packing_failure(done, fine) is None,
        decreases lanes@.len() - lane,
    {
        let data = &lanes[lane];
        let ghost lane_start = done;
        let mut member: usize = 0;
        while member < data.len()
            invariant
                lane < lanes@.len(),
                member <= data@.len(),
                data == lanes@[lane as int],
                view == lanes@.map_values(|lane: LaneMembers| lane@.map_values(|m: Vec<usize>| m@)),
                fine == fine_count as int,
                lane_start == flat_members(view.take(lane as int)),
                done == lane_start + tag_members(lane as int, view[lane as int].take(member as int)),
                leaves@.len() == member_list_globals(done, fine).len(),
                forall|k: int|
                    0 <= k < leaves@.len() ==> leaves@[k] as int == #[trigger] member_list_globals(
                        done,
                        fine,
                    )[k],
                offsets@.len() == member_list_offsets(done).len(),
                forall|k: int|
                    0 <= k < offsets@.len() ==> offsets@[k] as int
                        == #[trigger] member_list_offsets(done)[k],
                leaves@.len() <= 4294967295,
                packing_failure(done, fine) is None,
            decreases data@.len() - member,
        {
            let indices = &data[member];
            let ghost tagged = (lane as int, indices@);
            let ghost before = leaves@;
            let mut leaf_pos: usize = 0;
            while leaf_pos < indices.len()
                invariant
                    leaf_pos <= indices@.len(),
                    fine == fine_count as int,
                    tagged == (lane as int, indices@),
                    before == leaves@.take(before.len() as int),
                    leaves@.len() == before.len() + leaf_pos,
                    forall|k: int|
                        0 <= k < leaf_pos ==> leaves@[before.len() + k] as int == lane * fine
                            + indices@[k],
                    lane < lanes@.len(),
                    member < data@.len(),
                    data == lanes@[lane as int],
                    indices == data@[member as int],
                    view == lanes@.map_values(
                        |lane: LaneMembers| lane@.map_values(|m: Vec<usize>| m@),
                    ),
                    lane_start == flat_members(view.take(lane as int)),
                    done == lane_start + tag_members(
                        lane as int,
                        view[lane as int].take(member as int),
                    ),
                    before.len() == member_list_globals(done, fine).len(),
                    packing_failure(done, fine) is None,
                decreases indices@.len() - leaf_pos,
            {
                let leaf = indices[leaf_pos];
                proof {
                    lemma_member_position(view, lane as int, member as int, leaf_pos as int, fine);
                    assert(view[lane as int][member as int] == indices@);
                }
                let packed = match lane.checked_mul(fine_count) {
                    Some(base) => base.checked_add(leaf),
                    None => None,
                };
                let wide = match packed {
                    Some(global) => global > 4294967295,
                    None => true,
                };
                if wide {
                    let message = match packed {
                        Some(_) => "coupled-fine member index exceeds u32",
                        None => "coupled-fine member index overflow",
                    };
                    proof {
                        let globals = member_globals(tagged, fine);
                        assert(globals[leaf_pos as int] == lane * fine + indices@[leaf_pos as int]);
                        assert forall|j: int| 0 <= j < leaf_pos implies globals[j] <= u32::MAX by {
                            assert(leaves@[before.len() + j] as int == lane * fine + indices@[j]);
                        }
                        lemma_first_wide_leaf_at(globals, leaf_pos as int);
                        assert(message@ == leaf_failure_message(globals[leaf_pos as int]));
                        lemma_member_failure_reaches_end(view, lane as int, member as int, fine);
                    }
                    return Err(invalid_argument(message));
                }
                let global = match packed {
                    Some(global) => global,
                    None => 0,
                };
                leaves.push(global as u32);
                leaf_pos = leaf_pos + 1;
            }
            proof {
                lemma_member_position(view, lane as int, member as int, 0, fine);
                assert(view[lane as int][member as int] == indices@);
            }
            proof {
                let globals = member_globals(tagged, fine);
                assert forall|j: int| 0 <= j < globals.len() implies globals[j] <= u32::MAX by {
                    assert(leaves@[before.len() + j] as int == lane * fine + indices@[j]);
                }
                lemma_first_wide_leaf_none(globals);
            }
            if leaves.len() > 4294967295 {
                proof {
                    lemma_member_failure_reaches_end(view, lane as int, member as int, fine);
                }
                return Err(invalid_argument("coupled-fine mapping exceeds u32"));
            }
            offsets.push(leaves.len() as u32);
            proof {
                let next = lane_start + tag_members(lane as int, view[lane as int].take(member + 1));
                assert(view[lane as int] == data@.map_values(|m: Vec<usize>| m@));
                assert(view[lane as int][member as int] == indices@);
                assert(view[lane as int].take(member + 1) =~= view[lane as int].take(
                    member as int,
                ).push(indices@));
                assert(tag_members(lane as int, view[lane as int].take(member + 1)) =~= tag_members(
                    lane as int,
                    view[lane as int].take(member as int),
                ).push(tagged));
                assert(next =~= done.push(tagged));
                assert(next.drop_last() =~= done);
                assert(next.last() == tagged);
                assert(member_list_globals(next, fine) == member_list_globals(done, fine)
                    + member_globals(tagged, fine));
                assert(leaves@ =~= member_list_globals(next, fine).map_values(|g: int| g as u32))
                    by {
                    assert forall|k: int| 0 <= k < leaves@.len() implies leaves@[k] as int
                        == member_list_globals(next, fine)[k] by {
                        if k < before.len() {
                            assert(leaves@[k] == before[k]);
                        } else {
                            assert(leaves@[k] as int == lane * fine + indices@[k - before.len()]);
                        }
                    }
                }
                lemma_globals_len_independent(next, fine);
                assert(packing_failure(next, fine) is None);
                assert(member_list_offsets(next) == member_list_offsets(done).push(
                    member_list_globals(next, 0).len() as int,
                ));
                done = next;
            }
            member = member + 1;
        }
        proof {
            assert(view[lane as int] == data@.map_values(|m: Vec<usize>| m@));
            assert(view[lane as int].take(data@.len() as int) =~= view[lane as int]);
            assert(view.take(lane + 1).drop_last() =~= view.take(lane as int));
            assert(view.take(lane + 1).last() == view[lane as int]);
        }
        lane = lane + 1;
    }
    proof {
        assert(view.take(lanes@.len() as int) =~= view);
    }
    Ok((offsets, leaves))
}

/// The first `prefix_dims` values of each of the `rows` rows starting at
/// `row_start`, in a buffer with `source_dims` values per row.
pub fn row_prefixes<T: Copy>(
    values: &[T],
    row_start: usize,
    rows: usize,
    source_dims: usize,
    prefix_dims: usize,
) -> (prefixes: Vec<T>)
    requires
        prefix_dims <= source_dims,
        row_start + rows <= usize::MAX,
        rows > 0 ==> (row_start + rows - 1) * source_dims + prefix_dims <= values@.len(),
        rows * prefix_dims <= usize::MAX,
    ensures
        prefixes@.len() == rows * prefix_dims,
        forall|r: int, c: int|
            0 <= r < rows && 0 <= c < prefix_dims ==> prefixes@[flat_index(r, c, prefix_dims as int)]
                == values@[flat_index(row_start + r, c, source_dims as int)],
{
    let mut prefixes: Vec<T> = Vec::new();
    let values_len = values.len();
    let mut r: usize = 0;
    while r < rows
        invariant
            r <= rows,
            prefix_dims <= source_dims,
            row_start + rows <= usize::MAX,
            rows > 0 ==> (row_start + rows - 1) * source_dims + prefix_dims <= values_len,
            values_len == values@.len(),
            rows * prefix_dims <= usize::MAX,
            prefixes@.len() == r * prefix_dims,
            forall|a: int, c: int|
                0 <= a < r && 0 <= c < prefix_dims ==> prefixes@[flat_index(a, c, prefix_dims as int)]
                    == values@[flat_index(row_start + a, c, source_dims as int)],
        decreases rows - r,
    {
        assert((row_start + r) * source_dims <= (row_start + rows - 1) * source_dims)
            by (nonlinear_arith)
            requires
                r < rows,
        ;
        let base = (row_start + r) * source_dims;
        let mut c: usize = 0;
        while c < prefix_dims
            invariant
                c <= prefix_dims,
                r < rows,
                base == (row_start + r) * source_dims,
                base + prefix_dims <= values_len,
                values_len == values@.len(),
                prefixes@.len() == r * prefix_dims + c,
                forall|a: int, d: int|
                    0 <= a < r && 0 <= d < prefix_dims ==> prefixes@[flat_index(
                        a,
                        d,
                        prefix_dims as int,
                    )] == values@[flat_index(row_start + a, d, source_dims as int)],
                forall|d: int|
                    0 <= d < c ==> prefixes@[flat_index(r as int, d, prefix_dims as int)]
                        == values@[flat_index(row_start + r, d, source_dims as int)],
            decreases prefix_dims - c,
        {
            let ghost prior = prefixes@;
            prefixes.push(values[base + c]);
            proof {
                assert forall|a: int, d: int|
                    0 <= a < r && 0 <= d < prefix_dims implies prefixes@[flat_index(
                        a,
                        d,
                        prefix_dims as int,
                    )] == values@[flat_index(row_start + a, d, source_dims as int)] by {
                    assert(a * prefix_dims + d < r * prefix_dims) by (nonlinear_arith)
                        requires
                            a < r,
                            d < prefix_dims,
                    ;
                    assert(prefixes@[flat_index(a, d, prefix_dims as int)] == prior[flat_index(
                        a,
                        d,
                        prefix_dims as int,
                    )]);
                }
            }
            c = c + 1;
        }
        assert((r + 1) * prefix_dims == r * prefix_dims + prefix_dims) by (nonlinear_arith);
        r = r + 1;
    }
    prefixes
}

} // verus!
