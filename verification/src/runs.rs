//! What holds of any sequence of operations on a pool.
use crate::error::Error;
use crate::model::PoolModel;
use vstd::prelude::*;

verus! {

/// An operation, with what it returned.
pub enum Op {
    /// An allocation.
    Alloc(Result<usize, Error>),
    /// A release of an ID.
    Release(usize, Result<(), Error>),
}

/// The operation `op` takes the state `pre` to `post`.
pub open spec fn step(pre: PoolModel, op: Op, post: PoolModel) -> bool {
    match op {
        Op::Alloc(r) => pre.alloc_step(r, post),
        Op::Release(id, r) => pre.release_step(id, r, post),
    }
}

/// The operations `ops`, one after the other, lead through `states`, from a valid
/// first state.
pub open spec fn is_run(states: Seq<PoolModel>, ops: Seq<Op>) -> bool {
    &&& states.len() == ops.len() + 1
    &&& states[0].valid()
    &&& forall|k: int| 0 <= k < ops.len() ==> step(states[k], #[trigger] ops[k], states[k + 1])
}

/// The operation hands out `id`.
pub open spec fn hands_out(op: Op, id: usize) -> bool {
    op == Op::Alloc(Ok(id))
}

/// The operation takes `id` back.
pub open spec fn takes_back(op: Op, id: usize) -> bool {
    op matches Op::Release(released, r) && released == id && r is Ok
}

/// Whatever is done to a pool, it stays valid: the IDs that are handed out lie in
/// `[0, n)`, and at least as many IDs are free as the watermark says. Capacity and
/// watermark never change.
pub proof fn run_stays_valid(states: Seq<PoolModel>, ops: Seq<Op>, k: int)
    requires
        is_run(states, ops),
        0 <= k <= ops.len(),
    ensures
        states[k].valid(),
        states[k].capacity - states[k].allocated.len() >= states[k].watermark,
        states[k].capacity == states[0].capacity,
        states[k].watermark == states[0].watermark,
    decreases k,
{
    if k > 0 {
        run_stays_valid(states, ops, k - 1);
        match ops[k - 1] {
            Op::Alloc(r) => crate::laws::alloc_keeps_valid(states[k - 1], r, states[k]),
            Op::Release(id, r) => crate::laws::release_keeps_valid(states[k - 1], id, r, states[k]),
        }
    }
}

/// Any valid state begins a run.
pub proof fn run_starts_anywhere(pool: PoolModel)
    requires
        pool.valid(),
    ensures
        is_run(seq![pool], Seq::empty()),
{
}

/// Any allocation and any release continues a run.
pub proof fn run_goes_on(
    states: Seq<PoolModel>,
    ops: Seq<Op>,
    id: usize,
    granted: Result<usize, Error>,
    released: Result<(), Error>,
    post: PoolModel,
)
    requires
        is_run(states, ops),
    ensures
        states.last().alloc_step(granted, post) ==> is_run(states.push(post), ops.push(Op::Alloc(granted))),
        states.last().release_step(id, released, post) ==> is_run(
            states.push(post),
            ops.push(Op::Release(id, released)),
        ),
{
    let longer = states.push(post);
    assert forall|k: int| 0 <= k < ops.len() implies step(longer[k], #[trigger] ops[k], longer[k + 1]) by {}
}

/// Every ID that a run hands out is one of `[0, n)`, and every allocation it refuses
/// is `PoolFull`.
pub proof fn run_hands_out_managed_ids(states: Seq<PoolModel>, ops: Seq<Op>, k: int)
    requires
        is_run(states, ops),
        0 <= k < ops.len(),
    ensures
        ops[k] matches Op::Alloc(Ok(id)) ==> id < states[0].capacity && !states[k].allocated.contains(id as int),
        ops[k] matches Op::Alloc(Err(e)) ==> e == Error::PoolFull,
{
    run_stays_valid(states, ops, k);
    assert(step(states[k], ops[k], states[k + 1]));
}

/// In any run, a release is granted exactly where its ID is in use; it is refused as
/// `OutOfRange` for an ID outside `[0, n)`, and as `NotAllocated` for any other.
pub proof fn run_releases_held_ids(states: Seq<PoolModel>, ops: Seq<Op>, k: int)
    requires
        is_run(states, ops),
        0 <= k < ops.len(),
    ensures
        ops[k] matches Op::Release(id, r) ==> {
            &&& r is Ok <==> states[k].allocated.contains(id as int)
            &&& r == Err::<(), Error>(Error::OutOfRange) <==> id >= states[0].capacity
            &&& r == Err::<(), Error>(Error::NotAllocated) <==> id < states[0].capacity
                && !states[k].allocated.contains(id as int)
        },
{
    run_stays_valid(states, ops, k);
    assert(step(states[k], ops[k], states[k + 1]));
}

/// No ID has two holders: between two allocations that hand out the same ID there
/// is a release that takes it back.
pub proof fn no_id_handed_out_twice(states: Seq<PoolModel>, ops: Seq<Op>, i: int, j: int, id: usize)
    requires
        is_run(states, ops),
        0 <= i < j < ops.len(),
        ops[i] == Op::Alloc(Ok(id)),
        ops[j] == Op::Alloc(Ok(id)),
    ensures
        exists|k: int| i < k < j && (#[trigger] ops[k] matches Op::Release(released, Ok(_)) && released == id),
{
    if forall|k: int| i < k < j ==> !#[trigger] takes_back(ops[k], id) {
        lemma_held_until_released(states, ops, i, j, id);
    }
    let k = choose|k: int| i < k < j && #[trigger] takes_back(ops[k], id);
    assert(ops[k] matches Op::Release(released, Ok(_)) && released == id);
}

/// An ID comes round again only after every other ID had its turn: from one
/// allocation that hands out an ID to the next that does, each other ID is in use
/// at some time.
pub proof fn reuse_waits_a_round(states: Seq<PoolModel>, ops: Seq<Op>, i: int, j: int, id: usize, other: int)
    requires
        is_run(states, ops),
        0 <= i < j < ops.len(),
        ops[i] == Op::Alloc(Ok(id)),
        ops[j] == Op::Alloc(Ok(id)),
        0 <= other < states[0].capacity,
        other != id,
    ensures
        exists|k: int| i < k <= j && (#[trigger] states[k]).allocated.contains(other),
{
    assert(states[0].in_range(other));
    let m = lemma_first_return(ops, i, j, id);
    lemma_swept(states, ops, i, m, id);
    run_stays_valid(states, ops, m);
    if !seen(states, i, m, other) {
        let pre = states[m];
        assert(pre.is_next_free(id as int));
        assert(!states[m].allocated.contains(other));
        assert(pre.is_free(other));
        assert(past(pre, id as int, other) >= past(pre, id as int, pre.next));
    }
    let k = choose|k: int| i < k <= m && (#[trigger] states[k]).allocated.contains(other);
    assert(states[k].allocated.contains(other));
}

/// An ID that stays free is not passed over for long: while it waits, no more
/// allocations are granted than there are IDs between the scan pointer and it.
pub proof fn free_id_is_reached(states: Seq<PoolModel>, ops: Seq<Op>, i: int, j: int, waiting: int)
    requires
        is_run(states, ops),
        0 <= i <= j <= ops.len(),
        0 <= waiting < states[0].capacity,
        forall|k: int| i <= k <= j ==> !(#[trigger] states[k]).allocated.contains(waiting),
    ensures
        grants(ops, i, j) <= states[i].ahead(waiting),
{
    assert forall|k: int| i <= k <= j implies (#[trigger] states[k]).is_free(waiting) by {
        run_stays_valid(states, ops, k);
    }
    lemma_grants_approach(states, ops, i, j, waiting);
    run_stays_valid(states, ops, j);
    assert(states[j].is_free(waiting));
}

/// A new pool hands out `0, 1, 2, ...` in order, as long as nothing is released,
/// until the watermark is reached; from then on every allocation is refused.
pub proof fn fresh_pool_counts_up(states: Seq<PoolModel>, ops: Seq<Op>, k: int)
    requires
        is_run(states, ops),
        states[0].next == 0,
        states[0].allocated == Set::<int>::empty(),
        forall|m: int| 0 <= m < ops.len() ==> #[trigger] ops[m] is Alloc,
        0 <= k < ops.len(),
    ensures
        k < states[0].capacity - states[0].watermark ==> (ops[k] matches Op::Alloc(Ok(id)) && id == k),
        k >= states[0].capacity - states[0].watermark ==> ops[k] == Op::Alloc(Err(Error::PoolFull)),
{
    lemma_counted_up(states, ops, k);
    run_stays_valid(states, ops, k);
    let pre = states[k];
    let first = states[0];
    assert(ops[k] is Alloc);
    let count = if k < first.capacity - first.watermark { k } else { first.capacity - first.watermark };
    vstd::set_lib::lemma_int_range(0, count);
    if k < first.capacity - first.watermark {
        assert(pre.is_free(k));
    }
}

/// How many allocations are granted from `ops[i]` up to and without `ops[j]`.
pub open spec fn grants(ops: Seq<Op>, i: int, j: int) -> nat
    decreases j - i,
{
    if j <= i {
        0
    } else if ops[j - 1] matches Op::Alloc(Ok(_)) {
        grants(ops, i, j - 1) + 1
    } else {
        grants(ops, i, j - 1)
    }
}

/// `other` is in use in one of the states after `ops[i]`, up to `states[k]`.
spec fn seen(states: Seq<PoolModel>, i: int, k: int, other: int) -> bool {
    exists|m: int| i < m <= k && (#[trigger] states[m]).allocated.contains(other)
}

/// How many steps up, wrapping at the capacity, lead from behind `id` to `other`.
spec fn past(pool: PoolModel, id: int, other: int) -> int {
    if id < other {
        other - id - 1
    } else {
        other - id - 1 + pool.capacity
    }
}

/// An ID stays handed out until it is taken back.
proof fn lemma_held_until_released(states: Seq<PoolModel>, ops: Seq<Op>, i: int, j: int, id: usize)
    requires
        is_run(states, ops),
        0 <= i < j <= ops.len(),
        hands_out(ops[i], id),
        forall|k: int| i < k < j ==> !#[trigger] takes_back(ops[k], id),
    ensures
        states[j].allocated.contains(id as int),
    decreases j - i,
{
    if j > i + 1 {
        lemma_held_until_released(states, ops, i, j - 1, id);
        assert(!takes_back(ops[j - 1], id));
    }
    assert(step(states[j - 1], ops[j - 1], states[j]));
}

/// The first operation after `ops[i]` that hands out `id`.
proof fn lemma_first_return(ops: Seq<Op>, i: int, j: int, id: usize) -> (m: int)
    requires
        0 <= i < j < ops.len(),
        hands_out(ops[j], id),
    ensures
        i < m <= j,
        hands_out(ops[m], id),
        forall|k: int| i < k < m ==> !#[trigger] hands_out(ops[k], id),
    decreases j - i,
{
    if forall|k: int| i < k < j ==> !#[trigger] hands_out(ops[k], id) {
        j
    } else {
        let earlier = choose|k: int| i < k < j && #[trigger] hands_out(ops[k], id);
        lemma_first_return(ops, i, earlier, id)
    }
}

/// After `id` was handed out and until it is again, every other ID that the scan
/// pointer has passed was in use at some time.
proof fn lemma_swept(states: Seq<PoolModel>, ops: Seq<Op>, i: int, k: int, id: usize)
    requires
        is_run(states, ops),
        0 <= i < k <= ops.len(),
        hands_out(ops[i], id),
        forall|m: int| i < m < k ==> !#[trigger] hands_out(ops[m], id),
    ensures
        (forall|other: int| #[trigger] states[0].in_range(other) && other != id ==> seen(states, i, k, other)) || (
        forall|other: int| #[trigger]
            states[0].in_range(other) && past(states[0], id as int, other) < past(states[0], id as int, states[k].next)
                ==> seen(states, i, k, other)),
    decreases k - i,
{
    let first = states[0];
    let pre = states[k - 1];
    run_stays_valid(states, ops, k - 1);
    run_stays_valid(states, ops, k);
    assert(step(pre, ops[k - 1], states[k]));
    if k == i + 1 {
        crate::laws::lemma_pointer_moves(pre, id as int);
        assert(past(first, id as int, states[k].next) == 0);
    } else {
        lemma_swept(states, ops, i, k - 1, id);
        assert(!hands_out(ops[k - 1], id));
        assert forall|other: int| seen(states, i, k - 1, other) implies seen(states, i, k, other) by {
            let m = choose|m: int| i < m <= k - 1 && (#[trigger] states[m]).allocated.contains(other);
            assert(states[m].allocated.contains(other));
        }
        if let Op::Alloc(Ok(x)) = ops[k - 1] {
            crate::laws::lemma_pointer_moves(pre, x as int);
            assert(states[k].allocated.contains(x as int));
            assert(seen(states, i, k, x as int));
            // What lies between the pointer and the ID handed out is handed out already.
            assert forall|other: int| #[trigger]
                first.in_range(other) && pre.ahead(other) < pre.ahead(x as int) implies seen(states, i, k, other) by {
                assert(!pre.is_free(other));
                assert(states[k - 1].allocated.contains(other));
            }
        }
    }
}

/// Each granted allocation brings the scan pointer nearer to an ID that stays free.
proof fn lemma_grants_approach(states: Seq<PoolModel>, ops: Seq<Op>, i: int, j: int, waiting: int)
    requires
        is_run(states, ops),
        0 <= i <= j <= ops.len(),
        forall|k: int| i <= k <= j ==> (#[trigger] states[k]).is_free(waiting),
    ensures
        grants(ops, i, j) + states[j].ahead(waiting) <= states[i].ahead(waiting),
    decreases j - i,
{
    if i < j {
        lemma_grants_approach(states, ops, i, j - 1, waiting);
        run_stays_valid(states, ops, j - 1);
        let pre = states[j - 1];
        assert(step(pre, ops[j - 1], states[j]));
        assert(pre.is_free(waiting) && states[j].is_free(waiting));
        if let Op::Alloc(Ok(id)) = ops[j - 1] {
            crate::laws::alloc_approaches_free_ids(pre, id, states[j], waiting);
        }
    }
}

/// After `k` allocations from a new pool the lowest IDs are handed out.
proof fn lemma_counted_up(states: Seq<PoolModel>, ops: Seq<Op>, k: int)
    requires
        is_run(states, ops),
        states[0].next == 0,
        states[0].allocated == Set::<int>::empty(),
        forall|m: int| 0 <= m < ops.len() ==> #[trigger] ops[m] is Alloc,
        0 <= k <= ops.len(),
    ensures
        ({
            let room = states[0].capacity - states[0].watermark;
            let count = if k < room { k } else { room };
            &&& states[k].allocated == vstd::set_lib::set_int_range(0, count)
            &&& states[k].next == if count == states[0].capacity { 0 } else { count }
        }),
    decreases k,
{
    let room = states[0].capacity - states[0].watermark;
    if k == 0 {
        assert(states[0].allocated =~= vstd::set_lib::set_int_range(0, 0));
    } else {
        lemma_counted_up(states, ops, k - 1);
        run_stays_valid(states, ops, k - 1);
        let pre = states[k - 1];
        let count = if k - 1 < room { k - 1 } else { room };
        vstd::set_lib::lemma_int_range(0, count);
        assert(step(pre, ops[k - 1], states[k]) && ops[k - 1] is Alloc);
        if k - 1 < room {
            assert(pre.is_free(k - 1));
            crate::laws::lemma_pointer_moves(pre, k - 1);
            assert(vstd::set_lib::set_int_range(0, k - 1).insert(k - 1) =~= vstd::set_lib::set_int_range(0, k));
        }
    }
}

} // verus!
