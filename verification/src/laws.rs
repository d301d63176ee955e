//! What holds across the operations of a pool, stated of its mathematical state.
use crate::error::Error;
use crate::model::PoolModel;
use crate::pool::IdPool;
use vstd::prelude::*;

verus! {

/// A new pool is valid.
pub proof fn fresh_is_valid(capacity: nat, watermark: nat)
    requires
        watermark < capacity,
    ensures
        PoolModel::fresh(capacity, watermark).valid(),
{
}

/// A new pool manages as many IDs as were asked for and holds back as many as were
/// asked for; none is handed out, and the scan starts at 0.
pub proof fn fresh_keeps_its_parameters(capacity: nat, watermark: nat)
    ensures
        PoolModel::fresh(capacity, watermark).capacity == capacity,
        PoolModel::fresh(capacity, watermark).watermark == watermark,
        PoolModel::fresh(capacity, watermark).next == 0,
        forall|id: int| !PoolModel::fresh(capacity, watermark).allocated.contains(id),
        PoolModel::fresh(capacity, watermark).allocated.len() == 0,
{
}

/// What validity says: fewer IDs are held back than there are, the scan pointer
/// stands on one of them, only they are handed out, and no more than the watermark
/// allows.
pub proof fn valid_pools_are_bounded(pool: PoolModel)
    ensures
        pool.valid() <==> {
            &&& pool.watermark < pool.capacity
            &&& 0 <= pool.next < pool.capacity
            &&& pool.allocated.finite()
            &&& forall|id: int| #[trigger] pool.allocated.contains(id) ==> 0 <= id < pool.capacity
            &&& pool.allocated.len() <= pool.capacity - pool.watermark
        },
{
    if pool.valid() {
        assert forall|id: int| #[trigger] pool.allocated.contains(id) implies 0 <= id < pool.capacity by {
            assert(pool.in_range(id));
        }
    }
}

/// An allocation is granted if and only if more IDs are free than are held back.
pub proof fn alloc_granted_while_room(pre: PoolModel, r: Result<usize, Error>, post: PoolModel)
    requires
        pre.alloc_step(r, post),
    ensures
        r is Ok <==> pre.capacity - pre.allocated.len() > pre.watermark,
{
}

/// A refused allocation is always `PoolFull`, in whatever state; it leaves the pool
/// as it was.
pub proof fn refused_alloc_is_pool_full(pre: PoolModel, e: Error, post: PoolModel)
    requires
        pre.alloc_step(Err(e), post),
    ensures
        e == Error::PoolFull,
        post == pre,
        pre.capacity - pre.allocated.len() <= pre.watermark,
{
}

/// A granted allocation hands out the first ID that is not in use, counting up from
/// the scan pointer and, past the last ID, on from 0.
pub proof fn alloc_scans_upward(pre: PoolModel, id: usize, post: PoolModel)
    requires
        pre.valid(),
        pre.alloc_step(Ok(id), post),
    ensures
        id < pre.capacity,
        !pre.allocated.contains(id as int),
        forall|passed: int| pre.next <= passed < id ==> pre.allocated.contains(passed),
        id < pre.next ==> forall|passed: int|
            pre.next <= passed < pre.capacity || 0 <= passed < id ==> pre.allocated.contains(passed),
{
    assert forall|passed: int| pre.next <= passed < id implies pre.allocated.contains(passed) by {
        assert(!pre.is_free(passed));
    }
    if id < pre.next {
        assert forall|passed: int| pre.next <= passed < pre.capacity || 0 <= passed < id implies pre.allocated.contains(
            passed,
        ) by {
            assert(!pre.is_free(passed));
        }
    }
}

/// A granted allocation leaves the scan pointer on the ID behind the one handed out,
/// or on 0 behind the last; capacity and watermark stay.
pub proof fn alloc_moves_pointer_behind(pre: PoolModel, id: usize, post: PoolModel)
    requires
        pre.valid(),
        pre.alloc_step(Ok(id), post),
    ensures
        post.next == if id + 1 == pre.capacity { 0 } else { id + 1 },
        post.allocated == pre.allocated.insert(id as int),
        post.capacity == pre.capacity,
        post.watermark == pre.watermark,
{
    lemma_pointer_moves(pre, id as int);
}

/// Every ID in use can be released, wherever the scan pointer stands, and is then
/// the only one that changed.
pub proof fn held_id_can_be_released(pre: PoolModel, id: usize, r: Result<(), Error>, post: PoolModel)
    requires
        pre.valid(),
        pre.allocated.contains(id as int),
        pre.release_step(id, r, post),
    ensures
        r is Ok,
        post.allocated == pre.allocated.remove(id as int),
        post.next == pre.next,
        post.capacity == pre.capacity,
        post.watermark == pre.watermark,
{
}

/// Releasing an ID that the pool does not manage is `OutOfRange`, and changes
/// nothing.
pub proof fn foreign_id_is_out_of_range(pre: PoolModel, id: usize, r: Result<(), Error>, post: PoolModel)
    requires
        pre.valid(),
        id >= pre.capacity,
        pre.release_step(id, r, post),
    ensures
        r == Err::<(), Error>(Error::OutOfRange),
        post == pre,
{
}

/// Releasing an ID of the pool that is not in use is `NotAllocated`, and changes
/// nothing.
pub proof fn unused_id_is_not_allocated(pre: PoolModel, id: usize, r: Result<(), Error>, post: PoolModel)
    requires
        pre.valid(),
        id < pre.capacity,
        !pre.allocated.contains(id as int),
        pre.release_step(id, r, post),
    ensures
        r == Err::<(), Error>(Error::NotAllocated),
        post == pre,
{
}

/// Going up from the scan pointer by the distance to an ID, wrapping at the
/// capacity, leads to that ID, and in less than a round.
pub proof fn ahead_leads_to_the_id(pool: PoolModel, id: int)
    requires
        pool.valid(),
        0 <= id < pool.capacity,
    ensures
        0 <= pool.ahead(id) < pool.capacity,
        (pool.next + pool.ahead(id)) % (pool.capacity as int) == id,
{
    vstd::arithmetic::div_mod::lemma_small_mod(id as nat, pool.capacity);
    if id < pool.next {
        vstd::arithmetic::div_mod::lemma_mod_add_multiples_vanish(id, pool.capacity as int);
    }
}

/// What [`IdPool::new`] returns: a pool exactly where fewer IDs are to be held back
/// than there are, and one that manages the `n` IDs asked for, holds back the `m`
/// asked for, has handed out none and starts to scan at 0.
pub proof fn new_pool_is_as_asked(n: usize, m: usize, r: Option<IdPool>)
    requires
        call_ensures(IdPool::new, (n, m), r),
    ensures
        r is Some <==> m < n,
        r matches Some(pool) ==> {
            &&& pool.wf()
            &&& pool@.capacity == n
            &&& pool@.watermark == m
            &&& pool@.next == 0
            &&& forall|id: int| !pool@.allocated.contains(id)
        },
{
}

/// What the observers of one pool return: the parameters, and counts and answers that
/// agree with the set of IDs in use.
pub proof fn observers_agree(
    pool: IdPool,
    capacity: usize,
    watermark: usize,
    allocated: usize,
    free: usize,
    id: usize,
    used: bool,
)
    requires
        pool.wf(),
        call_ensures(IdPool::capacity, (&pool,), capacity),
        call_ensures(IdPool::watermark, (&pool,), watermark),
        call_ensures(IdPool::allocated, (&pool,), allocated),
        call_ensures(IdPool::free, (&pool,), free),
        call_ensures(IdPool::is_allocated, (&pool, id), used),
    ensures
        capacity == pool@.capacity,
        watermark == pool@.watermark,
        allocated == pool@.allocated.len(),
        allocated + free == capacity,
        watermark <= free,
        used <==> pool@.allocated.contains(id as int),
        id >= capacity ==> !used,
        used ==> allocated > 0,
{
    pool.lemma_valid();
    if used && allocated == 0 {
        assert(pool@.allocated =~= Set::empty());
    }
}

/// What a call of [`IdPool::allocate`] does. It is granted exactly while more IDs are
/// free than the watermark, and otherwise answers `PoolFull` and changes nothing. A
/// granted one hands out the first ID not in use, counting up from the scan pointer
/// and on from 0, marks that ID alone, and leaves the pointer behind it.
pub proof fn allocate_takes_first_free_id(pool: &mut IdPool, r: Result<usize, Error>)
    requires
        old(pool).wf(),
        call_ensures(IdPool::allocate, (pool,), r),
    ensures
        final(pool).wf(),
        final(pool)@.capacity == old(pool)@.capacity,
        final(pool)@.watermark == old(pool)@.watermark,
        r is Ok <==> old(pool)@.capacity - old(pool)@.allocated.len() > old(pool)@.watermark,
        r is Err ==> r == Err::<usize, Error>(Error::PoolFull) && final(pool)@ == old(pool)@,
        r matches Ok(id) ==> {
            &&& id < old(pool)@.capacity
            &&& !old(pool)@.allocated.contains(id as int)
            &&& final(pool)@.allocated.contains(id as int)
            &&& forall|other: int|
                other != id ==> final(pool)@.allocated.contains(other) == old(pool)@.allocated.contains(other)
            &&& forall|passed: int| old(pool)@.next <= passed < id ==> old(pool)@.allocated.contains(passed)
            &&& id < old(pool)@.next ==> forall|passed: int|
                old(pool)@.next <= passed < old(pool)@.capacity || 0 <= passed < id ==> old(pool)@.allocated.contains(
                    passed,
                )
            &&& final(pool)@.next == if id + 1 == old(pool)@.capacity { 0 } else { id + 1 }
        },
{
}

/// What a call of [`IdPool::release`] does. It is granted exactly for an ID in use,
/// wherever the scan pointer stands, and then frees that ID alone; an ID outside
/// `[0, n)` is `OutOfRange` and any other `NotAllocated`, and nothing changes. The
/// pointer never moves.
pub proof fn release_frees_a_held_id(pool: &mut IdPool, id: usize, r: Result<(), Error>)
    requires
        old(pool).wf(),
        call_ensures(IdPool::release, (pool, id), r),
    ensures
        final(pool).wf(),
        final(pool)@.capacity == old(pool)@.capacity,
        final(pool)@.watermark == old(pool)@.watermark,
        final(pool)@.next == old(pool)@.next,
        r is Ok <==> old(pool)@.allocated.contains(id as int),
        r == Err::<(), Error>(Error::OutOfRange) <==> id >= old(pool)@.capacity,
        r == Err::<(), Error>(Error::NotAllocated) <==> id < old(pool)@.capacity && !old(pool)@.allocated.contains(
            id as int,
        ),
        !final(pool)@.allocated.contains(id as int),
        forall|other: int|
            other != id ==> final(pool)@.allocated.contains(other) == old(pool)@.allocated.contains(other),
{
    old(pool).lemma_valid();
}

/// The default pool manages the single ID 0, holds back none and has handed out none.
pub proof fn default_pool_has_one_id(pool: IdPool)
    requires
        call_ensures(<IdPool as Default>::default, (), pool),
    ensures
        pool.wf(),
        pool@.capacity == 1,
        pool@.watermark == 0,
        pool@.next == 0,
        !pool@.allocated.contains(0),
{
}

/// A debug print shows the parameters, the two counts and the scan pointer, in this
/// order and under these labels.
pub proof fn debug_print_shows_the_state(pool: IdPool, r: [(&'static str, usize); 5])
    requires
        pool.wf(),
        call_ensures(IdPool::debug_fields, (&pool,), r),
    ensures
        r[0].0@ == "capacity"@ && r[0].1 == pool@.capacity,
        r[1].0@ == "watermark"@ && r[1].1 == pool@.watermark,
        r[2].0@ == "allocated"@ && r[2].1 == pool@.allocated.len(),
        r[3].0@ == "free"@ && r[2].1 + r[3].1 == pool@.capacity,
        r[4].0@ == "next_id"@ && r[4].1 == pool@.next,
{
}

/// A block that has an ID which is not in use is reported to have one, and only
/// such a block is.
pub proof fn open_blocks_are_reported(pool: IdPool, block: usize, id: usize, reported: bool, used: bool)
    requires
        pool.wf(),
        call_ensures(IdPool::block_has_free, (&pool, block), reported),
        call_ensures(IdPool::is_allocated, (&pool, id), used),
        id < pool@.capacity,
        id / 64 == block,
    ensures
        !used ==> reported,
        reported ==> exists|other: int|
            64 * block <= other < 64 * block + 64 && other < pool@.capacity && !#[trigger] pool@.allocated.contains(other),
{
    if !used {
        assert(!pool@.allocated.contains(id as int));
    }
}

/// Each error describes itself by its own text.
pub proof fn errors_describe_themselves(e: Error, s: String)
    requires
        call_ensures(Error::to_string, (&e,), s),
    ensures
        s@ == e.text(),
        s@ == match e {
            Error::PoolFull => "pool is at watermark"@,
            Error::OutOfRange => "id out of range"@,
            Error::NotAllocated => "id not allocated"@,
        },
{
}

/// Allocation keeps a pool valid: in particular it never lets the number of free
/// IDs fall below the watermark, and it changes neither capacity nor watermark.
pub proof fn alloc_keeps_valid(pre: PoolModel, r: Result<usize, Error>, post: PoolModel)
    requires
        pre.valid(),
        pre.alloc_step(r, post),
    ensures
        post.valid(),
        post.capacity - post.allocated.len() >= post.watermark,
        post.capacity == pre.capacity,
        post.watermark == pre.watermark,
{
    if let Ok(id) = r {
        lemma_pointer_moves(pre, id as int);
    }
}

/// Release keeps a pool valid, and changes neither capacity, watermark nor the
/// scan pointer.
pub proof fn release_keeps_valid(pre: PoolModel, id: usize, r: Result<(), Error>, post: PoolModel)
    requires
        pre.valid(),
        pre.release_step(id, r, post),
    ensures
        post.valid(),
        post.capacity - post.allocated.len() >= post.watermark,
        post.capacity == pre.capacity,
        post.watermark == pre.watermark,
        post.next == pre.next,
{
}

/// While an ID is free there is a next one to hand out, and it is unique.
pub proof fn next_free_exists_once(pool: PoolModel)
    requires
        pool.valid(),
        pool.allocated.len() < pool.capacity,
    ensures
        exists|id: int| #[trigger] pool.is_next_free(id),
        forall|a: int, b: int| #[trigger] pool.is_next_free(a) && #[trigger] pool.is_next_free(b) ==> a == b,
{
    assert(exists|id: int| pool.is_free(id)) by {
        let all = vstd::set_lib::set_int_range(0, pool.capacity as int);
        vstd::set_lib::lemma_int_range(0, pool.capacity as int);
        if forall|id: int| !pool.is_free(id) {
            assert forall|id: int| all.contains(id) implies pool.allocated.contains(id) by {
                assert(!pool.is_free(id));
            }
            vstd::set_lib::lemma_len_subset(all, pool.allocated);
        }
    }
    let start = choose|id: int| pool.is_free(id);
    lemma_nearest_free(pool, start);
}

/// What an allocation returns and leaves behind is determined by the state
/// before it.
pub proof fn alloc_is_deterministic(
    pre: PoolModel,
    r1: Result<usize, Error>,
    post1: PoolModel,
    r2: Result<usize, Error>,
    post2: PoolModel,
)
    requires
        pre.valid(),
        pre.alloc_step(r1, post1),
        pre.alloc_step(r2, post2),
    ensures
        r1 == r2,
        post1 == post2,
{
    if pre.has_room() {
        next_free_exists_once(pre);
    }
}

/// What a release returns and leaves behind is determined by the state before it
/// and the ID.
pub proof fn release_is_deterministic(
    pre: PoolModel,
    id: usize,
    r1: Result<(), Error>,
    post1: PoolModel,
    r2: Result<(), Error>,
    post2: PoolModel,
)
    requires
        pre.valid(),
        pre.release_step(id, r1, post1),
        pre.release_step(id, r2, post2),
    ensures
        r1 == r2,
        post1 == post2,
{
    match (r1, r2) {
        (Ok(u1), Ok(u2)) => assert(u1 == u2),
        _ => {},
    }
}

/// A granted allocation hands out an ID of `[0, n)` that nobody has, takes one
/// from the free count, and leaves every other ID as it was.
pub proof fn alloc_takes_one(pre: PoolModel, id: usize, post: PoolModel)
    requires
        pre.valid(),
        pre.alloc_step(Ok(id), post),
    ensures
        pre.is_free(id as int),
        0 <= id < pre.capacity,
        !pre.allocated.contains(id as int),
        post.allocated.contains(id as int),
        post.allocated.len() == pre.allocated.len() + 1,
        post.free() == pre.free() - 1,
        forall|other: int| other != id ==> post.allocated.contains(other) == pre.allocated.contains(other),
{
}

/// A granted release makes the ID free, adds one to the free count, and leaves
/// every other ID as it was.
pub proof fn release_frees_one(pre: PoolModel, id: usize, post: PoolModel)
    requires
        pre.valid(),
        pre.release_step(id, Ok(()), post),
    ensures
        post.is_free(id as int),
        0 <= id < post.capacity,
        !post.allocated.contains(id as int),
        post.allocated.len() == pre.allocated.len() - 1,
        post.free() == pre.free() + 1,
        forall|other: int| other != id ==> post.allocated.contains(other) == pre.allocated.contains(other),
{
}

/// Handed-out and free IDs make up the capacity, and the free ones are never fewer
/// than the watermark.
pub proof fn counts_add_up(pool: PoolModel)
    requires
        pool.valid(),
    ensures
        pool.allocated.len() + pool.free() == pool.capacity,
        pool.watermark <= pool.free() <= pool.capacity,
{
}

/// A block is passed over exactly when it is full: when every ID of the pool in it
/// is handed out, also where the pool ends within the block.
pub proof fn closed_block_is_full(pool: PoolModel, block: int)
    ensures
        !pool.block_open(block) <==> forall|id: int|
            64 * block <= id < 64 * block + 64 && 0 <= id < pool.capacity ==> #[trigger] pool.allocated.contains(id),
{
    if !pool.block_open(block) {
        assert forall|id: int|
            64 * block <= id < 64 * block + 64 && 0 <= id
                < pool.capacity implies #[trigger] pool.allocated.contains(id) by {
            assert(!pool.is_free(id));
        }
    }
}

/// An operation that is refused leaves the pool as it was.
pub proof fn refusal_changes_nothing(pre: PoolModel, id: usize, e: Error, post: PoolModel)
    ensures
        pre.alloc_step(Err(e), post) ==> post == pre,
        pre.release_step(id, Err(e), post) ==> post == pre,
{
}

/// After a release the next allocation is granted.
pub proof fn release_makes_room(
    pre: PoolModel,
    id: usize,
    mid: PoolModel,
    r: Result<usize, Error>,
    post: PoolModel,
)
    requires
        pre.valid(),
        pre.release_step(id, Ok(()), mid),
        mid.alloc_step(r, post),
    ensures
        r is Ok,
{
}

/// The order in which two IDs are released does not matter.
pub proof fn releases_commute(
    pre: PoolModel,
    a: usize,
    b: usize,
    after_a: PoolModel,
    after_ab: PoolModel,
    after_b: PoolModel,
    after_ba: PoolModel,
)
    requires
        pre.release_step(a, Ok(()), after_a),
        after_a.release_step(b, Ok(()), after_ab),
        pre.release_step(b, Ok(()), after_b),
        after_b.release_step(a, Ok(()), after_ba),
    ensures
        after_ab == after_ba,
{
    assert(pre.allocated.remove(a as int).remove(b as int) =~= pre.allocated.remove(b as int).remove(a as int));
}

/// An ID just allocated can be released, and then the same IDs are handed out as
/// before; only the scan pointer stays behind the ID.
pub proof fn release_undoes_alloc(
    pre: PoolModel,
    id: usize,
    mid: PoolModel,
    r: Result<(), Error>,
    post: PoolModel,
)
    requires
        pre.valid(),
        pre.alloc_step(Ok(id), mid),
        mid.release_step(id, r, post),
    ensures
        r is Ok,
        post == (PoolModel { next: (id + 1) % (pre.capacity as int), ..pre }),
{
    assert(pre.allocated.insert(id as int).remove(id as int) =~= pre.allocated);
}

/// An ID that was released cannot be released again: the second release is
/// refused and changes nothing.
pub proof fn double_release_is_refused(
    pre: PoolModel,
    id: usize,
    mid: PoolModel,
    r: Result<(), Error>,
    post: PoolModel,
)
    requires
        pre.valid(),
        pre.release_step(id, Ok(()), mid),
        mid.release_step(id, r, post),
    ensures
        r == Err::<(), Error>(Error::NotAllocated),
        post == mid,
{
}

/// After a release, the next allocation hands out the released ID only if no
/// other free ID lies nearer to the scan pointer, and then it does.
pub proof fn released_id_waits_its_turn(
    pre: PoolModel,
    id: usize,
    mid: PoolModel,
    next: usize,
    post: PoolModel,
)
    requires
        pre.valid(),
        pre.release_step(id, Ok(()), mid),
        mid.alloc_step(Ok(next), post),
    ensures
        next == id <==> forall|other: int|
            0 <= other < pre.capacity && !#[trigger] pre.allocated.contains(other) ==> pre.ahead(id as int) < pre.ahead(
                other,
            ),
{
    assert forall|other: int| other != id implies mid.is_free(other) == #[trigger] pre.is_free(other) by {}
    assert(mid.is_free(id as int) && mid.is_free(next as int));
    if next != id {
        assert(!pre.allocated.contains(next as int));
        assert(mid.ahead(next as int) <= mid.ahead(id as int));
    } else {
        assert forall|other: int|
            0 <= other < pre.capacity && !#[trigger] pre.allocated.contains(other) implies pre.ahead(id as int)
            < pre.ahead(other) by {
            assert(mid.is_free(other));
        }
    }
}

/// An ID that is allocated, released and asked for again comes straight back only
/// if every other ID is handed out, and then it does.
pub proof fn reuse_is_last_resort(
    pre: PoolModel,
    id: usize,
    taken: PoolModel,
    returned: PoolModel,
    next: usize,
    post: PoolModel,
)
    requires
        pre.valid(),
        pre.alloc_step(Ok(id), taken),
        taken.release_step(id, Ok(()), returned),
        returned.alloc_step(Ok(next), post),
    ensures
        next == id <==> forall|other: int|
            0 <= other < pre.capacity && other != id ==> #[trigger] pre.allocated.contains(other),
{
    alloc_keeps_valid(pre, Ok(id), taken);
    released_id_waits_its_turn(taken, id, returned, next, post);
    lemma_pointer_moves(pre, id as int);
    assert(taken.ahead(id as int) == pre.capacity - 1);
    assert forall|other: int| other != id implies taken.is_free(other) == #[trigger] pre.is_free(other) by {}
    if next == id {
        assert forall|other: int|
            0 <= other < pre.capacity && other != id implies #[trigger] pre.allocated.contains(other) by {
            assert(taken.ahead(other) < pre.capacity);
            assert(taken.allocated.contains(other));
        }
    } else {
        assert(returned.is_free(next as int));
        assert(!pre.allocated.contains(next as int));
    }
}

/// Each granted allocation brings the scan pointer nearer to every ID that stays
/// free, by the stretch up to and past the ID that was handed out.
pub proof fn alloc_approaches_free_ids(pre: PoolModel, id: usize, post: PoolModel, waiting: int)
    requires
        pre.valid(),
        pre.alloc_step(Ok(id), post),
        0 <= waiting < post.capacity,
        !post.allocated.contains(waiting),
    ensures
        0 <= post.ahead(waiting) == pre.ahead(waiting) - pre.ahead(id as int) - 1,
{
    lemma_pointer_moves(pre, id as int);
    assert(pre.is_free(waiting));
}

/// Behind the last ID the pointer wraps to 0.
pub(crate) proof fn lemma_pointer_moves(pre: PoolModel, id: int)
    requires
        pre.in_range(id),
    ensures
        pre.take(id).next == if id + 1 == pre.capacity { 0 } else { id + 1 },
{
    if id + 1 == pre.capacity {
        vstd::arithmetic::div_mod::lemma_mod_self_0(pre.capacity as int);
    } else {
        vstd::arithmetic::div_mod::lemma_small_mod((id + 1) as nat, pre.capacity);
    }
}

/// From any free ID a descent leads to the nearest one.
proof fn lemma_nearest_free(pool: PoolModel, start: int)
    requires
        pool.valid(),
        pool.is_free(start),
    ensures
        exists|id: int| #[trigger] pool.is_next_free(id),
    decreases pool.ahead(start),
{
    if pool.is_next_free(start) {
    } else {
        let nearer = choose|other: int| #[trigger] pool.is_free(other) && pool.ahead(other) < pool.ahead(start);
        lemma_nearest_free(pool, nearer);
    }
}

} // verus!
