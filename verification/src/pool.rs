//! The pool: a two-level bitmap with a round-robin scan pointer.
use crate::error::Error;
use crate::model::PoolModel;
use vstd::prelude::*;

verus! {

/// Each block in the hierarchical bitmap covers 64 IDs.
const BLOCK_BITS: usize = 64;

/// Fixed-capacity ID pool backed by a hierarchical bitmap with **round-robin**
/// allocation.
///
/// Created with [`IdPool::new`] by passing the capacity `n` and watermark `m`
/// at runtime. The primary bitmap uses one bit per ID, grouped into 64-bit
/// words. The secondary bitmap uses one bit per 64-ID block (itself stored as
/// 64-bit words) so the pool can scale to arbitrary capacities.
///
/// # Examples
///
/// ```
/// use rrid::IdPool;
///
/// let mut pool = IdPool::new(128, 16).unwrap();
/// let id = pool.allocate().unwrap();
/// assert_eq!(id, 0);
/// pool.release(id).unwrap();
/// ```
pub struct IdPool {
    n: usize,
    watermark: usize,
    /// Primary bitmap: one bit per ID, set while the ID is handed out.
    primary: Vec<u64>,
    /// Secondary bitmap: one bit per 64-ID block, set while an ID of the block is
    /// free; grouped into 64-bit words.
    secondary: Vec<u64>,
    /// Round-robin scan pointer: the ID position to start allocation from.
    next_id: usize,
    allocated: usize,
}

/// The IDs below `n` whose bit is set in `words`.
spec fn ids(words: Seq<u64>, n: int) -> Set<int> {
    Set::new(|id: int| 0 <= id < n && crate::bits::bit_at(words, id))
}

/// Block `b` has an ID below `n` whose bit is clear in `words`.
spec fn open_block(words: Seq<u64>, n: int, b: int) -> bool {
    exists|id: int| 64 * b <= id < 64 * b + 64 && id < n && !#[trigger] crate::bits::bit_at(words, id)
}

impl View for IdPool {
    type V = PoolModel;

    closed spec fn view(&self) -> PoolModel {
        PoolModel {
            capacity: self.n as nat,
            watermark: self.watermark as nat,
            next: self.next_id as int,
            allocated: ids(self.primary@, self.n as int),
        }
    }
}

/// A set of IDs below `n` is finite, and has `n` elements only if it has them all.
proof fn lemma_ids_len(words: Seq<u64>, n: int)
    requires
        0 <= n,
    ensures
        ids(words, n).finite(),
        ids(words, n).len() <= n,
        (forall|id: int| 0 <= id < n ==> crate::bits::bit_at(words, id)) ==> ids(words, n).len() == n,
        (forall|id: int| 0 <= id < n ==> !crate::bits::bit_at(words, id)) ==> ids(words, n).len() == 0,
{
    let all = vstd::set_lib::set_int_range(0, n);
    vstd::set_lib::lemma_int_range(0, n);
    assert(ids(words, n).subset_of(all));
    vstd::set_lib::lemma_len_subset(ids(words, n), all);
    if forall|id: int| 0 <= id < n ==> crate::bits::bit_at(words, id) {
        assert(ids(words, n) =~= all);
    }
    if forall|id: int| 0 <= id < n ==> !crate::bits::bit_at(words, id) {
        assert(ids(words, n) =~= Set::empty());
    }
}

/// Writing the bit of `id` in a bitmap puts `id` in the set that the bitmap
/// holds, or takes it out, and leaves the rest of the set alone.
proof fn lemma_write_bit(words: Seq<u64>, n: int, id: int, word: u64, value: bool)
    requires
        0 <= id < n,
        n <= 64 * words.len(),
        forall|j: int| 0 <= j < 64 ==> #[trigger] crate::bits::bit(word, j) == if j == id % 64 {
            value
        } else {
            crate::bits::bit(words[id / 64], j)
        },
    ensures
        forall|i: int|
            0 <= i < 64 * words.len() ==> #[trigger] crate::bits::bit_at(words.update(id / 64, word), i) == if i == id {
                value
            } else {
                crate::bits::bit_at(words, i)
            },
        ids(words.update(id / 64, word), n) == if value {
            ids(words, n).insert(id)
        } else {
            ids(words, n).remove(id)
        },
{
    let after = words.update(id / 64, word);
    assert forall|i: int| 0 <= i < 64 * words.len() implies #[trigger] crate::bits::bit_at(after, i) == if i == id {
        value
    } else {
        crate::bits::bit_at(words, i)
    } by {
        if i / 64 == id / 64 {
            assert(after[i / 64] == word);
        } else {
            assert(after[i / 64] == words[i / 64]);
        }
    }
    if value {
        assert(ids(after, n) =~= ids(words, n).insert(id));
    } else {
        assert(ids(after, n) =~= ids(words, n).remove(id));
    }
}

/// A block none of whose bits changed is as open as before.
proof fn lemma_block_unchanged(before: Seq<u64>, after: Seq<u64>, n: int, b: int)
    requires
        forall|id: int|
            64 * b <= id < 64 * b + 64 && id < n ==> #[trigger] crate::bits::bit_at(after, id) == crate::bits::bit_at(
                before,
                id,
            ),
    ensures
        open_block(after, n, b) == open_block(before, n, b),
{
    if open_block(before, n, b) {
        let id = choose|id: int|
            64 * b <= id < 64 * b + 64 && id < n && !#[trigger] crate::bits::bit_at(before, id);
        assert(!crate::bits::bit_at(after, id));
    }
}

impl IdPool {
    /// The bitmaps have the lengths that the capacity asks for.
    spec fn sized(&self) -> bool {
        &&& self.watermark < self.n
        &&& self.next_id < self.n
        &&& self.primary@.len() == PoolModel::groups(self.n as int)
        &&& self.secondary@.len() == PoolModel::groups(self.primary@.len() as int)
    }

    /// Bits that stand for no ID or no block are clear.
    spec fn padding_clear(&self) -> bool {
        &&& forall|i: int|
            self.n <= i < 64 * self.primary@.len() ==> !#[trigger] crate::bits::bit_at(self.primary@, i)
        &&& forall|b: int|
            self.primary@.len() <= b < 64 * self.secondary@.len()
                ==> !#[trigger] crate::bits::bit_at(self.secondary@, b)
    }

    /// The secondary bitmap marks the blocks that have a free ID.
    spec fn blocks_marked(&self) -> bool {
        forall|b: int|
            0 <= b < self.primary@.len() ==> #[trigger] crate::bits::bit_at(self.secondary@, b) == open_block(
                self.primary@,
                self.n as int,
                b,
            )
    }

    /// The counter counts the IDs that are handed out, and the watermark is kept.
    spec fn counted(&self) -> bool {
        &&& self.allocated == ids(self.primary@, self.n as int).len()
        &&& self.allocated + self.watermark <= self.n
    }

    /// The pool is well formed. Every constructor establishes this and every
    /// operation keeps it.
    pub closed spec fn wf(&self) -> bool {
        &&& self.sized()
        &&& self.padding_clear()
        &&& self.blocks_marked()
        &&& self.counted()
    }

    /// A bit of the secondary bitmap tells whether its block has a free ID.
    proof fn lemma_block_open(&self, b: int)
        requires
            self.wf(),
            0 <= b < 64 * self.secondary@.len(),
        ensures
            crate::bits::bit_at(self.secondary@, b) == self@.block_open(b),
    {
        if b < self.primary@.len() && open_block(self.primary@, self.n as int, b) {
            let id = choose|id: int|
                64 * b <= id < 64 * b + 64 && id < self.n && !#[trigger] crate::bits::bit_at(self.primary@, id);
            assert(self@.is_free(id));
        }
        if self@.block_open(b) {
            let id = choose|id: int| 64 * b <= id < 64 * b + 64 && #[trigger] self@.is_free(id);
            assert(!crate::bits::bit_at(self.primary@, id));
        }
    }

    /// Number of 64-bit words in the primary bitmap.
    #[inline]
    fn num_words(n: usize) -> (r: usize)
        ensures
            r == PoolModel::groups(n as int),
    {
        if n % BLOCK_BITS == 0 {
            n / BLOCK_BITS
        } else {
            n / BLOCK_BITS + 1
        }
    }

    /// Number of 64-ID blocks covered by a pool of capacity `n`.
    #[inline]
    fn num_blocks(n: usize) -> (r: usize)
        ensures
            r == PoolModel::groups(n as int),
    {
        Self::num_words(n)
    }

    /// Number of 64-bit words in the secondary bitmap.
    #[inline]
    fn num_secondary_words(n: usize) -> (r: usize)
        ensures
            r == PoolModel::groups(PoolModel::groups(n as int)),
    {
        Self::num_words(Self::num_blocks(n))
    }

    /// Create a new pool with capacity `n` and watermark `m`.
    ///
    /// Returns `None` if `n == 0` or `m >= n`. The bitmaps together never have
    /// more words than fit a `usize`.
    pub fn new(n: usize, watermark: usize) -> (r: Option<Self>)
        ensures
            r is None <==> n == 0 || watermark >= n,
            r matches Some(pool) ==> pool.wf() && pool@ == PoolModel::fresh(n as nat, watermark as nat),
            r matches Some(pool) ==> {
                &&& pool@.capacity == n
                &&& pool@.watermark == watermark
                &&& pool@.next == 0
                &&& pool@.allocated == Set::<int>::empty()
            },
    {
        if n == 0 || watermark >= n {
            return None;
        }
        let num_blocks = Self::num_blocks(n);
        let num_secondary_words = Self::num_secondary_words(n);
        // Guard against pathological usize overflow.
        let num_words = Self::num_words(n);
        num_words.checked_add(num_secondary_words)?;

        let primary: Vec<u64> = vec![0u64; num_words];

        // Mark every existing block as "has free" in the secondary bitmap.
        let mut secondary: Vec<u64> = vec![0u64; num_secondary_words];
        let full_secondary_words = num_blocks / BLOCK_BITS;
        let mut word: usize = 0;
        while word < full_secondary_words
            invariant
                word <= full_secondary_words <= secondary@.len(),
                secondary@.len() == num_secondary_words,
                forall|w: int| 0 <= w < word ==> secondary@[w] == u64::MAX,
                forall|w: int| word <= w < secondary@.len() ==> secondary@[w] == 0,
            decreases full_secondary_words - word,
        {
            secondary[word] = u64::MAX;
            word += 1;
        }
        let rem = (num_blocks % BLOCK_BITS) as u32;
        proof {
            crate::bits::lemma_constant_words();
            crate::bits::lemma_low_ones(rem as u64);
        }
        if rem != 0 {
            secondary[full_secondary_words] = (1u64 << rem) - 1;
        }
        let pool = Self { n, watermark, primary, secondary, next_id: 0, allocated: 0 };
        proof {
            lemma_ids_len(pool.primary@, n as int);
            assert(pool@.allocated =~= Set::empty());
            assert forall|b: int| 0 <= b < num_blocks implies #[trigger] open_block(pool.primary@, n as int, b) by {
                assert(!crate::bits::bit_at(pool.primary@, 64 * b));
            }
            assert forall|b: int| 0 <= b < 64 * pool.secondary@.len() implies #[trigger] crate::bits::bit_at(
                pool.secondary@,
                b,
            ) == (b < num_blocks) by {
                if b / 64 < full_secondary_words {
                    assert(pool.secondary@[b / 64] == u64::MAX);
                } else {
                    assert(b / 64 == full_secondary_words);
                    assert(rem != 0);
                    assert(pool.secondary@[b / 64] == ((1u64 << rem) - 1) as u64);
                }
            }
        }
        Some(pool)
    }

    /// At all times the IDs that are handed out lie in `[0, n)`, at least
    /// `watermark` IDs are free, and the scan pointer stands on an ID.
    pub proof fn lemma_valid(&self)
        requires
            self.wf(),
        ensures
            self@.valid(),
            self@.watermark < self@.capacity,
            0 <= self@.next < self@.capacity,
            forall|id: int| #[trigger] self@.allocated.contains(id) ==> 0 <= id < self@.capacity,
            self@.capacity - self@.allocated.len() >= self@.watermark,
    {
        lemma_ids_len(self.primary@, self.n as int);
    }

    /// Number of currently allocated IDs.
    #[inline]
    pub fn allocated(&self) -> (r: usize)
        requires
            self.wf(),
        ensures
            r == self@.allocated.len(),
    {
        self.allocated
    }

    /// Number of currently free IDs.
    #[inline]
    pub fn free(&self) -> (r: usize)
        requires
            self.wf(),
        ensures
            r == self@.free(),
            r == self@.capacity - self@.allocated.len(),
    {
        self.n - self.allocated
    }

    /// Watermark (safety margin).
    #[inline]
    pub fn watermark(&self) -> (r: usize)
        ensures
            r == self@.watermark,
    {
        self.watermark
    }

    /// Total capacity.
    #[inline]
    pub fn capacity(&self) -> (r: usize)
        ensures
            r == self@.capacity,
    {
        self.n
    }

    /// What a debug print of the pool shows, as labels and values in order.
    pub fn debug_fields(&self) -> (r: [(&'static str, usize); 5])
        requires
            self.wf(),
        ensures
            r[0].0@ == "capacity"@ && r[0].1 == self@.capacity,
            r[1].0@ == "watermark"@ && r[1].1 == self@.watermark,
            r[2].0@ == "allocated"@ && r[2].1 == self@.allocated.len(),
            r[3].0@ == "free"@ && r[3].1 == self@.free() && r[3].1 == self@.capacity - self@.allocated.len(),
            r[4].0@ == "next_id"@ && r[4].1 == self@.next,
    {
        [
            ("capacity", self.n),
            ("watermark", self.watermark),
            ("allocated", self.allocated),
            ("free", self.n - self.allocated),
            ("next_id", self.next_id),
        ]
    }

    /// Returns `true` if the given ID is currently allocated.
    ///
    /// Returns `false` for IDs outside `[0, n)`.
    #[inline]
    pub fn is_allocated(&self, id: usize) -> (r: bool)
        requires
            self.wf(),
        ensures
            r == self@.allocated.contains(id as int),
    {
        if id >= self.n {
            return false;
        }
        (self.primary[id / BLOCK_BITS] >> (id % BLOCK_BITS)) & 1 == 1
    }

    /// Allocate the next available ID using round-robin scanning.
    ///
    /// Scans from `next_id` using the hierarchical bitmap to skip full blocks.
    /// Returns `Err(PoolFull)`, and changes nothing, exactly when no more than
    /// `watermark` IDs are free.
    pub fn allocate(&mut self) -> (r: Result<usize, Error>)
        requires
            old(self).wf(),
        ensures
            final(self).wf(),
            old(self)@.alloc_step(r, final(self)@),
            r is Ok <==> old(self)@.capacity - old(self)@.allocated.len() > old(self)@.watermark,
            r matches Err(e) ==> e == Error::PoolFull && final(self)@ == old(self)@,
            r matches Ok(id) ==> {
                &&& id < old(self)@.capacity
                &&& !old(self)@.allocated.contains(id as int)
                &&& forall|passed: int| old(self)@.next <= passed < id ==> old(self)@.allocated.contains(passed)
                &&& id < old(self)@.next ==> forall|passed: int|
                    old(self)@.next <= passed < old(self)@.capacity || 0 <= passed < id ==> old(
                        self,
                    )@.allocated.contains(passed)
                &&& final(self)@.allocated == old(self)@.allocated.insert(id as int)
                &&& final(self)@.next == if id + 1 == old(self)@.capacity { 0 } else { id + 1 }
                &&& final(self)@.capacity == old(self)@.capacity
                &&& final(self)@.watermark == old(self)@.watermark
            },
    {
        proof {
            self.lemma_valid();
        }
        if self.free() <= self.watermark {
            return Err(Error::PoolFull);
        }
        let total_blocks = Self::num_blocks(self.n);
        let start_block = self.next_id / BLOCK_BITS;
        let start_bit = self.next_id % BLOCK_BITS;

        // Phase 1: scan within the starting block from next_id onward.
        if let Some(id) = self.scan_block(start_block, start_bit) {
            self.advance_next(id);
            proof {
                crate::laws::alloc_scans_upward(old(self)@, id, self@);
                crate::laws::alloc_moves_pointer_behind(old(self)@, id, self@);
            }
            return Ok(id);
        }

        // Phase 2: scan subsequent blocks (with wrap-around).
        let mut offset: usize = 1;
        while offset <= total_blocks
            invariant
                *self == *old(self),
                self.wf(),
                self@.valid(),
                self@.has_room(),
                total_blocks == PoolModel::groups(self.n as int),
                start_block == self.next_id / 64,
                1 <= offset <= total_blocks + 1,
                forall|id: int| self.next_id <= id < 64 * start_block + 64 && id < self.n ==>
                    self@.allocated.contains(id),
                forall|id: int| 0 <= id < self.n && turn(start_block as int, id / 64, total_blocks as int) < offset ==>
                    #[trigger] self@.allocated.contains(id),
            decreases total_blocks + 1 - offset,
        {
            let block = (start_block + offset) % total_blocks;
            proof {
                lemma_turn(start_block as int, offset as int, total_blocks as int);
            }
            if self.block_has_free(block) {
                if let Some(id) = self.scan_block(block, 0) {
                    self.advance_next(id);
                    proof {
                        crate::laws::alloc_scans_upward(old(self)@, id, self@);
                        crate::laws::alloc_moves_pointer_behind(old(self)@, id, self@);
                    }
                    return Ok(id);
                }
            }
            proof {
                assert forall|id: int| 0 <= id < self.n && id / 64 == block implies #[trigger] self@.allocated.contains(
                    id,
                ) by {
                    assert(!self@.is_free(id));
                }
            }
            offset += 1;
        }
        proof {
            assert forall|id: int| 0 <= id < self.n implies #[trigger] crate::bits::bit_at(self.primary@, id) by {
                assert(self@.allocated.contains(id));
            }
            lemma_ids_len(self.primary@, self.n as int);
        }
        Err(Error::PoolFull)
    }

    /// Release (free) a previously allocated ID.
    ///
    /// Does **not** modify `next_id`, so the ID will not be immediately reused.
    /// Fails, and changes nothing, with `OutOfRange` for an ID outside `[0, n)`
    /// and with `NotAllocated` for one that is free.
    pub fn release(&mut self, id: usize) -> (r: Result<(), Error>)
        requires
            old(self).wf(),
        ensures
            final(self).wf(),
            old(self)@.release_step(id, r, final(self)@),
            r is Ok <==> old(self)@.allocated.contains(id as int),
            r matches Err(e) ==> e == if id >= old(self)@.capacity {
                Error::OutOfRange
            } else {
                Error::NotAllocated
            },
            r is Err ==> final(self)@ == old(self)@,
            r is Ok ==> {
                &&& final(self)@.allocated == old(self)@.allocated.remove(id as int)
                &&& final(self)@.next == old(self)@.next
                &&& final(self)@.capacity == old(self)@.capacity
                &&& final(self)@.watermark == old(self)@.watermark
            },
    {
        if id >= self.n {
            return Err(Error::OutOfRange);
        }
        if !self.is_allocated(id) {
            return Err(Error::NotAllocated);
        }
        proof {
            let word = self.primary@[id as int / 64];
            crate::bits::lemma_clear_bit(word, (id % 64) as u64);
            lemma_ids_len(self.primary@, self.n as int);
            lemma_write_bit(self.primary@, self.n as int, id as int, word & !(1u64 << (id % 64)), false);
        }
        self.primary[id / BLOCK_BITS] &= !(1u64 << (id % BLOCK_BITS));
        self.allocated -= 1;
        self.set_block_has_free(id / BLOCK_BITS, true);
        proof {
            assert(!crate::bits::bit_at(self.primary@, id as int));
            assert forall|b: int| 0 <= b < self.primary@.len() && b != id / 64 implies #[trigger] open_block(
                self.primary@,
                self.n as int,
                b,
            ) == open_block(old(self).primary@, self.n as int, b) by {
                lemma_block_unchanged(old(self).primary@, self.primary@, self.n as int, b);
            }
        }
        Ok(())
    }

    // ------------------------------------------------------------------
    //  Secondary bitmap access
    // ------------------------------------------------------------------

    /// Returns `true` if one of the 64 IDs from `64 * block` on is free, as the
    /// secondary bitmap records it. The secondary bitmap is made of whole words,
    /// and so has bits for some blocks past the last ID; those have no free ID.
    #[inline]
    pub fn block_has_free(&self, block: usize) -> (r: bool)
        requires
            self.wf(),
            block < 64 * (((self@.capacity + 63) / 64 + 63) / 64),
        ensures
            r == self@.block_open(block as int),
            r == exists|id: int|
                64 * block <= id < 64 * block + 64 && id < self@.capacity && !#[trigger] self@.allocated.contains(id),
    {
        proof {
            self.lemma_block_open(block as int);
            crate::laws::closed_block_is_full(self@, block as int);
        }
        (self.secondary[block / BLOCK_BITS] >> (block % BLOCK_BITS)) & 1 == 1
    }

    #[inline]
    fn set_block_has_free(&mut self, block: usize, value: bool)
        requires
            block < 64 * old(self).secondary@.len(),
        ensures
            *final(self) == (IdPool { secondary: final(self).secondary, ..*old(self) }),
            final(self).secondary@.len() == old(self).secondary@.len(),
            forall|b: int|
                0 <= b < 64 * old(self).secondary@.len() ==> #[trigger] crate::bits::bit_at(final(self).secondary@, b)
                    == if b == block { value } else { crate::bits::bit_at(old(self).secondary@, b) },
    {
        let word = block / BLOCK_BITS;
        let bit = block % BLOCK_BITS;
        proof {
            crate::bits::lemma_set_bit(self.secondary@[word as int], bit as u64);
            crate::bits::lemma_clear_bit(self.secondary@[word as int], bit as u64);
        }
        if value {
            self.secondary[word] |= 1u64 << bit;
        } else {
            self.secondary[word] &= !(1u64 << bit);
        }
    }

    // ------------------------------------------------------------------
    //  Internal helpers: scanning
    // ------------------------------------------------------------------

    /// Scan a single 64-bit block starting from `bit_offset` and allocate the
    /// first free bit. Returns the global ID if found.
    fn scan_block(&mut self, block: usize, bit_offset: usize) -> (r: Option<usize>)
        requires
            old(self).wf(),
            old(self)@.has_room(),
            block < PoolModel::groups(old(self).n as int),
            bit_offset < 64,
        ensures
            final(self).wf(),
            match r {
                Some(id) => {
                    &&& 64 * block + bit_offset <= id < 64 * block + 64
                    &&& old(self)@.is_free(id as int)
                    &&& forall|j: int| 64 * block + bit_offset <= j < id ==> old(self)@.allocated.contains(j)
                    &&& final(self)@ == (PoolModel {
                        allocated: old(self)@.allocated.insert(id as int),
                        ..old(self)@
                    })
                },
                None => {
                    &&& forall|j: int|
                        64 * block + bit_offset <= j < 64 * block + 64 && j < old(self).n ==> old(
                            self,
                        )@.allocated.contains(j)
                    &&& *final(self) == *old(self)
                },
            },
    {
        if !self.block_has_free(block) {
            proof {
                assert forall|j: int| 64 * block + bit_offset <= j < 64 * block + 64 && j < self.n implies #[trigger] self@.allocated.contains(
                j) by {
                    assert(!self@.is_free(j));
                }
            }
            return None;
        }
        let word = self.primary[block];
        let mask: u64 = if bit_offset == 0 {
            u64::MAX
        } else {
            u64::MAX << bit_offset
        };

        // Find the first free (zero) bit in `word` at or after `bit_offset`.
        let free = !word & mask;
        proof {
            assert(0xffff_ffff_ffff_ffffu64 << 0u64 == 0xffff_ffff_ffff_ffffu64) by (bit_vector);
            crate::bits::lemma_first_clear_bit(word, bit_offset as u64, free);
        }
        if free == 0 {
            return None;
        }
        let trailing = free.trailing_zeros() as usize;
        let id = block * BLOCK_BITS + trailing;
        if id >= self.n {
            return None;
        }
        self.mark_allocated(block, trailing);
        Some(id)
    }

    #[inline]
    fn mark_allocated(&mut self, block: usize, bit: usize)
        requires
            old(self).wf(),
            old(self)@.has_room(),
            bit < 64,
            old(self)@.is_free(64 * block + bit),
        ensures
            final(self).wf(),
            final(self)@ == (PoolModel { allocated: old(self)@.allocated.insert(64 * block + bit), ..old(self)@ }),
    {
        proof {
            let word = self.primary@[block as int];
            crate::bits::lemma_set_bit(word, bit as u64);
            lemma_ids_len(self.primary@, self.n as int);
            lemma_write_bit(self.primary@, self.n as int, 64 * block + bit, word | (1u64 << bit), true);
        }
        self.primary[block] |= 1u64 << bit;
        self.allocated += 1;
        // The block is full once no clear bit of its word stands for an ID.
        let word = self.primary[block];
        let free = !word;
        proof {
            assert(free == free & (0xffff_ffff_ffff_ffffu64 << 0u64)) by (bit_vector);
            crate::bits::lemma_first_clear_bit(word, 0, free);
            assert forall|b: int| 0 <= b < self.primary@.len() && b != block implies #[trigger] open_block(
                self.primary@,
                self.n as int,
                b,
            ) == open_block(old(self).primary@, self.n as int, b) by {
                lemma_block_unchanged(old(self).primary@, self.primary@, self.n as int, b);
            }
            assert(!crate::bits::bit_at(old(self).primary@, 64 * block + bit));
            assert forall|id: int| 64 * block <= id < 64 * block + 64 implies #[trigger] crate::bits::bit_at(
                self.primary@,
                id,
            ) == crate::bits::bit(word, id - 64 * block) by {}
        }
        if free == 0 || block * BLOCK_BITS + free.trailing_zeros() as usize >= self.n {
            self.set_block_has_free(block, false);
        } else {
            proof {
                let t = vstd::std_specs::bits::u64_trailing_zeros(free) as int;
                assert(!crate::bits::bit_at(self.primary@, 64 * block + t));
            }
        }
    }

    #[inline]
    fn advance_next(&mut self, id: usize)
        requires
            old(self).wf(),
            id < old(self)@.capacity,
        ensures
            final(self).wf(),
            final(self)@ == (PoolModel { next: (id + 1) % (old(self)@.capacity as int), ..old(self)@ }),
    {
        self.next_id = (id + 1) % self.n;
    }
}

impl Default for IdPool {
    /// A pool of the single ID 0, with nothing held back.
    fn default() -> (pool: Self)
        ensures
            pool.wf(),
            pool@ == PoolModel::fresh(1, 0),
            pool@.capacity == 1,
            pool@.watermark == 0,
            pool@.next == 0,
            pool@.allocated == Set::<int>::empty(),
    {
        Self::new(1, 0).expect("default IdPool is well-formed")
    }
}

/// How many blocks after the starting block `start` the scan comes to `block`:
/// 1 for the next one, `total` for the starting block itself.
spec fn turn(start: int, block: int, total: int) -> int {
    if start < block {
        block - start
    } else {
        block - start + total
    }
}

/// The block that the scan comes to after `offset` steps.
proof fn lemma_turn(start: int, offset: int, total: int)
    requires
        0 <= start < total,
        1 <= offset <= total,
    ensures
        0 <= (start + offset) % total < total,
        turn(start, (start + offset) % total, total) == offset,
{
    if start + offset < total {
        vstd::arithmetic::div_mod::lemma_small_mod((start + offset) as nat, total as nat);
    } else {
        vstd::arithmetic::div_mod::lemma_mod_add_multiples_vanish(start + offset - total, total);
        vstd::arithmetic::div_mod::lemma_small_mod((start + offset - total) as nat, total as nat);
    }
}

} // verus!
