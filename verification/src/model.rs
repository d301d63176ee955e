//! The mathematical state of a pool, and what its operations do to it.
use crate::error::Error;
use vstd::prelude::*;

verus! {

/// The state of a pool: its parameters, the IDs that are handed out, and the
/// scan pointer.
#[verifier::ext_equal]
pub struct PoolModel {
    /// The pool manages the IDs `0 <= id < capacity`.
    pub capacity: nat,
    /// How many IDs are held back.
    pub watermark: nat,
    /// Where the next allocation starts to look.
    pub next: int,
    /// The IDs that are handed out.
    pub allocated: Set<int>,
}

impl PoolModel {
    /// The state of a new pool: nothing handed out, the pointer at 0.
    pub open spec fn fresh(capacity: nat, watermark: nat) -> PoolModel {
        PoolModel { capacity, watermark, next: 0, allocated: Set::empty() }
    }

    /// What holds of every pool at all times.
    pub open spec fn valid(self) -> bool {
        &&& self.watermark < self.capacity
        &&& 0 <= self.next < self.capacity
        &&& self.allocated.finite()
        &&& forall|id: int| #[trigger] self.allocated.contains(id) ==> self.in_range(id)
        &&& self.allocated.len() + self.watermark <= self.capacity
    }

    /// `id` is one of the IDs that the pool manages.
    pub open spec fn in_range(self, id: int) -> bool {
        0 <= id < self.capacity
    }

    /// `id` can be handed out: the pool manages it and nobody has it.
    pub open spec fn is_free(self, id: int) -> bool {
        self.in_range(id) && !self.allocated.contains(id)
    }

    /// The number of 64-element groups that `count` elements fill or begin: blocks
    /// of IDs, or words of bits.
    pub open spec fn groups(count: int) -> int {
        (count + 63) / 64
    }

    /// One of the 64 IDs from `64 * block` on is free.
    pub open spec fn block_open(self, block: int) -> bool {
        exists|id: int| 64 * block <= id < 64 * block + 64 && #[trigger] self.is_free(id)
    }

    /// The number of free IDs.
    pub open spec fn free(self) -> int {
        self.capacity - self.allocated.len()
    }

    /// Allocation is granted: more IDs are free than are held back.
    pub open spec fn has_room(self) -> bool {
        self.free() > self.watermark
    }

    /// How many steps up, wrapping at the capacity, lead from the pointer to `id`.
    pub open spec fn ahead(self, id: int) -> int {
        if self.next <= id {
            id - self.next
        } else {
            id - self.next + self.capacity
        }
    }

    /// `id` is the first free ID from the pointer on, wrapping at the capacity.
    pub open spec fn is_next_free(self, id: int) -> bool {
        &&& self.is_free(id)
        &&& forall|other: int| #[trigger] self.is_free(other) ==> self.ahead(id) <= self.ahead(other)
    }

    /// The state after `id` was handed out: the pointer stands behind it.
    pub open spec fn take(self, id: int) -> PoolModel {
        PoolModel {
            next: (id + 1) % (self.capacity as int),
            allocated: self.allocated.insert(id),
            ..self
        }
    }

    /// The state after `id` was given back: the pointer has not moved.
    pub open spec fn give_back(self, id: int) -> PoolModel {
        PoolModel { allocated: self.allocated.remove(id), ..self }
    }

    /// An allocation takes the state `self` to `post` and returns `r`.
    pub open spec fn alloc_step(self, r: Result<usize, Error>, post: PoolModel) -> bool {
        match r {
            Ok(id) => {
                &&& self.has_room()
                &&& self.is_next_free(id as int)
                &&& post == self.take(id as int)
            },
            Err(e) => {
                &&& !self.has_room()
                &&& e == Error::PoolFull
                &&& post == self
            },
        }
    }

    /// A release of `id` takes the state `self` to `post` and returns `r`.
    pub open spec fn release_step(self, id: usize, r: Result<(), Error>, post: PoolModel) -> bool {
        match r {
            Ok(_) => {
                &&& self.allocated.contains(id as int)
                &&& post == self.give_back(id as int)
            },
            Err(Error::OutOfRange) => !self.in_range(id as int) && post == self,
            Err(Error::NotAllocated) => self.is_free(id as int) && post == self,
            Err(Error::PoolFull) => false,
        }
    }
}

} // verus!
