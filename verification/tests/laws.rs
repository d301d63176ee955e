use rrid::{Error, IdPool};

/// A plain list of flags that allocates by walking the ring one ID at a time.
struct Ring {
    used: Vec<bool>,
    watermark: usize,
    next: usize,
}

impl Ring {
    fn new(n: usize, watermark: usize) -> Ring {
        Ring { used: vec![false; n], watermark, next: 0 }
    }

    fn free(&self) -> usize {
        self.used.iter().filter(|u| !**u).count()
    }

    fn allocate(&mut self) -> Result<usize, Error> {
        if self.free() <= self.watermark {
            return Err(Error::PoolFull);
        }
        let n = self.used.len();
        let mut id = self.next;
        while self.used[id] {
            id = (id + 1) % n;
        }
        self.used[id] = true;
        self.next = (id + 1) % n;
        Ok(id)
    }

    fn release(&mut self, id: usize) -> Result<(), Error> {
        if id >= self.used.len() {
            Err(Error::OutOfRange)
        } else if !self.used[id] {
            Err(Error::NotAllocated)
        } else {
            self.used[id] = false;
            Ok(())
        }
    }
}

fn compare_with_ring(n: usize, watermark: usize, steps: usize) {
    let mut pool = IdPool::new(n, watermark).unwrap();
    let mut ring = Ring::new(n, watermark);
    let mut seed: u64 = 0x9e37_79b9_7f4a_7c15;
    for step in 0..steps {
        seed = seed.wrapping_mul(6364136223846793005).wrapping_add(1442695040888963407);
        let roll = (seed >> 33) as usize;
        // Stretches that mostly fill take turns with stretches that mostly empty.
        let filling = (step / (2 * n + 3)) % 2 == 0;
        if (roll % 4 == 0) != filling {
            assert_eq!(pool.allocate(), ring.allocate());
        } else {
            let id = (roll / 4) % (n + 2);
            assert_eq!(pool.release(id), ring.release(id));
        }
        assert_eq!(pool.free(), ring.free());
        assert_eq!(pool.allocated() + pool.free(), n);
        assert!(pool.free() >= watermark);
        assert_eq!(pool.debug_fields()[4], ("next_id", ring.next));
    }
    for id in 0..n {
        assert_eq!(pool.is_allocated(id), ring.used[id]);
    }
    for (block, used) in ring.used.chunks(64).enumerate() {
        assert_eq!(pool.block_has_free(block), used.iter().any(|u| !*u));
    }
}

#[test]
fn small_pools_agree_with_a_plain_ring() {
    for n in 1..10 {
        for watermark in 0..n {
            compare_with_ring(n, watermark, 400);
        }
    }
}

#[test]
fn block_boundaries_agree_with_a_plain_ring() {
    for n in [63, 64, 65, 127, 128, 129, 200] {
        compare_with_ring(n, 0, 6000);
        compare_with_ring(n, n / 3, 6000);
    }
}

#[test]
fn secondary_boundaries_agree_with_a_plain_ring() {
    for n in [4095, 4096, 4097] {
        compare_with_ring(n, 0, 20000);
    }
}

#[test]
fn fresh_pool_counts_up_to_the_watermark() {
    let mut pool = IdPool::new(100, 30).unwrap();
    for i in 0..70 {
        assert_eq!(pool.allocate(), Ok(i));
    }
    for _ in 0..5 {
        assert_eq!(pool.allocate(), Err(Error::PoolFull));
    }
    assert_eq!(pool.free(), 30);
}

#[test]
fn release_undoes_allocation() {
    let mut pool = IdPool::new(70, 0).unwrap();
    for _ in 0..66 {
        pool.allocate().unwrap();
    }
    let before: Vec<bool> = (0..70).map(|id| pool.is_allocated(id)).collect();
    let id = pool.allocate().unwrap();
    assert_eq!(id, 66);
    assert!(pool.is_allocated(66));
    assert_eq!(pool.release(id), Ok(()));
    let after: Vec<bool> = (0..70).map(|id| pool.is_allocated(id)).collect();
    assert_eq!(before, after);
    assert_eq!(pool.debug_fields()[4], ("next_id", 67));
}

#[test]
fn refusals_change_nothing() {
    let mut pool = IdPool::new(5, 3).unwrap();
    pool.allocate().unwrap();
    pool.allocate().unwrap();
    let before = pool.debug_fields();
    assert_eq!(pool.allocate(), Err(Error::PoolFull));
    assert_eq!(pool.release(4), Err(Error::NotAllocated));
    assert_eq!(pool.release(5), Err(Error::OutOfRange));
    assert_eq!(pool.release(usize::MAX), Err(Error::OutOfRange));
    assert_eq!(pool.debug_fields(), before);
    assert!(pool.is_allocated(0) && pool.is_allocated(1) && !pool.is_allocated(4));
}

#[test]
fn release_makes_room_for_one() {
    let mut pool = IdPool::new(6, 4).unwrap();
    pool.allocate().unwrap();
    pool.allocate().unwrap();
    assert_eq!(pool.allocate(), Err(Error::PoolFull));
    pool.release(0).unwrap();
    assert_eq!(pool.allocate(), Ok(2));
    assert_eq!(pool.allocate(), Err(Error::PoolFull));
}

#[test]
fn releases_commute() {
    let mut one = IdPool::new(6, 0).unwrap();
    let mut two = IdPool::new(6, 0).unwrap();
    for _ in 0..6 {
        one.allocate().unwrap();
        two.allocate().unwrap();
    }
    one.release(2).unwrap();
    one.release(4).unwrap();
    two.release(4).unwrap();
    two.release(2).unwrap();
    assert_eq!(one.allocate(), Ok(2));
    assert_eq!(two.allocate(), Ok(2));
    assert_eq!(one.allocate(), Ok(4));
    assert_eq!(two.allocate(), Ok(4));
}

#[test]
fn released_id_is_reused_only_as_a_last_resort() {
    let mut pool = IdPool::new(3, 0).unwrap();
    assert_eq!(pool.allocate(), Ok(0));
    pool.release(0).unwrap();
    assert_eq!(pool.allocate(), Ok(1));
    assert_eq!(pool.allocate(), Ok(2));
    assert_eq!(pool.allocate(), Ok(0));
    // Every other ID is taken: 0 comes straight back.
    pool.release(0).unwrap();
    assert_eq!(pool.allocate(), Ok(0));
}

#[test]
fn reuse_waits_a_round() {
    let mut pool = IdPool::new(130, 0).unwrap();
    for round in 0..3 {
        for i in 0..130 {
            assert_eq!(pool.allocate(), Ok(i), "round {}", round);
            pool.release(i).unwrap();
        }
    }
}

#[test]
fn scan_returns_to_the_start_of_the_starting_block() {
    let mut pool = IdPool::new(200, 0).unwrap();
    for _ in 0..200 {
        pool.allocate().unwrap();
    }
    pool.release(70).unwrap();
    assert_eq!(pool.allocate(), Ok(70));
    // The pointer is at 71; the only free ID lies before it in the same block.
    pool.release(66).unwrap();
    assert_eq!(pool.allocate(), Ok(66));
}

#[test]
fn single_id_pool_is_the_default() {
    let mut pool = IdPool::default();
    assert_eq!(pool.capacity(), 1);
    assert_eq!(pool.watermark(), 0);
    assert_eq!(pool.free(), 1);
    assert_eq!(pool.allocate(), Ok(0));
    assert_eq!(pool.allocate(), Err(Error::PoolFull));
    pool.release(0).unwrap();
    assert_eq!(pool.allocate(), Ok(0));
}

#[test]
fn debug_fields_show_the_state() {
    let mut pool = IdPool::new(128, 16).unwrap();
    pool.allocate().unwrap();
    pool.allocate().unwrap();
    pool.release(0).unwrap();
    assert_eq!(
        pool.debug_fields(),
        [("capacity", 128), ("watermark", 16), ("allocated", 1), ("free", 127), ("next_id", 2)]
    );
}

#[test]
fn errors_describe_themselves() {
    assert_eq!(Error::PoolFull.to_string(), "pool is at watermark");
    assert_eq!(Error::OutOfRange.to_string(), "id out of range");
    assert_eq!(Error::NotAllocated.to_string(), "id not allocated");
}

#[test]
fn full_block_is_marked_full() {
    let mut pool = IdPool::new(128, 0).unwrap();
    for _ in 0..64 {
        assert!(pool.block_has_free(0));
        pool.allocate().unwrap();
    }
    assert!(!pool.block_has_free(0));
    assert!(pool.block_has_free(1));
    pool.release(17).unwrap();
    assert!(pool.block_has_free(0));
}

#[test]
fn full_partial_block_is_marked_full() {
    let mut pool = IdPool::new(4, 0).unwrap();
    for _ in 0..4 {
        assert!(pool.block_has_free(0));
        pool.allocate().unwrap();
    }
    assert!(!pool.block_has_free(0));
    pool.release(2).unwrap();
    assert!(pool.block_has_free(0));
    assert_eq!(pool.allocate(), Ok(2));
    assert!(!pool.block_has_free(0));

    let mut pool = IdPool::new(65, 0).unwrap();
    for _ in 0..65 {
        pool.allocate().unwrap();
    }
    assert!(!pool.block_has_free(0));
    assert!(!pool.block_has_free(1));
    pool.release(64).unwrap();
    assert!(!pool.block_has_free(0));
    assert!(pool.block_has_free(1));
}

#[test]
fn blocks_past_the_last_id_have_nothing_free() {
    let pool = IdPool::new(100, 0).unwrap();
    assert!(pool.block_has_free(1));
    assert!(!pool.block_has_free(2));
    assert!(!pool.block_has_free(63));
}
