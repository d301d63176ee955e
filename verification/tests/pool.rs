use rrid::{Error, IdPool};

const BLOCK_BITS: usize = 64;

#[test]
fn basic_alloc_release() {
    let mut pool = IdPool::new(8, 2).unwrap();
    assert_eq!(pool.capacity(), 8);
    assert_eq!(pool.watermark(), 2);
    assert_eq!(pool.free(), 8);

    let id0 = pool.allocate().unwrap();
    assert_eq!(id0, 0);
    assert_eq!(pool.allocated(), 1);

    let id1 = pool.allocate().unwrap();
    assert_eq!(id1, 1);

    pool.release(id0).unwrap();
    assert_eq!(pool.free(), 7);

    // next_id is past id1; the next allocation should be id2 (not id0 reuse).
    let id2 = pool.allocate().unwrap();
    assert_eq!(id2, 2);
}

#[test]
fn watermark_enforced() {
    let mut pool = IdPool::new(4, 2).unwrap();
    let _ = pool.allocate().unwrap(); // 0
    let _ = pool.allocate().unwrap(); // 1
    // free() == 2 == watermark: the next allocation should fail.
    assert_eq!(pool.allocate(), Err(Error::PoolFull));
}

#[test]
fn wrap_around() {
    let mut pool = IdPool::new(4, 0).unwrap();
    for i in 0..4 {
        assert_eq!(pool.allocate().unwrap(), i);
    }
    assert_eq!(pool.allocate(), Err(Error::PoolFull));

    pool.release(1).unwrap();
    pool.release(3).unwrap();
    // next_id wrapped to 0, but 0 and 2 are still allocated: should find 1.
    let id = pool.allocate().unwrap();
    assert_eq!(id, 1);
}

#[test]
fn hierarchical_skip() {
    // 128 IDs: 2 blocks of 64. Fill block 0 completely.
    let mut pool = IdPool::new(128, 0).unwrap();
    for _ in 0..64 {
        pool.allocate().unwrap();
    }
    // Block 0 full. next_id = 64: block 1.
    let id = pool.allocate().unwrap();
    assert_eq!(id, 64);
}

#[test]
fn release_does_not_reuse_immediately() {
    let mut pool = IdPool::new(8, 0).unwrap();
    let id0 = pool.allocate().unwrap(); // 0
    let _id1 = pool.allocate().unwrap(); // 1
    pool.release(id0).unwrap();
    // next_id == 2: the allocation returns 2, not 0.
    let id2 = pool.allocate().unwrap();
    assert_eq!(id2, 2);
}

#[test]
fn out_of_range() {
    let mut pool = IdPool::new(8, 0).unwrap();
    assert_eq!(pool.release(10), Err(Error::OutOfRange));
}

#[test]
fn double_release() {
    let mut pool = IdPool::new(8, 0).unwrap();
    let id = pool.allocate().unwrap();
    pool.release(id).unwrap();
    assert_eq!(pool.release(id), Err(Error::NotAllocated));
}

#[test]
fn full_cycle() {
    let mut pool = IdPool::new(64, 0).unwrap();
    // Allocate all 64 IDs.
    for i in 0..64 {
        assert_eq!(pool.allocate().unwrap(), i);
    }
    assert_eq!(pool.allocate(), Err(Error::PoolFull));

    // Release all.
    for i in 0..64 {
        pool.release(i).unwrap();
    }
    assert_eq!(pool.free(), 64);

    // Re-allocate: starts from next_id (0), finds 0 first.
    assert_eq!(pool.allocate().unwrap(), 0);
}

#[test]
fn large_pool_within_single_secondary_word() {
    let mut pool = IdPool::new(4096, 100).unwrap();
    // Allocate up to watermark.
    for _ in 0..(4096 - 100) {
        pool.allocate().unwrap();
    }
    assert_eq!(pool.allocate(), Err(Error::PoolFull));
    assert_eq!(pool.free(), 100);
}

#[test]
fn rejects_invalid_params() {
    assert!(IdPool::new(0, 0).is_none());
    assert!(IdPool::new(8, 8).is_none());
    assert!(IdPool::new(8, 10).is_none());
    // Boundary: watermark just below capacity is valid.
    assert!(IdPool::new(8, 7).is_some());
}

#[test]
fn boundary_pool_4096_allocates_all() {
    // 4096 IDs = 64 blocks; the last block must participate in allocation,
    // and filling it must not panic on secondary-bitmap access.
    let mut pool = IdPool::new(4096, 0).unwrap();
    for i in 0..4096 {
        assert_eq!(pool.allocate().unwrap(), i);
    }
    assert_eq!(pool.allocate(), Err(Error::PoolFull));
    assert_eq!(pool.free(), 0);
    // Release and allocate again the very last ID (id 4095, block 63 high bit).
    pool.release(4095).unwrap();
    assert_eq!(pool.allocate().unwrap(), 4095);
}

#[test]
fn pool_larger_than_4096_supported() {
    // 8192 IDs: 128 blocks, 2 secondary words.
    let mut pool = IdPool::new(8192, 0).unwrap();
    for i in 0..8192 {
        assert_eq!(pool.allocate().unwrap(), i);
    }
    assert_eq!(pool.allocate(), Err(Error::PoolFull));
    // Release an ID in block 64 (which lives in secondary word 1).
    let id = 64 * BLOCK_BITS;
    pool.release(id).unwrap();
    assert_eq!(pool.allocate().unwrap(), id);
}

#[test]
fn pool_crossing_secondary_word_boundary() {
    // 5000 IDs: 79 blocks, 2 secondary words. The high word holds 15 bits.
    let mut pool = IdPool::new(5000, 0).unwrap();
    for i in 0..5000 {
        assert_eq!(pool.allocate().unwrap(), i);
    }
    assert_eq!(pool.allocate(), Err(Error::PoolFull));
    // Release the very last block's first ID.
    let last_block = 5000 / BLOCK_BITS; // block 78
    let id = last_block * BLOCK_BITS; // 78 * 64 = 4992
    pool.release(id).unwrap();
    assert_eq!(pool.allocate().unwrap(), id);
}

#[test]
fn is_allocated_out_of_range_is_false() {
    let pool = IdPool::new(8, 0).unwrap();
    // Must not panic; out-of-range IDs are reported as "not allocated".
    assert!(!pool.is_allocated(8));
    assert!(!pool.is_allocated(usize::MAX));
}
