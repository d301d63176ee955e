# rrid

A verified pool of the integer IDs `[0, n)`, kept in a two-level bitmap and handed
out round robin.

| Method | Description |
|--------|-------------|
| `IdPool::new(n, m)` | A pool of `n` IDs that holds back `m`. `None` if `n == 0` or `m >= n`. |
| `allocate() -> Result<usize, Error>` | The first free ID from the scan pointer on; `PoolFull` when no more than `m` IDs are free. |
| `release(id) -> Result<(), Error>` | Gives an ID back; `OutOfRange` or `NotAllocated` where that cannot be. |
| `allocated()`, `free()` | How many IDs are handed out, and how many are not. |
| `capacity()`, `watermark()` | `n` and `m`. |
| `is_allocated(id) -> bool` | Whether an ID is handed out. |
| `block_has_free(block) -> bool` | Whether one of the 64 IDs from `64 * block` on is free. |

- `src/model.rs` is the mathematical state of a pool, in which the contracts are stated.
- `src/pool.rs` is the pool, and `src/bits.rs` the bit arithmetic under it.
- `src/laws.rs` and `src/runs.rs` prove what holds across operations: the watermark is
  kept, no ID has two holders, a released ID waits its turn.
- `app/` gives the pool and its error the printing traits of a program, and an example.
