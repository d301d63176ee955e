//! # rrid: a fixed-capacity integer ID pool
//!
//! A pool of the integer IDs `[0, n)`, kept in a two-level bitmap and handed
//! out round robin.
//!
//! - Allocation scans from a pointer, `next_id`, that moves past each ID it
//!   hands out and wraps at `n`.
//! - A watermark `m` is held back: allocation is refused once no more than `m`
//!   IDs are free.
//! - A secondary bitmap records which 64-ID blocks have a free ID, so that full
//!   blocks are skipped.
//! - Releasing an ID leaves the pointer where it is, so a reclaimed ID is not
//!   handed out again at once.
//!
//! [`PoolModel`] is the mathematical state that the contracts of [`IdPool`]
//! speak of; the module [`laws`] proves what holds from one operation to the next, and
//! [`runs`] what holds of any sequence of operations.
mod bits;
mod error;
pub mod laws;
mod model;
mod pool;
pub mod runs;

pub use error::Error;
pub use model::PoolModel;
pub use pool::IdPool;
