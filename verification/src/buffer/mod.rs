pub mod buffer_pool;
pub mod laws;
pub mod lru;
pub mod lru_replacer;
pub mod bpm_bench;
pub mod page;
pub mod replacer;

use vstd::prelude::*;

verus! {

/// Identifies a page on disk.
pub type PageId = u32;

/// Identifies a frame, a slot of the buffer pool.
pub type FrameId = u32;

} // verus!
