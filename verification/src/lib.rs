//! Lazily populated, evictable objects: the layout arithmetic, the chunk
//! locks, the backing store and the bookkeeping of the orchestrator.
//!
//! The library decides and keeps the books. Mapping memory, taking faults
//! and running threads is left to the caller, who hands in addresses,
//! lengths and byte regions.

pub mod bitwise_spinlock;
pub mod chunk;
pub mod errors;
pub mod math;
pub mod mmap_wrapers;
pub mod once_await;
pub mod populate_workers;
pub mod return_checks;
pub mod segment_map;
pub mod ufo_core;
pub mod ufo_objects;
pub mod writeback;

pub use bitwise_spinlock::{BackoffGenerator, BitGuard, Bitlock};
pub use chunk::{ChunkFreer, FreeAction, FreeErr, PivotAction, SizeInPages, UfoChunk};
pub use errors::{BitlockErr, UfoAllocateErr, UfoConfigErr, UfoLookupErr, UfoPopulateError};
pub use math::{down_to_nearest, up_to_nearest};
pub use mmap_wrapers::{BaseMmap, Mmap, MmapFd};
pub use once_await::{OnceAwait, OnceFulfiller};
pub use populate_workers::{PopulateWorkers, ShouldRun};
pub use return_checks::{check_ptr_nonneg, check_return_nonneg, check_return_zero};
pub use ufo_core::{
    AllocateFailure, FaultErr, FaultPlan, UfoChunks, UfoCoreConfig, UfoCoreState,
    UfoWriteBuffer,
};
pub use ufo_objects::{
    hash_function, DataHash, LoadWindow, UfoId, UfoIdGen, UfoObject, UfoObjectConfig,
    UfoObjectConfigPrototype, UfoOffset,
};
pub use writeback::{UfoFileWriteback, WritebackErr};
