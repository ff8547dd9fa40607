//! The block cache index and the reorg/finality coordinator.

pub mod head_cache;
pub mod index;
