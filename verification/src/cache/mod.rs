//! Caches of byte slices, in memory and on disk.

pub mod base_cache;
pub mod counters;
pub mod disk_sized_cache;
pub mod lru_map;
pub mod s3_fifo;
pub mod tiered_sized_cache;
pub mod tiny_lfu;
