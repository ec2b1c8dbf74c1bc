//! Verified core of a content-addressed embedding cache.
//!
//! The cache stores one entry per `(model, text)` pair under a 32-byte
//! blake3 key. An entry is `[u64 inserted_at LE][u32 dim LE][dim x u32 LE]`,
//! the components being the bit patterns of the embedding's `f32` values.
//! This crate holds everything the cache decides: key derivation, the entry
//! format, the expiry rule, the size-bounded eviction order and the
//! statistics. Reading and writing the on-disk store is left to the caller.

pub mod error;
pub mod entry;
pub mod key;

pub use key::key;
pub mod policy;
pub mod order;
pub mod eviction;
pub mod stats;
pub mod clock;

pub use clock::unix_now;
pub use error::CacheError;
pub use stats::CacheStats;
