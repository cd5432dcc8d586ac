//! A verified model of a cache-aside (read-through) paginated read path.
//!
//! A page request derives a deterministic cache key, probes a key-value
//! cache, and on a miss queries the authoritative store, re-populating the
//! cache with a fixed expiry. The modules below cover the four parts of
//! that protocol: the connection pools, the textual codec for cached
//! pages, the primary-store accessor, and the orchestration itself.

pub mod auth;
pub mod cache;
pub mod codec;
pub mod errors;
pub mod item;
pub mod keys;
pub mod pool;
pub mod primary;
pub mod read_path;
pub mod text;
