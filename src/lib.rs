//! A persistent cache from file identity (path, size, modification time,
//! algorithm) to a previously computed digest.

pub mod cache;
pub mod laws;
pub mod path;
pub mod record;
pub mod table;

pub use cache::{CacheError, CacheKey, HashCache};
pub use record::{validate_hash, Algorithm, HashEntry};
