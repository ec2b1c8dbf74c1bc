//! Errors surfaced by the cache.

use vstd::prelude::*;

verus! {

/// The standard library's I/O error, carried through unchanged.
#[verifier::external_type_specification]
#[verifier::external_body]
pub struct ExIoError(std::io::Error);

/// All errors surfaced by the cache.
#[derive(Debug)]
pub enum CacheError {
    /// Failure inside the key-value store.
    Redb(String),
    /// I/O failure opening the cache directory or file.
    Io(std::io::Error),
    /// A stored value is shorter than its declared header.
    Malformed(String),
    /// Caller supplied an invalid configuration.
    InvalidConfig(String),
}

} // verus!
