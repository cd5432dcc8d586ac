//! The user-visible failures of the read path. Cache-path failures never
//! appear here: a corrupt, empty or absent cache value is treated as a
//! miss, and a failed cache write is dropped, so only an unaddressable
//! page, pool exhaustion and primary-store faults reach the caller.

use vstd::prelude::*;

verus! {

/// Why a page request failed.
#[derive(Debug)]
pub enum RequestError {
    /// The page number was zero, or too large for its row offset to fit
    /// in a machine word.
    InvalidPage,
    /// No pooled connection became available within the wait timeout.
    PoolExhausted,
    /// The authoritative store failed; carries its message untransformed.
    PrimaryStore(String),
}

impl RequestError {
    /// A short description, for logging or an error response body.
    pub fn message(&self) -> (r: String)
        ensures
            match self {
                RequestError::InvalidPage => r@ == "invalid page number"@,
                RequestError::PoolExhausted => r@ == "connection pool exhausted"@,
                RequestError::PrimaryStore(m) => r@ == m@,
            },
    {
        match self {
            RequestError::InvalidPage => "invalid page number".to_owned(),
            RequestError::PoolExhausted => "connection pool exhausted".to_owned(),
            RequestError::PrimaryStore(m) => m.clone(),
        }
    }
}

} // verus!
