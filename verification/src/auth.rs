//! The inbound authentication payloads. Credential hashing and token
//! issuance happen outside this library; only the plain request shape
//! is carried here.

use vstd::prelude::*;

verus! {

/// A login request: an email and the password in the clear, to be
/// verified against the stored hash.
pub struct Login {
    pub email: String,
    pub password: String,
}

} // verus!
