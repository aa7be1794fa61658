//! Principals of the ledger.

use vstd::prelude::*;

verus! {

/// A principal on the ledger: an account or a deployed program, named by the
/// 256 bits of its key, held as two words.
#[derive(Clone, Copy, Debug, PartialEq, Eq, Structural, Hash)]
pub struct Identity {
    /// Whether the principal is a deployed program rather than an account.
    pub program: bool,
    /// The upper 128 bits of the key.
    pub hi: u128,
    /// The lower 128 bits of the key.
    pub lo: u128,
}

impl Identity {
    /// The account whose key is `hi * 2^128 + lo`.
    pub fn account(hi: u128, lo: u128) -> (r: Identity)
        ensures
            r == (Identity { program: false, hi, lo }),
    {
        Identity { program: false, hi, lo }
    }

    /// The deployed program whose hash is `hi * 2^128 + lo`.
    pub fn program(hi: u128, lo: u128) -> (r: Identity)
        ensures
            r == (Identity { program: true, hi, lo }),
    {
        Identity { program: true, hi, lo }
    }
}

} // verus!
