//! Randomness for identity bootstrapping and test-set generation. Nothing is
//! promised of the drawn values beyond their shape: every function of the
//! library that consumes them is verified for every possible outcome.

use vstd::prelude::*;

verus! {

/// Relies on `rand::random`: 32 bytes from the thread-local generator.
#[verifier::external_body]
pub fn random_bytes_32() -> (r: Vec<u8>)
    ensures
        r@.len() == 32,
{
    rand::random::<[u8; 32]>().to_vec()
}

/// Relies on `rand::random`: one byte from the thread-local generator.
#[verifier::external_body]
pub fn random_u8() -> u8 {
    rand::random::<u8>()
}

} // verus!
