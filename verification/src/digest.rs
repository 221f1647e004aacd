//! The digest facade: fixed-size content digests over byte slices, the
//! identifiers of blocks and of keys in the persistent map. Equality is byte
//! equality; the fork-choice tie-breaker is lexicographic byte order.

use vstd::prelude::*;
use crate::byteops::{lex_lt, lex_lt_bytes, eq_bytes, copy_bytes};

verus! {

/// Byte length of every content digest.
pub const DIGEST_LEN: usize = 32;

/// The digest the hash function assigns to a byte string. Collision
/// resistance is assumed; the library states nothing about the value beyond
/// its length.
pub uninterp spec fn digest_of(bytes: Seq<u8>) -> Seq<u8>;

/// Relies on `blake2::Blake2s256` through the `blake2::Digest` trait: a pure
/// function of the input bytes with a fixed 32-byte output.
#[verifier::external_body]
fn blake2s_of(bytes: &[u8]) -> (r: Vec<u8>)
    ensures
        r@ == digest_of(bytes@),
        r@.len() == DIGEST_LEN,
{
    let out = <blake2::Blake2s256 as blake2::Digest>::digest(bytes);
    out.to_vec()
}

/// A 32-byte opaque content digest.
#[derive(Debug)]
pub struct Digest {
    pub bytes: Vec<u8>,
}

impl View for Digest {
    type V = Seq<u8>;

    open spec fn view(&self) -> Seq<u8> {
        self.bytes@
    }
}

impl Digest {
    /// Well-formedness: exactly 32 bytes.
    pub open spec fn wf(&self) -> bool {
        self.bytes@.len() == DIGEST_LEN
    }

    /// Wraps raw bytes as a digest.
    pub fn from_bytes(bytes: Vec<u8>) -> (r: Digest)
        requires
            bytes@.len() == DIGEST_LEN,
        ensures
            r@ == bytes@,
            r.wf(),
    {
        Digest { bytes }
    }

    /// Byte equality of digests.
    pub fn equals(&self, other: &Digest) -> (r: bool)
        ensures
            r == (self@ == other@),
    {
        eq_bytes(&self.bytes, &other.bytes)
    }

    /// Lexicographic strict order, the fork-choice tie-breaker.
    pub fn lex_before(&self, other: &Digest) -> (r: bool)
        requires
            self.wf(),
            other.wf(),
        ensures
            r == lex_lt(self@, other@),
    {
        lex_lt_bytes(&self.bytes, &other.bytes)
    }

    /// A fresh digest with the same bytes.
    pub fn duplicate(&self) -> (r: Digest)
        ensures
            r@ == self@,
            self.wf() ==> r.wf(),
    {
        Digest { bytes: copy_bytes(&self.bytes) }
    }
}

/// The database hasher: the single digest operation the persistence layer
/// and the block types share.
pub struct BlakeDbHasher;

impl BlakeDbHasher {
    /// Digests a byte slice.
    pub fn hash(bytes: &[u8]) -> (r: Digest)
        ensures
            r@ == digest_of(bytes@),
            r.wf(),
    {
        Digest { bytes: blake2s_of(bytes) }
    }
}

} // verus!
