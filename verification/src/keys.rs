//! Node identity and miner signatures: Ed25519 keypairs over 32-byte secret
//! keys, 32-byte public keys and 64-byte signatures. The cryptographic
//! primitives are external collaborators; the library names their results and
//! verifies the logic around them.

use vstd::prelude::*;

verus! {

/// The public key derived from a 32-byte secret key.
pub uninterp spec fn pk_of(sk: Seq<u8>) -> Seq<u8>;

/// The signature the deterministic Ed25519 scheme produces for a secret key
/// and a message.
pub uninterp spec fn sig_of(sk: Seq<u8>, msg: Seq<u8>) -> Seq<u8>;

/// Whether a signature verifies for a public key and a message.
pub uninterp spec fn sig_valid(pk: Seq<u8>, msg: Seq<u8>, sig: Seq<u8>) -> bool;

/// Relies on `ed25519_dalek::SigningKey::{from_bytes, verifying_key}`: the
/// public key is a pure function of the 32 secret-key bytes, 32 bytes long.
#[verifier::external_body]
pub fn derive_public_key(sk: &Vec<u8>) -> (r: Vec<u8>)
    requires
        sk@.len() == 32,
    ensures
        r@ == pk_of(sk@),
        r@.len() == 32,
{
    let mut b = [0u8; 32];
    b.copy_from_slice(&sk[..]);
    let key = ed25519_dalek::SigningKey::from_bytes(&b);
    key.verifying_key().to_bytes().to_vec()
}

/// Relies on `ed25519_dalek`'s `Signer` impl for `SigningKey`: RFC 8032
/// signing is a deterministic function of the secret key and the message,
/// yields 64 bytes, and the signature verifies under the matching public key.
#[verifier::external_body]
pub fn sign_message(sk: &Vec<u8>, msg: &Vec<u8>) -> (r: Vec<u8>)
    requires
        sk@.len() == 32,
    ensures
        r@ == sig_of(sk@, msg@),
        r@.len() == 64,
        sig_valid(pk_of(sk@), msg@, r@),
{
    let mut b = [0u8; 32];
    b.copy_from_slice(&sk[..]);
    let key = ed25519_dalek::SigningKey::from_bytes(&b);
    let sig = ed25519_dalek::Signer::sign(&key, &msg[..]);
    sig.to_bytes().to_vec()
}

/// Relies on `ed25519_dalek::VerifyingKey::verify` (and the two byte-array
/// constructors): acceptance is a deterministic function of the key, message
/// and signature bytes; malformed keys or signatures verify nothing.
#[verifier::external_body]
pub fn verify_signature_bytes(pk: &Vec<u8>, msg: &Vec<u8>, sig: &Vec<u8>) -> (r: bool)
    ensures
        r == sig_valid(pk@, msg@, sig@),
{
    if pk.len() != 32 || sig.len() != 64 {
        return false;
    }
    let mut pb = [0u8; 32];
    pb.copy_from_slice(&pk[..]);
    let mut sb = [0u8; 64];
    sb.copy_from_slice(&sig[..]);
    let key = match ed25519_dalek::VerifyingKey::from_bytes(&pb) {
        Ok(k) => k,
        Err(_) => return false,
    };
    let sig = ed25519_dalek::Signature::from_bytes(&sb);
    ed25519_dalek::Verifier::verify(&key, &msg[..], &sig).is_ok()
}

} // verus!
