//! The hash functions and the key decoding that the statements rest on.
use ed25519_dalek::VerifyingKey;
use sha2::{Digest, Sha256, Sha512};
use vstd::prelude::*;

verus! {

/// What SHA-256 gives for a message.
pub uninterp spec fn sha256_digest(message: Seq<u8>) -> [u8; 32];

/// What SHA-512 gives for a message.
pub uninterp spec fn sha512_digest(message: Seq<u8>) -> [u8; 64];

/// Whether Ed25519 accepts a byte string as the encoding of a public key.
pub uninterp spec fn ed25519_key_accepted(key: Seq<u8>) -> bool;

/// Calls `sha2::Sha256::digest`. Claimed: the digest is a function of the message
/// alone, named `sha256_digest`; nothing is claimed of its values.
#[verifier::external_body]
pub(crate) fn sha256(message: &[u8]) -> (r: [u8; 32])
    ensures
        r == sha256_digest(message@),
{
    Sha256::digest(message).into()
}

/// Calls `sha2::Sha512::digest`. Claimed: the digest is a function of the message
/// alone, named `sha512_digest`; nothing is claimed of its values.
#[verifier::external_body]
pub(crate) fn sha512(message: &[u8]) -> (r: [u8; 64])
    ensures
        r == sha512_digest(message@),
{
    Sha512::digest(message).into()
}

/// Calls `ed25519_dalek::VerifyingKey::from_bytes`. Claimed: whether the bytes decode
/// to a key is a function of the bytes alone, named `ed25519_key_accepted`.
#[verifier::external_body]
pub(crate) fn accepts_ed25519_key(key: &[u8; 32]) -> (r: bool)
    ensures
        r == ed25519_key_accepted(key@),
{
    VerifyingKey::from_bytes(key).is_ok()
}

} // verus!
