//! The two functions that the library takes on trust from the crates that
//! compute them: the SHA-256 digest and the Ed25519 verdict.

use vstd::prelude::*;

verus! {

/// The SHA-256 digest of a byte string.
pub uninterp spec fn sha256(data: Seq<u8>) -> Seq<u8>;

/// Whether `signature` is an Ed25519 signature of `message` that verifies
/// under the public key `pubkey`.
pub uninterp spec fn ed25519_verifies(pubkey: Seq<u8>, message: Seq<u8>, signature: Seq<u8>) -> bool;

/// Calls `solana_sha256_hasher::hash`, which feeds the bytes to a SHA-256
/// hasher and returns the finished digest. Trusted: the result is the digest
/// of exactly the bytes given.
#[verifier::external_body]
pub(crate) fn sha256_digest(data: &[u8]) -> (digest: [u8; 32])
    ensures
        digest@ == sha256(data@),
{
    solana_sha256_hasher::hash(data).to_bytes()
}

/// Calls `solana_signature::Signature::verify`, which parses the public key
/// and checks the signature over the message, answering `false` when the key
/// does not parse or the check fails. Trusted: the answer depends on the three
/// byte strings alone.
#[verifier::external_body]
pub(crate) fn ed25519_verify(pubkey: &[u8; 32], message: &[u8], signature: &[u8; 64]) -> (ok: bool)
    ensures
        ok == ed25519_verifies(pubkey@, message@, signature@),
{
    solana_signature::Signature::from(*signature).verify(pubkey, message)
}

} // verus!
