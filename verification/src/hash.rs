//! The hash function under hashing to field and curve elements.

use sha2::{Digest, Sha256};
use vstd::prelude::*;

verus! {

/// The SHA-256 digest of a byte string.
pub uninterp spec fn sha256(data: Seq<u8>) -> Seq<u8>;

/// Calls `sha2::Sha256::digest`, which hashes the whole input in one go. The
/// result is the SHA-256 digest of `data`, a function of `data` alone.
#[verifier::external_body]
pub(crate) fn sha256_digest(data: &[u8]) -> (out: Vec<u8>)
    ensures
        out@ == sha256(data@),
{
    Sha256::digest(data).to_vec()
}

/// The bytes that a message is expanded to before it is reduced into a field:
/// the digest of the message, followed by the digest of that digest.
pub open spec fn expand_message(msg: Seq<u8>) -> Seq<u8> {
    sha256(msg) + sha256(sha256(msg))
}

/// Expands a message to the bytes that are reduced into a field.
pub fn expand(msg: &[u8]) -> (out: Vec<u8>)
    ensures
        out@ == expand_message(msg@),
{
    let mut h0 = sha256_digest(msg);
    let h1 = sha256_digest(h0.as_slice());
    h0.extend_from_slice(h1.as_slice());
    h0
}

} // verus!
