//! The BLAKE3 boundary. Every digest in the kernel is computed by the
//! `blake3` crate; the library only decides which bytes are hashed.

use vstd::prelude::*;

verus! {

/// What `blake3::hash` returns for an input, as a 32-byte sequence.
pub uninterp spec fn blake3_digest(input: Seq<u8>) -> Seq<u8>;

/// What `blake3::keyed_hash` returns for a key and an input.
pub uninterp spec fn blake3_keyed_digest(key: Seq<u8>, input: Seq<u8>) -> Seq<u8>;

/// Calls `blake3::hash`. Trusted to return the BLAKE3 digest of exactly
/// the given bytes, which depends on those bytes alone; its value is not
/// stated beyond that name.
#[verifier::external_body]
pub(crate) fn blake3_hash(input: &[u8]) -> (r: [u8; 32])
    ensures
        r@ == blake3_digest(input@),
{
    *blake3::hash(input).as_bytes()
}

/// Calls `blake3::keyed_hash`. Trusted to return the keyed BLAKE3 digest
/// of exactly the given key and bytes; its value is not stated beyond
/// that name.
#[verifier::external_body]
pub(crate) fn blake3_keyed_hash(key: &[u8; 32], input: &[u8]) -> (r: [u8; 32])
    ensures
        r@ == blake3_keyed_digest(key@, input@),
{
    *blake3::keyed_hash(key, input).as_bytes()
}

} // verus!
