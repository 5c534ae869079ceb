//! Canonical byte encoding for hashing.
//!
//! Field order is fixed by each encoder; strings are length-prefixed so
//! concatenation is unambiguous. This is the only encoding used on
//! determinism-critical hash paths.

use crate::hash::{blake3_digest, blake3_hash};
use vstd::bytes::{spec_u64_to_le_bytes, u64_to_le_bytes};
use vstd::prelude::*;
use vstd::utf8::encode_utf8;

verus! {

pub open spec fn le_u64(x: u64) -> Seq<u8> {
    spec_u64_to_le_bytes(x)
}

/// A string as its byte length (little-endian u64) followed by its UTF-8 bytes.
pub open spec fn framed_str(s: Seq<char>) -> Seq<u8> {
    le_u64(encode_utf8(s).len() as u64) + encode_utf8(s)
}

/// The domain-separated digest of a body: the framed domain, then the body.
pub open spec fn domain_digest(domain: Seq<char>, body: Seq<u8>) -> Seq<u8> {
    blake3_digest(framed_str(domain) + body)
}

pub fn write_u64(out: &mut Vec<u8>, x: u64)
    ensures
        final(out)@ == old(out)@ + le_u64(x),
{
    let mut bytes = u64_to_le_bytes(x);
    out.append(&mut bytes);
}

pub fn write_byte(out: &mut Vec<u8>, b: u8)
    ensures
        final(out)@ == old(out)@.push(b),
{
    out.push(b);
}

pub fn write_bytes(out: &mut Vec<u8>, bytes: &[u8])
    ensures
        final(out)@ == old(out)@ + bytes@,
{
    let ghost start = out@;
    let mut i: usize = 0;
    while i < bytes.len()
        invariant
            i <= bytes@.len(),
            out@ == start + bytes@.subrange(0, i as int),
        decreases bytes@.len() - i,
    {
        out.push(bytes[i]);
        i = i + 1;
        assert(out@ =~= start + bytes@.subrange(0, i as int));
    }
    assert(bytes@.subrange(0, i as int) =~= bytes@);
}

pub fn write_str(out: &mut Vec<u8>, s: &str)
    ensures
        final(out)@ == old(out)@ + framed_str(s@),
{
    let bytes = s.as_bytes();
    write_u64(out, bytes.len() as u64);
    write_bytes(out, bytes);
    assert(final(out)@ =~= old(out)@ + framed_str(s@));
}

/// BLAKE3 over the framed domain tag followed by the body.
pub fn digest_with_domain(domain: &str, body: &[u8]) -> (r: [u8; 32])
    ensures
        r@ == domain_digest(domain@, body@),
{
    let mut bytes: Vec<u8> = Vec::new();
    write_str(&mut bytes, domain);
    write_bytes(&mut bytes, body);
    assert(bytes@ =~= framed_str(domain@) + body@);
    blake3_hash(bytes.as_slice())
}

} // verus!
