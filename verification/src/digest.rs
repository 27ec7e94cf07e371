//! BLAKE3 digests, the content hash of envelopes, packs and identities.

use vstd::bytes::spec_u32_from_le_bytes;
use vstd::prelude::*;

use crate::wire::{read_u128, read_u32, u128_from_le};

verus! {

/// The digest that BLAKE3 assigns to a byte sequence.
pub uninterp spec fn blake3_output(bytes: Seq<u8>) -> [u8; 32];

/// The digest of a byte sequence, as bytes.
pub open spec fn blake3_digest(bytes: Seq<u8>) -> Seq<u8> {
    blake3_output(bytes)@
}

/// Calls `blake3::hash`. The claim is that the result is the BLAKE3 digest of
/// exactly these bytes.
#[verifier::external_body]
pub(crate) fn blake3_hash(bytes: &[u8]) -> (digest: [u8; 32])
    ensures
        digest == blake3_output(bytes@),
{
    *blake3::hash(bytes).as_bytes()
}

/// The 128-bit identity of a canonical encoding: the first half of its digest.
pub open spec fn identity_of(encoding: Seq<u8>) -> u128 {
    u128_from_le(blake3_digest(encoding).subrange(0, 16))
}

/// Computes the 128-bit identity of a canonical encoding.
pub fn identity(encoding: &[u8]) -> (id: u128)
    ensures
        id == identity_of(encoding@),
{
    let digest = blake3_hash(encoding);
    read_u128(&digest, 0)
}

/// The checksum of a compressed group: the first four digest bytes.
pub open spec fn short_checksum(payload: Seq<u8>) -> u32 {
    spec_u32_from_le_bytes(blake3_digest(payload).subrange(0, 4))
}

/// Computes the four-byte checksum of a compressed group.
pub fn payload_checksum(payload: &[u8]) -> (checksum: u32)
    ensures
        checksum == short_checksum(payload@),
{
    let digest = blake3_hash(payload);
    read_u32(&digest, 0)
}

} // verus!
