//! What the hash of a message is made of.

use vstd::bytes::spec_u64_from_le_bytes;
use vstd::prelude::*;

use crate::docker_json::{fold_high_bits, message_hash, message_sample};

verus! {

/// A sample is the eight bytes from its start on, and what is missing of them is
/// zero; a hash is that of the length and the samples at the start, in the middle and
/// at the end, and folding loses nothing.
pub proof fn hashes_follow_their_samples(message: Seq<u8>, other: Seq<u8>, start: int, hash: u64)
    requires
        0 <= start,
    ensures
        start + 8 <= message.len() ==> message_sample(message, start) == spec_u64_from_le_bytes(
            message.subrange(start, start + 8),
        ),
        message_sample(message.push(0), start) == message_sample(message, start),
        message.len() <= start ==> message_sample(message, start) == message_sample(
            Seq::empty(),
            0,
        ),
        fold_high_bits(fold_high_bits(hash)) == hash,
        message.len() == other.len() && message.len() >= 8 && message.take(8) == other.take(8)
            && message.skip(message.len() - 8) == other.skip(message.len() - 8)
            && message.subrange((message.len() - 8) / 2, (message.len() - 8) / 2 + 8)
            == other.subrange((message.len() - 8) / 2, (message.len() - 8) / 2 + 8)
            ==> message_hash(message) == message_hash(other),
{
    let sampled = |text: Seq<u8>, at: int|
        Seq::new(
            8,
            |i: int|
                if at + i < text.len() {
                    text[at + i]
                } else {
                    0u8
                },
        );
    if start + 8 <= message.len() {
        assert(sampled(message, start) =~= message.subrange(start, start + 8));
    }
    assert(sampled(message.push(0), start) =~= sampled(message, start));
    if message.len() <= start {
        assert(sampled(message, start) =~= sampled(Seq::empty(), 0));
    }
    assert((hash ^ (hash >> 33)) ^ ((hash ^ (hash >> 33)) >> 33) == hash) by (bit_vector);
    if message.len() == other.len() && message.len() >= 8 {
        let tail = message.len() - 8;
        let middle = tail / 2;
        assert(sampled(message, 0) =~= message.take(8));
        assert(sampled(other, 0) =~= other.take(8));
        assert(sampled(message, tail) =~= message.skip(tail));
        assert(sampled(other, tail) =~= other.skip(tail));
        assert(sampled(message, middle) =~= message.subrange(middle, middle + 8));
        assert(sampled(other, middle) =~= other.subrange(middle, middle + 8));
    }
}

} // verus!
