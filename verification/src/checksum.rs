//! FNV-1a, the 64-bit checksum of pack payloads.

use vstd::arithmetic::div_mod::{lemma_mul_mod_noop_left, lemma_mul_mod_noop_right, lemma_small_mod};
use vstd::prelude::*;

verus! {

/// Hash value of the empty byte sequence.
pub const FNV_OFFSET_BASIS: u64 = 0xcbf2_9ce4_8422_2325;

/// Multiplier applied after each byte.
pub const FNV_PRIME: u64 = 0x0000_0100_0000_01b3;

/// One FNV-1a step: fold `byte` into `hash`.
pub open spec fn fnv_step(hash: u64, byte: u8) -> u64 {
    (hash ^ byte as u64).wrapping_mul(FNV_PRIME)
}

/// FNV-1a of `bytes` continued from `hash`.
pub open spec fn fnv_from(hash: u64, bytes: Seq<u8>) -> u64
    decreases bytes.len(),
{
    if bytes.len() == 0 {
        hash
    } else {
        fnv_step(fnv_from(hash, bytes.drop_last()), bytes.last())
    }
}

/// FNV-1a of a whole byte sequence.
pub open spec fn fnv1a64_of(bytes: Seq<u8>) -> u64 {
    fnv_from(FNV_OFFSET_BASIS, bytes)
}

/// Continues an FNV-1a hash over `bytes`.
pub fn fnv1a64_continue(start: u64, bytes: &[u8]) -> (hash: u64)
    ensures
        hash == fnv_from(start, bytes@),
{
    let mut hash: u64 = start;
    let mut index: usize = 0;
    assert(bytes@.take(0) =~= Seq::<u8>::empty());
    while index < bytes.len()
        invariant
            index <= bytes@.len(),
            hash == fnv_from(start, bytes@.take(index as int)),
        decreases bytes@.len() - index,
    {
        hash = (hash ^ bytes[index] as u64).wrapping_mul(FNV_PRIME);
        proof {
            let next = bytes@.take(index + 1);
            assert(next.drop_last() =~= bytes@.take(index as int));
            assert(next.last() == bytes@[index as int]);
        }
        index = index + 1;
    }
    assert(bytes@.take(index as int) =~= bytes@);
    hash
}

/// Computes the FNV-1a checksum of a payload.
pub fn fnv1a64(bytes: &[u8]) -> (hash: u64)
    ensures
        hash == fnv1a64_of(bytes@),
{
    fnv1a64_continue(FNV_OFFSET_BASIS, bytes)
}

/// Multiplication by the FNV prime loses nothing: it is undone modulo 2^64.
proof fn lemma_prime_product_is_injective(left: u64, right: u64)
    requires
        left.wrapping_mul(FNV_PRIME) == right.wrapping_mul(FNV_PRIME),
    ensures
        left == right,
{
    let modulus: int = 0x1_0000_0000_0000_0000;
    let prime: int = FNV_PRIME as int;
    let inverse: int = 0xce96_5057_aff6_957b;
    assert((prime * inverse) % modulus == 1) by (nonlinear_arith)
        requires
            prime == 0x0000_0100_0000_01b3,
            inverse == 0xce96_5057_aff6_957b,
            modulus == 0x1_0000_0000_0000_0000,
    ;
    assert forall|value: u64|
        #[trigger] (value.wrapping_mul(FNV_PRIME) as int * inverse) % modulus == value as int by {
        let product = value as int * prime;
        lemma_mul_mod_noop_left(product, inverse, modulus);
        assert(product * inverse == value as int * (prime * inverse)) by (nonlinear_arith)
            requires
                product == value as int * prime,
        ;
        lemma_mul_mod_noop_right(value as int, prime * inverse, modulus);
        assert(value as int * 1 == value as int);
        lemma_small_mod(value as nat, modulus as nat);
    }
    assert((left.wrapping_mul(FNV_PRIME) as int * inverse) % modulus == left as int);
    assert((right.wrapping_mul(FNV_PRIME) as int * inverse) % modulus == right as int);
}

/// Equal suffixes preserve a difference between two running hashes.
pub proof fn fnv_suffix_preserves_difference(left: u64, right: u64, suffix: Seq<u8>)
    requires
        left != right,
    ensures
        fnv_from(left, suffix) != fnv_from(right, suffix),
    decreases suffix.len(),
{
    if suffix.len() > 0 {
        fnv_suffix_preserves_difference(left, right, suffix.drop_last());
        let a = fnv_from(left, suffix.drop_last());
        let b = fnv_from(right, suffix.drop_last());
        let byte = suffix.last() as u64;
        assert(a ^ byte != b ^ byte) by (bit_vector)
            requires
                a != b,
        ;
        if fnv_step(a, suffix.last()) == fnv_step(b, suffix.last()) {
            lemma_prime_product_is_injective(a ^ byte, b ^ byte);
        }
    }
}

/// A hash over a concatenation continues the hash of the first part.
pub proof fn fnv_concatenation(start: u64, head: Seq<u8>, tail: Seq<u8>)
    ensures
        fnv_from(start, head + tail) == fnv_from(fnv_from(start, head), tail),
    decreases tail.len(),
{
    if tail.len() == 0 {
        assert(head + tail =~= head);
    } else {
        fnv_concatenation(start, head, tail.drop_last());
        assert((head + tail).drop_last() =~= head + tail.drop_last());
        assert((head + tail).last() == tail.last());
    }
}

/// Changing exactly one byte of a payload always changes its checksum.
pub proof fn checksum_detects_single_byte_change(payload: Seq<u8>, position: int, byte: u8)
    requires
        0 <= position < payload.len(),
        payload[position] != byte,
    ensures
        fnv1a64_of(payload) != fnv1a64_of(payload.update(position, byte)),
{
    let changed = payload.update(position, byte);
    let head = payload.take(position);
    let tail = payload.skip(position + 1);
    assert(payload =~= head.push(payload[position]) + tail);
    assert(changed =~= head.push(byte) + tail);
    fnv_concatenation(FNV_OFFSET_BASIS, head.push(payload[position]), tail);
    fnv_concatenation(FNV_OFFSET_BASIS, head.push(byte), tail);
    assert(head.push(payload[position]).drop_last() =~= head);
    assert(head.push(byte).drop_last() =~= head);
    let running = fnv_from(FNV_OFFSET_BASIS, head);
    let before = payload[position] as u64;
    let after = byte as u64;
    assert(running ^ before != running ^ after) by (bit_vector)
        requires
            before != after,
    ;
    if fnv_step(running, payload[position]) == fnv_step(running, byte) {
        lemma_prime_product_is_injective(running ^ before, running ^ after);
    }
    fnv_suffix_preserves_difference(
        fnv_step(running, payload[position]),
        fnv_step(running, byte),
        tail,
    );
}

} // verus!
