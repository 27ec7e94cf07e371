//! How the bits of a key are spread.

use vstd::arithmetic::div_mod::{lemma_mul_mod_noop_left, lemma_mod_multiples_vanish};
use vstd::prelude::*;

use crate::correlation_filter::{key_bits, mixed, probe, probe_start, probe_stride};
use crate::correlation_query::CorrelationKey;

verus! {

/// Two to the sixty-fourth.
pub open spec fn word_limit() -> int {
    0x1_0000_0000_0000_0000
}

/// What a number was before its bits were spread.
pub open spec fn unmixed(value: u64) -> u64 {
    let second = value ^ (value >> 31) ^ (value >> 62);
    let folded = (second * 0x3196_42b2_d24d_8ec3) % word_limit();
    let first = (folded as u64) ^ (folded as u64 >> 27) ^ (folded as u64 >> 54);
    let plain = (first * 0x96de_1b17_3f11_9089) % word_limit();
    (plain as u64) ^ (plain as u64 >> 30) ^ (plain as u64 >> 60)
}

proof fn lemma_inverse(value: u64, factor: u64, inverse: u64, wraps: int)
    requires
        factor * inverse == wraps * word_limit() + 1,
    ensures
        (value.wrapping_mul(factor) * inverse) % word_limit() == value,
{
    let m = word_limit();
    let product = value * factor;
    assert(value.wrapping_mul(factor) == product % m);
    lemma_mul_mod_noop_left(product, inverse as int, m);
    assert(product * inverse == m * (value * wraps) + value) by (nonlinear_arith)
        requires
            product == value * factor,
            factor * inverse == wraps * m + 1,
    ;
    lemma_mod_multiples_vanish(value * wraps, value as int, m);
    assert(value as int % m == value);
}

/// Spreading the bits of a number loses nothing: the number can be had back.
pub proof fn mixed_numbers_are_had_back(value: u64)
    ensures
        unmixed(mixed(value)) == value,
{
    let folded = value ^ (value >> 30);
    let first = folded.wrapping_mul(0xbf58_476d_1ce4_e5b9);
    let turned = first ^ (first >> 27);
    let second = turned.wrapping_mul(0x94d0_49bb_1331_11eb);
    let last = second ^ (second >> 31);
    assert(mixed(value) == last);
    assert((second ^ (second >> 31)) ^ ((second ^ (second >> 31)) >> 31) ^ ((second ^ (second
        >> 31)) >> 62) == second) by (bit_vector);
    lemma_inverse(turned, 0x94d0_49bb_1331_11eb, 0x3196_42b2_d24d_8ec3, 0x1cd3_36ed_a85f_1453);
    assert((first ^ (first >> 27)) ^ ((first ^ (first >> 27)) >> 27) ^ ((first ^ (first >> 27))
        >> 54) == first) by (bit_vector);
    lemma_inverse(folded, 0xbf58_476d_1ce4_e5b9, 0x96de_1b17_3f11_9089, 0x70c3_bca7_8f27_f46c);
    assert((value ^ (value >> 30)) ^ ((value ^ (value >> 30)) >> 30) ^ ((value ^ (value >> 30))
        >> 60) == value) by (bit_vector);
}

proof fn lemma_wrapped(start: int, way: int)
    requires
        0 <= start < word_limit(),
        0 <= way,
    ensures
        (start + way % word_limit()) % word_limit() % 1_024 == (start + way) % 1_024,
{
    let m = word_limit();
    let q = way / m;
    let r = way % m;
    assert(way == q * m + r && 0 <= r < m);
    let q2 = (start + r) / m;
    let t = (start + r) % m;
    assert(start + r == q2 * m + t && 0 <= t < m);
    assert(start + way == (q + q2) * m + t);
    lemma_mod_multiples_vanish((q + q2) * 0x40_0000_0000_0000, t, 1_024);
}

proof fn lemma_probe(tenant: Seq<char>, key: CorrelationKey, index: u64)
    ensures
        probe(tenant, key, index) == (probe_start(tenant, key) + index * probe_stride(tenant, key))
            % 1_024,
{
    let start = probe_start(tenant, key);
    let stride = probe_stride(tenant, key);
    let way = index * stride;
    assert(way >= 0) by (nonlinear_arith)
        requires
            way == index * stride,
    ;
    lemma_wrapped(start as int, way);
    lemma_sum(start, index.wrapping_mul(stride));
    assert(index.wrapping_mul(stride) == way % word_limit());
}

proof fn lemma_sum(a: u64, b: u64)
    ensures
        a.wrapping_add(b) == (a + b) % word_limit(),
{
}

proof fn lemma_apart(near: int, way: int)
    requires
        way % 1_024 != 0,
    ensures
        (near + way) % 1_024 != near % 1_024,
{
    let (q, r) = (near / 1_024, near % 1_024);
    let (q2, r2) = ((near + way) / 1_024, (near + way) % 1_024);
    assert(near == q * 1_024 + r && near + way == q2 * 1_024 + r2);
    if r == r2 {
        assert(way == (q2 - q) * 1_024);
        lemma_mod_multiples_vanish(q2 - q, 0, 1_024);
    }
}

proof fn lemma_carried(near: int, way: int)
    ensures
        (near + way) % 1_024 == (near % 1_024 + way) % 1_024,
{
    lemma_mod_multiples_vanish(near / 1_024, near % 1_024 + way, 1_024);
}

/// The four bits of a key lie within the filter, are four different ones, and each
/// follows the one before at the same distance.
pub proof fn probes_are_evenly_apart(tenant: Seq<char>, key: CorrelationKey, index: u64, other: u64)
    requires
        index < other < 4,
    ensures
        probe(tenant, key, index) < 1_024,
        probe(tenant, key, index) != probe(tenant, key, other),
        probe(tenant, key, other) == (probe(tenant, key, index) + (other - index) * probe_stride(
            tenant,
            key,
        )) % 1_024,
{
    lemma_probe(tenant, key, index);
    lemma_probe(tenant, key, other);
    let start = probe_start(tenant, key) as int;
    let stride = probe_stride(tenant, key);
    lemma_odd(stride, tenant, key);
    let step = other - index;
    let near = start + index * stride;
    let way = step * stride;
    assert(start + other * stride == near + way) by (nonlinear_arith)
        requires
            step == other - index,
            near == start + index * stride,
            way == step * stride,
    ;
    lemma_steps(stride as int, step);
    lemma_apart(near, way);
    lemma_carried(near, way);
}

proof fn lemma_steps(stride: int, step: int)
    requires
        stride % 2 == 1,
        1 <= step <= 3,
    ensures
        (step * stride) % 1_024 != 0,
{
    if step == 1 {
        assert(step * stride == stride);
    } else if step == 2 {
        assert(step * stride == 2 * stride);
    } else {
        assert(step * stride == 3 * stride);
    }
}

/// Two keys of one kind start to probe at one place exactly where their low halves
/// agree.
pub proof fn starts_tell_low_halves_apart(tenant: Seq<char>, a: CorrelationKey, b: CorrelationKey)
    requires
        a.kind() == b.kind(),
    ensures
        probe_start(tenant, a) == probe_start(tenant, b) <==> a.number() as u64 == b.number() as u64,
{
    let hash = crate::checksum::fnv1a64_of(vstd::utf8::encode_utf8(tenant));
    let salt = (a.kind() as u64).wrapping_mul(0x9e37_79b9_7f4a_7c15);
    let (x, y) = (a.number() as u64, b.number() as u64);
    mixed_numbers_are_had_back(x ^ hash ^ salt);
    mixed_numbers_are_had_back(y ^ hash ^ salt);
    assert((x ^ hash ^ salt) == (y ^ hash ^ salt) ==> x == y) by (bit_vector);
}

/// A filter holds the four bits of a key and no other.
pub proof fn keys_have_their_probes(tenant: Seq<char>, key: CorrelationKey, bit: u64)
    ensures
        key_bits(tenant, key).contains(bit) <==> exists|index: u64|
            index < 4 && bit == #[trigger] probe(tenant, key, index),
{
    if key_bits(tenant, key).contains(bit) {
        assert(bit == probe(tenant, key, 0) || bit == probe(tenant, key, 1) || bit == probe(
            tenant,
            key,
            2,
        ) || bit == probe(tenant, key, 3));
    }
    if exists|index: u64| index < 4 && bit == #[trigger] probe(tenant, key, index) {
        let index = choose|index: u64| index < 4 && bit == #[trigger] probe(tenant, key, index);
        assert(index == 0 || index == 1 || index == 2 || index == 3);
    }
}

/// Keys that have their kind and their number in common are one key.
pub proof fn keys_are_told_apart(a: CorrelationKey, b: CorrelationKey)
    ensures
        a.kind() == b.kind() && a.number() == b.number() <==> a == b,
{
}

proof fn lemma_odd(stride: u64, tenant: Seq<char>, key: CorrelationKey)
    requires
        stride == probe_stride(tenant, key),
    ensures
        stride % 2 == 1,
{
    let tenant_hash = crate::checksum::fnv1a64_of(vstd::utf8::encode_utf8(tenant));
    let rotated = (tenant_hash << 29) | (tenant_hash >> 35);
    let spread = mixed(
        ((key.number() >> 64) as u64) ^ rotated ^ (key.kind() as u64).wrapping_mul(
            0xd6e8_feb8_6659_fd93,
        ),
    );
    assert((spread | 1) % 2 == 1) by (bit_vector);
}

} // verus!
