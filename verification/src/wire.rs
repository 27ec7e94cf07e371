//! Little-endian fields and LEB128 lengths shared by the binary formats.

use vstd::bytes::{
    lemma_auto_spec_u16_to_from_le_bytes, lemma_auto_spec_u32_to_from_le_bytes,
    lemma_auto_spec_u64_to_from_le_bytes, spec_u16_from_le_bytes, spec_u16_to_le_bytes,
    spec_u32_from_le_bytes, spec_u32_to_le_bytes, spec_u64_from_le_bytes, spec_u64_to_le_bytes,
    u16_from_le_bytes, u16_to_le_bytes, u32_from_le_bytes, u32_to_le_bytes, u64_from_le_bytes,
    u64_to_le_bytes,
};
use vstd::prelude::*;

verus! {

/// Unsigned LEB128: seven value bits per byte, low bits first, with the high
/// bit set on every byte but the last.
pub open spec fn leb128(value: nat) -> Seq<u8>
    decreases value,
{
    if value < 128 {
        seq![value as u8]
    } else {
        seq![(value % 128 + 128) as u8] + leb128(value / 128)
    }
}

/// Reads one LEB128 value from the front of `bytes`: the value and its width.
pub open spec fn leb128_read(bytes: Seq<u8>) -> Option<(nat, nat)>
    decreases bytes.len(),
{
    if bytes.len() == 0 {
        None
    } else if bytes[0] < 128 {
        Some((bytes[0] as nat, 1nat))
    } else {
        match leb128_read(bytes.skip(1)) {
            None => None,
            Some((value, width)) => Some(((bytes[0] - 128) as nat + 128 * value, width + 1)),
        }
    }
}

/// A LEB128 length followed by anything reads back as that length.
pub proof fn leb128_reads_back(value: nat, rest: Seq<u8>)
    ensures
        leb128_read(leb128(value) + rest) == Some((value, leb128(value).len())),
        leb128(value).len() >= 1,
    decreases value,
{
    let bytes = leb128(value) + rest;
    if value >= 128 {
        leb128_reads_back(value / 128, rest);
        assert(bytes.skip(1) =~= leb128(value / 128) + rest);
    }
}

/// Appends `value` to `output` as LEB128.
pub fn write_varint(value: u64, output: &mut Vec<u8>)
    ensures
        final(output)@ == old(output)@ + leb128(value as nat),
{
    let mut rest: u64 = value;
    while rest >= 0x80
        invariant
            output@ + leb128(rest as nat) == old(output)@ + leb128(value as nat),
        decreases rest,
    {
        let low = (rest % 128) as u8;
        let ghost before = output@;
        output.push(low + 128);
        proof {
            assert(leb128(rest as nat) == seq![(rest % 128 + 128) as u8] + leb128(
                (rest / 128) as nat,
            ));
            assert(output@ + leb128((rest / 128) as nat) =~= before + leb128(rest as nat));
        }
        rest = rest / 128;
    }
    let ghost before = output@;
    output.push(rest as u8);
    assert(output@ =~= before + leb128(rest as nat));
}

/// Little-endian bytes of a 16-byte integer.
pub open spec fn u128_le(value: u128) -> Seq<u8> {
    spec_u64_to_le_bytes((value % 0x1_0000_0000_0000_0000) as u64) + spec_u64_to_le_bytes(
        (value / 0x1_0000_0000_0000_0000) as u64,
    )
}

/// The integer whose little-endian bytes are the 16 bytes of `bytes`.
pub open spec fn u128_from_le(bytes: Seq<u8>) -> u128 {
    (spec_u64_from_le_bytes(bytes.subrange(0, 8)) + 0x1_0000_0000_0000_0000
        * spec_u64_from_le_bytes(bytes.subrange(8, 16))) as u128
}

/// Appends a 16-bit little-endian field.
pub fn push_u16(output: &mut Vec<u8>, value: u16)
    ensures
        final(output)@ == old(output)@ + spec_u16_to_le_bytes(value),
{
    let mut field = u16_to_le_bytes(value);
    output.append(&mut field);
}

/// Appends a 32-bit little-endian field.
pub fn push_u32(output: &mut Vec<u8>, value: u32)
    ensures
        final(output)@ == old(output)@ + spec_u32_to_le_bytes(value),
{
    let mut field = u32_to_le_bytes(value);
    output.append(&mut field);
}

/// Appends a 64-bit little-endian field.
pub fn push_u64(output: &mut Vec<u8>, value: u64)
    ensures
        final(output)@ == old(output)@ + spec_u64_to_le_bytes(value),
{
    let mut field = u64_to_le_bytes(value);
    output.append(&mut field);
}

/// Appends a 128-bit little-endian field.
pub fn push_u128(output: &mut Vec<u8>, value: u128)
    ensures
        final(output)@ == old(output)@ + u128_le(value),
{
    push_u64(output, (value % 0x1_0000_0000_0000_0000) as u64);
    push_u64(output, (value / 0x1_0000_0000_0000_0000) as u64);
    assert(output@ =~= old(output)@ + u128_le(value));
}

/// Appends every byte of `bytes`.
pub fn push_bytes(output: &mut Vec<u8>, bytes: &[u8])
    ensures
        final(output)@ == old(output)@ + bytes@,
{
    output.extend_from_slice(bytes);
    assert(output@ =~= old(output)@ + bytes@);
}

/// Reads the 16-bit field at `offset`.
pub fn read_u16(bytes: &[u8], offset: usize) -> (value: u16)
    requires
        offset + 2 <= bytes@.len(),
    ensures
        value == spec_u16_from_le_bytes(bytes@.subrange(offset as int, offset + 2)),
{
    assert(bytes.len() == bytes@.len());
    u16_from_le_bytes(vstd::slice::slice_subrange(bytes, offset, offset + 2))
}

/// Reads the 32-bit field at `offset`.
pub fn read_u32(bytes: &[u8], offset: usize) -> (value: u32)
    requires
        offset + 4 <= bytes@.len(),
    ensures
        value == spec_u32_from_le_bytes(bytes@.subrange(offset as int, offset + 4)),
{
    assert(bytes.len() == bytes@.len());
    u32_from_le_bytes(vstd::slice::slice_subrange(bytes, offset, offset + 4))
}

/// Reads the 64-bit field at `offset`.
pub fn read_u64(bytes: &[u8], offset: usize) -> (value: u64)
    requires
        offset + 8 <= bytes@.len(),
    ensures
        value == spec_u64_from_le_bytes(bytes@.subrange(offset as int, offset + 8)),
{
    assert(bytes.len() == bytes@.len());
    u64_from_le_bytes(vstd::slice::slice_subrange(bytes, offset, offset + 8))
}

/// Reads the 128-bit field at `offset`.
pub fn read_u128(bytes: &[u8], offset: usize) -> (value: u128)
    requires
        offset + 16 <= bytes@.len(),
    ensures
        value == u128_from_le(bytes@.subrange(offset as int, offset + 16)),
{
    assert(bytes.len() == bytes@.len());
    let low = read_u64(bytes, offset);
    let high = read_u64(bytes, offset + 8);
    let ghost field = bytes@.subrange(offset as int, offset + 16);
    assert(field.subrange(0, 8) =~= bytes@.subrange(offset as int, offset + 8));
    assert(field.subrange(8, 16) =~= bytes@.subrange(offset + 8, offset + 16));
    assert(high as int * 0x1_0000_0000_0000_0000 + low as int <= u128::MAX);
    high as u128 * 0x1_0000_0000_0000_0000 + low as u128
}

/// Little-endian fields are read back exactly as they were written.
pub proof fn fields_read_back()
    ensures
        forall|x: u16| #[trigger]
            spec_u16_to_le_bytes(x).len() == 2 && spec_u16_from_le_bytes(spec_u16_to_le_bytes(x))
                == x,
        forall|x: u32| #[trigger]
            spec_u32_to_le_bytes(x).len() == 4 && spec_u32_from_le_bytes(spec_u32_to_le_bytes(x))
                == x,
        forall|x: u64| #[trigger]
            spec_u64_to_le_bytes(x).len() == 8 && spec_u64_from_le_bytes(spec_u64_to_le_bytes(x))
                == x,
        forall|x: u128| #[trigger] u128_le(x).len() == 16 && u128_from_le(u128_le(x)) == x,
{
    lemma_auto_spec_u16_to_from_le_bytes();
    lemma_auto_spec_u32_to_from_le_bytes();
    lemma_auto_spec_u64_to_from_le_bytes();
    assert forall|x: u128| #[trigger] u128_le(x).len() == 16 && u128_from_le(u128_le(x)) == x by {
        let low = (x % 0x1_0000_0000_0000_0000) as u64;
        let high = (x / 0x1_0000_0000_0000_0000) as u64;
        assert(u128_le(x).subrange(0, 8) =~= spec_u64_to_le_bytes(low));
        assert(u128_le(x).subrange(8, 16) =~= spec_u64_to_le_bytes(high));
        assert(low as int + 0x1_0000_0000_0000_0000 * high as int == x as int);
    }
}

} // verus!
