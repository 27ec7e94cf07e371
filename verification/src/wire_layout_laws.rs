//! Where the fields of the binary formats stand.

use vstd::bytes::{
    spec_u16_from_le_bytes, spec_u16_to_le_bytes, spec_u32_from_le_bytes, spec_u32_to_le_bytes,
    spec_u64_from_le_bytes, spec_u64_to_le_bytes,
};
use vstd::prelude::*;
use vstd::utf8::encode_utf8;

use crate::block_results::{
    manifest_magic, manifest_wire, BlockResult, DictionaryRun,
};
use crate::checksum::{fnv1a64_of, fnv_from, fnv_step};
use crate::envelope::{EnvelopeContent, envelope_magic};
use crate::ingest_pack::{live_header, pack_header, GroupContent, LiveContent};
use crate::locality::{container_magic, container_wire, FrameContent};
use crate::model::TelemetrySignal;
use crate::wire::{fields_read_back, leb128, u128_from_le, u128_le};

verus! {

/// The 64-bit number at a place, its low byte first.
pub open spec fn u64_at(bytes: Seq<u8>, at: int) -> u64 {
    spec_u64_from_le_bytes(bytes.subrange(at, at + 8))
}

/// The 32-bit number at a place, its low byte first.
pub open spec fn u32_at(bytes: Seq<u8>, at: int) -> u32 {
    spec_u32_from_le_bytes(bytes.subrange(at, at + 4))
}

/// The 16-bit number at a place, its low byte first.
pub open spec fn u16_at(bytes: Seq<u8>, at: int) -> u16 {
    spec_u16_from_le_bytes(bytes.subrange(at, at + 2))
}

proof fn lemma_widths(a: u64, b: u32, c: u16)
    ensures
        spec_u64_to_le_bytes(a).len() == 8,
        spec_u32_to_le_bytes(b).len() == 4,
        spec_u16_to_le_bytes(c).len() == 2,
        spec_u64_from_le_bytes(spec_u64_to_le_bytes(a)) == a,
        spec_u32_from_le_bytes(spec_u32_to_le_bytes(b)) == b,
        spec_u16_from_le_bytes(spec_u16_to_le_bytes(c)) == c,
{
    fields_read_back();
}

/// The number that groups of seven bits make, the low ones first.
pub open spec fn septets_value(bytes: Seq<u8>) -> nat
    decreases bytes.len(),
{
    if bytes.len() == 0 {
        0
    } else {
        (bytes[0] % 128) as nat + 128 * septets_value(bytes.skip(1))
    }
}

/// A LEB128 number is its seven-bit groups, low ones first; the high bit is set on
/// every byte but the last, and the last is not empty padding.
pub proof fn leb128_is_made_of_septets(value: nat)
    ensures
        septets_value(leb128(value)) == value,
        leb128(value).len() > 0,
        forall|i: int|
            0 <= i < leb128(value).len() - 1 ==> (#[trigger] leb128(value)[i]) >= 128,
        leb128(value).last() < 128,
        leb128(value).len() > 1 ==> leb128(value).last() > 0,
    decreases value,
{
    let bytes = leb128(value);
    if value < 128 {
        assert(bytes.skip(1) =~= Seq::empty());
        assert(septets_value(bytes.skip(1)) == 0);
    } else {
        leb128_is_made_of_septets(value / 128);
        let rest = leb128(value / 128);
        assert(bytes.skip(1) =~= rest);
        assert(bytes[0] == value % 128 + 128);
        assert forall|i: int| 0 <= i < bytes.len() - 1 implies (#[trigger] bytes[i]) >= 128 by {
            if i > 0 {
                assert(bytes[i] == rest[i - 1]);
            }
        }
        assert(bytes.last() == rest.last());
        if rest.len() == 1 {
            assert(rest.last() == septets_value(rest)) by {
                assert(rest.skip(1) =~= Seq::empty());
                assert(septets_value(rest.skip(1)) == 0);
            }
        }
    }
}

/// A 128-bit number is its low half, then its high half.
pub proof fn wide_numbers_have_their_low_half_first(value: u128)
    ensures
        u128_le(value).len() == 16,
        u64_at(u128_le(value), 0) == value % 0x1_0000_0000_0000_0000,
        u64_at(u128_le(value), 8) == value / 0x1_0000_0000_0000_0000,
        u128_from_le(u128_le(value)) == value,
{
    fields_read_back();
    let low = (value % 0x1_0000_0000_0000_0000) as u64;
    let high = (value / 0x1_0000_0000_0000_0000) as u64;
    lemma_widths(low, 0, 0);
    lemma_widths(high, 0, 0);
    assert(u128_le(value).subrange(0, 8) =~= spec_u64_to_le_bytes(low));
    assert(u128_le(value).subrange(8, 16) =~= spec_u64_to_le_bytes(high));
}

/// An envelope starts with `STEL`, the version one, the signal, the counts and the
/// lengths; the reserved bytes are zero, and the sections follow the digest: tenant,
/// routing metadata, payload.
pub proof fn envelope_fields_have_their_places(content: EnvelopeContent, digest: Seq<u8>)
    requires
        encode_utf8(content.tenant).len() <= u32::MAX,
        content.routing_metadata.len() <= u32::MAX,
        content.payload.len() <= u64::MAX,
        digest.len() == 32,
    ensures
        ({
            let bytes = content.prefix() + digest + content.sections();
            let tenant = encode_utf8(content.tenant);
            let routing = 64 + tenant.len() as int;
            let payload = routing + content.routing_metadata.len();
            &&& bytes[0] == 0x53 && bytes[1] == 0x54 && bytes[2] == 0x45 && bytes[3] == 0x4c
            &&& bytes[4] == 1
            &&& bytes[5] == (match content.signal {
                TelemetrySignal::Logs => 1u8,
                TelemetrySignal::Traces => 2u8,
                TelemetrySignal::Metrics => 3u8,
            })
            &&& bytes[6] == 0 && bytes[7] == 0
            &&& u32_at(bytes, 8) == content.item_count
            &&& u32_at(bytes, 12) == tenant.len()
            &&& u32_at(bytes, 16) == content.routing_metadata.len()
            &&& u64_at(bytes, 20) == content.payload.len()
            &&& bytes[28] == 0 && bytes[29] == 0 && bytes[30] == 0 && bytes[31] == 0
            &&& bytes.subrange(32, 64) == digest
            &&& bytes.subrange(64, routing) == tenant
            &&& bytes.subrange(routing, payload) == content.routing_metadata
            &&& bytes.skip(payload) == content.payload
        }),
{
    let bytes = content.prefix() + digest + content.sections();
    let tenant = encode_utf8(content.tenant);
    let routing = 64 + tenant.len() as int;
    let payload = routing + content.routing_metadata.len();
    lemma_widths(content.payload.len() as u64, content.item_count, 0);
    lemma_widths(0, tenant.len() as u32, 0);
    lemma_widths(0, content.routing_metadata.len() as u32, 0);
    assert(content.prefix().len() == 32);
    assert(bytes.subrange(8, 12) =~= spec_u32_to_le_bytes(content.item_count));
    assert(bytes.subrange(12, 16) =~= spec_u32_to_le_bytes(tenant.len() as u32));
    assert(bytes.subrange(16, 20) =~= spec_u32_to_le_bytes(content.routing_metadata.len() as u32));
    assert(bytes.subrange(20, 28) =~= spec_u64_to_le_bytes(content.payload.len() as u64));
    assert(bytes.subrange(32, 64) =~= digest);
    assert(bytes.subrange(64, routing) =~= tenant);
    assert(bytes.subrange(routing, payload) =~= content.routing_metadata);
    assert(bytes.skip(payload) =~= content.payload);
    assert(envelope_magic().len() == 4);
}

/// An entry of a manifest is ten numbers: place, source place, input, source and
/// record counts, size, worker, place in the pack, stored size and checksum.
pub proof fn manifest_fields_have_their_places(block: BlockResult)
    ensures
        block.wire().len() == 80,
        u64_at(block.wire(), 0) == block.ordinal,
        u64_at(block.wire(), 8) == block.source_offset,
        u64_at(block.wire(), 16) == block.input_bytes,
        u64_at(block.wire(), 24) == block.source_bytes,
        u64_at(block.wire(), 32) == block.record_count,
        u64_at(block.wire(), 40) == block.structural_bytes,
        u64_at(block.wire(), 48) == block.pack_worker,
        u64_at(block.wire(), 56) == block.pack_offset,
        u64_at(block.wire(), 64) == block.structural_stored_bytes,
        u64_at(block.wire(), 72) == block.payload_checksum,
{
    let wire = block.wire();
    lemma_widths(block.ordinal, 0, 0);
    lemma_widths(block.source_offset, 0, 0);
    lemma_widths(block.input_bytes, 0, 0);
    lemma_widths(block.source_bytes, 0, 0);
    lemma_widths(block.record_count, 0, 0);
    lemma_widths(block.structural_bytes, 0, 0);
    lemma_widths(block.pack_worker, 0, 0);
    lemma_widths(block.pack_offset, 0, 0);
    lemma_widths(block.structural_stored_bytes, 0, 0);
    lemma_widths(block.payload_checksum, 0, 0);
    assert(wire.subrange(0, 8) =~= spec_u64_to_le_bytes(block.ordinal));
    assert(wire.subrange(8, 16) =~= spec_u64_to_le_bytes(block.source_offset));
    assert(wire.subrange(16, 24) =~= spec_u64_to_le_bytes(block.input_bytes));
    assert(wire.subrange(24, 32) =~= spec_u64_to_le_bytes(block.source_bytes));
    assert(wire.subrange(32, 40) =~= spec_u64_to_le_bytes(block.record_count));
    assert(wire.subrange(40, 48) =~= spec_u64_to_le_bytes(block.structural_bytes));
    assert(wire.subrange(48, 56) =~= spec_u64_to_le_bytes(block.pack_worker));
    assert(wire.subrange(56, 64) =~= spec_u64_to_le_bytes(block.pack_offset));
    assert(wire.subrange(64, 72) =~= spec_u64_to_le_bytes(block.structural_stored_bytes));
    assert(wire.subrange(72, 80) =~= spec_u64_to_le_bytes(block.payload_checksum));
}

/// A manifest starts with `SLOGPACK2` and the number of its entries.
pub proof fn manifests_start_with_their_count(entries: Seq<BlockResult>)
    requires
        entries.len() <= u64::MAX,
    ensures
        manifest_wire(entries).len() >= 17,
        manifest_wire(entries).take(9) == seq![
            0x53u8,
            0x4c,
            0x4f,
            0x47,
            0x50,
            0x41,
            0x43,
            0x4b,
            0x32,
        ],
        u64_at(manifest_wire(entries), 9) == entries.len(),
{
    let wire = manifest_wire(entries);
    lemma_widths(entries.len() as u64, 0, 0);
    assert(manifest_magic().len() == 9);
    assert(wire.take(9) =~= manifest_magic());
    assert(wire.subrange(9, 17) =~= spec_u64_to_le_bytes(entries.len() as u64));
}

/// A run of a dictionary is its first block, its length and the dictionary.
pub proof fn run_fields_have_their_places(run: DictionaryRun)
    ensures
        run.wire().len() == 32,
        u64_at(run.wire(), 0) == run.start,
        u64_at(run.wire(), 8) == run.length,
        u128_from_le(run.wire().subrange(16, 32)) == run.dictionary_id.0,
{
    let wire = run.wire();
    lemma_widths(run.start, 0, 0);
    lemma_widths(run.length, 0, 0);
    wide_numbers_have_their_low_half_first(run.dictionary_id.0);
    assert(wire.subrange(0, 8) =~= spec_u64_to_le_bytes(run.start));
    assert(wire.subrange(8, 16) =~= spec_u64_to_le_bytes(run.length));
    assert(wire.subrange(16, 32) =~= u128_le(run.dictionary_id.0));
}

/// A frame of a container is its size before compression, its own length and its
/// bytes.
pub proof fn frame_fields_have_their_places(content: FrameContent)
    requires
        content.frame.len() <= u64::MAX,
    ensures
        u64_at(content.wire(), 0) == content.structural_len,
        u64_at(content.wire(), 8) == content.frame.len(),
        content.wire().skip(16) == content.frame,
{
    let wire = content.wire();
    lemma_widths(content.structural_len, 0, 0);
    lemma_widths(content.frame.len() as u64, 0, 0);
    assert(wire.subrange(0, 8) =~= spec_u64_to_le_bytes(content.structural_len));
    assert(wire.subrange(8, 16) =~= spec_u64_to_le_bytes(content.frame.len() as u64));
    assert(wire.skip(16) =~= content.frame);
}

/// A container starts with `SLOGLOC1` and the number of its frames.
pub proof fn containers_start_with_their_count(frames: Seq<FrameContent>)
    requires
        frames.len() <= u32::MAX,
    ensures
        container_wire(frames).len() >= 12,
        container_wire(frames).take(8) == seq![
            0x53u8,
            0x4c,
            0x4f,
            0x47,
            0x4c,
            0x4f,
            0x43,
            0x31,
        ],
        u32_at(container_wire(frames), 8) == frames.len(),
{
    let wire = container_wire(frames);
    lemma_widths(0, frames.len() as u32, 0);
    assert(container_magic().len() == 8);
    assert(wire.take(8) =~= container_magic());
    assert(wire.subrange(8, 12) =~= spec_u32_to_le_bytes(frames.len() as u32));
}

/// A pack starts with `SLW1`, the number of its records and of its groups, a sidecar
/// with `SLT1` and the number of its groups; the reserved bytes are zero.
pub proof fn pack_headers_have_their_places(record_count: u32, group_count: u16)
    ensures
        pack_header(record_count, group_count).len() == 12,
        pack_header(record_count, group_count).take(4) == seq![0x53u8, 0x4c, 0x57, 0x31],
        u32_at(pack_header(record_count, group_count), 4) == record_count,
        u16_at(pack_header(record_count, group_count), 8) == group_count,
        pack_header(record_count, group_count)[10] == 0,
        pack_header(record_count, group_count)[11] == 0,
        live_header(group_count).len() == 8,
        live_header(group_count).take(4) == seq![0x53u8, 0x4c, 0x54, 0x31],
        u16_at(live_header(group_count), 4) == group_count,
        live_header(group_count)[6] == 0,
        live_header(group_count)[7] == 0,
{
    let (pack, live) = (pack_header(record_count, group_count), live_header(group_count));
    lemma_widths(0, record_count, group_count);
    assert(pack.take(4) =~= seq![0x53u8, 0x4c, 0x57, 0x31]);
    assert(pack.subrange(4, 8) =~= spec_u32_to_le_bytes(record_count));
    assert(pack.subrange(8, 10) =~= spec_u16_to_le_bytes(group_count));
    assert(live.take(4) =~= seq![0x53u8, 0x4c, 0x54, 0x31]);
    assert(live.subrange(4, 6) =~= spec_u16_to_le_bytes(group_count));
}

/// A group of a pack is its cohort, its records, its size, the length of its frame,
/// the checksum, the earliest and the latest time, and the frame.
pub proof fn group_fields_have_their_places(group: GroupContent)
    requires
        group.frame.len() <= u32::MAX,
    ensures
        group.wire().len() == 40 + group.frame.len(),
        u64_at(group.wire(), 0) == group.cohort,
        u32_at(group.wire(), 8) == group.record_count,
        u32_at(group.wire(), 12) == group.structural_bytes,
        u32_at(group.wire(), 16) == group.frame.len(),
        u32_at(group.wire(), 20) == group.checksum,
        u64_at(group.wire(), 24) == group.earliest,
        u64_at(group.wire(), 32) == group.latest,
        group.wire().skip(40) == group.frame,
{
    let wire = group.wire();
    lemma_widths(group.cohort, group.record_count, 0);
    lemma_widths(group.earliest, group.structural_bytes, 0);
    lemma_widths(group.latest, group.frame.len() as u32, 0);
    lemma_widths(0, group.checksum, 0);
    assert(wire.subrange(0, 8) =~= spec_u64_to_le_bytes(group.cohort));
    assert(wire.subrange(8, 12) =~= spec_u32_to_le_bytes(group.record_count));
    assert(wire.subrange(12, 16) =~= spec_u32_to_le_bytes(group.structural_bytes));
    assert(wire.subrange(16, 20) =~= spec_u32_to_le_bytes(group.frame.len() as u32));
    assert(wire.subrange(20, 24) =~= spec_u32_to_le_bytes(group.checksum));
    assert(wire.subrange(24, 32) =~= spec_u64_to_le_bytes(group.earliest));
    assert(wire.subrange(32, 40) =~= spec_u64_to_le_bytes(group.latest));
    assert(wire.skip(40) =~= group.frame);
}

/// A group of a sidecar is the cohort, the records and the size of its group, the
/// length of the index and the index.
pub proof fn live_fields_have_their_places(live: LiveContent)
    requires
        live.index.len() <= u32::MAX,
    ensures
        live.wire().len() == 20 + live.index.len(),
        u64_at(live.wire(), 0) == live.cohort,
        u32_at(live.wire(), 8) == live.record_count,
        u32_at(live.wire(), 12) == live.structural_bytes,
        u32_at(live.wire(), 16) == live.index.len(),
        live.wire().skip(20) == live.index,
{
    let wire = live.wire();
    lemma_widths(live.cohort, live.record_count, 0);
    lemma_widths(0, live.structural_bytes, 0);
    lemma_widths(0, live.index.len() as u32, 0);
    assert(wire.subrange(0, 8) =~= spec_u64_to_le_bytes(live.cohort));
    assert(wire.subrange(8, 12) =~= spec_u32_to_le_bytes(live.record_count));
    assert(wire.subrange(12, 16) =~= spec_u32_to_le_bytes(live.structural_bytes));
    assert(wire.subrange(16, 20) =~= spec_u32_to_le_bytes(live.index.len() as u32));
    assert(wire.skip(20) =~= live.index);
}

/// The hash of nothing is the FNV offset basis; each byte is mixed in by exclusive
/// or before the product with the FNV prime, and bytes can be hashed in parts.
pub proof fn hashes_follow_fnv(bytes: Seq<u8>, more: Seq<u8>, byte: u8)
    ensures
        fnv1a64_of(Seq::<u8>::empty()) == 0xcbf2_9ce4_8422_2325,
        fnv1a64_of(bytes.push(byte)) as int == ((fnv1a64_of(bytes) ^ byte as u64) as int
            * 0x100_0000_01b3) % 0x1_0000_0000_0000_0000,
        fnv1a64_of(bytes + more) == fnv_from(fnv1a64_of(bytes), more),
    decreases more.len(),
{
    assert(bytes.push(byte).drop_last() =~= bytes);
    assert(fnv1a64_of(bytes.push(byte)) == fnv_step(fnv1a64_of(bytes), byte));
    if more.len() == 0 {
        assert(bytes + more =~= bytes);
    } else {
        hashes_follow_fnv(bytes, more.drop_last(), byte);
        assert((bytes + more).drop_last() =~= bytes + more.drop_last());
    }
}

} // verus!
