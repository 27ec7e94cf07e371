//! Corpus records in groups, in blocks and in envelopes.

use vstd::bytes::spec_u32_to_le_bytes;
use vstd::prelude::*;
use vstd::utf8::encode_utf8;

use crate::byte_map::ByteMap;
use crate::corpus::TENANT;
use crate::corpus_rows::{be_bytes, push_be};
use crate::envelope::{reports, EnvelopeContent, TelemetryEnvelope};
use crate::error::TelemetryResult;
use crate::model::{
    LogicalOffset, LogicalPartitionId, ShardId, TelemetryRecordRef, TelemetrySignal, TopicId,
    TopicPartition, METRICS_TOPIC_ID, TRACES_TOPIC_ID,
};
use crate::records::{DurableMetricPoint, DurableSpan, SeriesFingerprint, TraceId};
use crate::string_map::bytes_precede;
use crate::template::byte_views;
use crate::wire::push_u32;

verus! {

/// Records of one stored trace batch, at most.
pub const TRACE_BATCH_RECORDS: usize = 32_768;

/// Source bytes of a trace block, unless one trace alone needs more.
pub const TRACE_BLOCK_SOURCE_BYTES: usize = 8_388_608;

/// The places at which a key stands, in rising order.
pub open spec fn places_of(keys: Seq<Seq<u8>>, key: Seq<u8>) -> Seq<usize>
    decreases keys.len(),
{
    if keys.len() == 0 {
        Seq::empty()
    } else {
        let earlier = places_of(keys.drop_last(), key);
        if keys.last() == key {
            earlier.push((keys.len() - 1) as usize)
        } else {
            earlier
        }
    }
}

/// Whether a map lists the places of every key, and nothing else.
pub open spec fn groups_keys(groups: Map<Seq<u8>, Vec<usize>>, keys: Seq<Seq<u8>>) -> bool {
    &&& forall|key: Seq<u8>| #[trigger] groups.dom().contains(key) <==> keys.contains(key)
    &&& forall|key: Seq<u8>| #[trigger]
        groups.dom().contains(key) ==> groups[key]@ == places_of(keys, key)
}

/// Groups places by key; the groups come in the byte order of their keys.
pub fn group_by_key(keys: &Vec<Vec<u8>>) -> (groups: ByteMap<Vec<usize>>)
    ensures
        groups_keys(groups@, byte_views(keys@)),
{
    let ghost all = byte_views(keys@);
    let mut groups: ByteMap<Vec<usize>> = ByteMap::new();
    let mut index: usize = 0;
    assert(all.take(0) =~= Seq::<Seq<u8>>::empty());
    while index < keys.len()
        invariant
            index <= keys@.len(),
            all == byte_views(keys@),
            groups_keys(groups@, all.take(index as int)),
        decreases keys@.len() - index,
    {
        let ghost before = groups@;
        let ghost seen = all.take(index as int);
        let ghost more = all.take(index + 1);
        let ghost key = keys@[index as int]@;
        groups.append(keys[index].as_slice(), index);
        proof {
            assert(more.drop_last() =~= seen);
            assert(more.last() == key);
            assert forall|other: Seq<u8>| #[trigger]
                groups@.dom().contains(other) <==> more.contains(other) by {
                if more.contains(other) {
                    let at = choose|at: int| 0 <= at < more.len() && more[at] == other;
                    if at < seen.len() {
                        assert(seen[at] == other);
                        assert(seen.contains(other));
                        assert(before.dom().contains(other));
                    }
                }
                if seen.contains(other) {
                    let at = choose|at: int| 0 <= at < seen.len() && seen[at] == other;
                    assert(more[at] == other);
                }
                assert(more[seen.len() as int] == key);
                if groups@.dom().contains(other) && other != key {
                    assert(before.dom().contains(other));
                }
            }
            assert forall|other: Seq<u8>| #[trigger]
                groups@.dom().contains(other) implies groups@[other]@ == places_of(more, other) by {
                if other != key {
                    assert(before.dom().contains(other));
                } else if !before.dom().contains(key) {
                    assert(!seen.contains(key));
                    lemma_no_places(seen, key);
                    assert(groups@[key]@ =~= Seq::<usize>::empty().push(index));
                }
            }
        }
        index = index + 1;
    }
    assert(all.take(index as int) =~= all);
    groups
}

proof fn lemma_no_places(keys: Seq<Seq<u8>>, key: Seq<u8>)
    requires
        !keys.contains(key),
    ensures
        places_of(keys, key) == Seq::<usize>::empty(),
    decreases keys.len(),
{
    if keys.len() > 0 {
        assert(keys.contains(keys[keys.len() - 1]));
        let shorter = keys.drop_last();
        assert forall|i: int| 0 <= i < shorter.len() implies shorter[i] != key by {
            assert(keys.contains(keys[i]));
        }
        lemma_no_places(shorter, key);
    }
}

/// Bytes whose order is that of texts, whatever follows them.
pub open spec fn ordered_text(bytes: Seq<u8>) -> Seq<u8>
    decreases bytes.len(),
{
    if bytes.len() == 0 {
        seq![0u8]
    } else {
        seq![1u8, bytes[0]] + ordered_text(bytes.skip(1))
    }
}

/// The key of a trace: its tenant, then its number.
pub open spec fn trace_key(tenant: Seq<char>, trace: TraceId) -> Seq<u8> {
    ordered_text(encode_utf8(tenant)) + be_bytes(trace.0 as nat, 16)
}

/// The key of a series within a partition.
pub open spec fn series_key(partition: u32, series: SeriesFingerprint) -> Seq<u8> {
    be_bytes(partition as nat, 4) + be_bytes(series.0 as nat, 16)
}

/// Writes the key of a trace.
pub fn write_trace_key(tenant: &str, trace: TraceId) -> (key: Vec<u8>)
    ensures
        key@ == trace_key(tenant@, trace),
{
    let bytes = tenant.as_bytes();
    let mut key: Vec<u8> = Vec::new();
    let mut index: usize = 0;
    assert(bytes@.skip(0) =~= bytes@);
    assert(key@ + ordered_text(bytes@) =~= ordered_text(bytes@));
    while index < bytes.len()
        invariant
            index <= bytes@.len(),
            key@ + ordered_text(bytes@.skip(index as int)) == ordered_text(bytes@),
        decreases bytes@.len() - index,
    {
        let ghost before = key@;
        key.push(1);
        key.push(bytes[index]);
        proof {
            let rest = bytes@.skip(index as int);
            assert(rest[0] == bytes@[index as int]);
            assert(rest.skip(1) =~= bytes@.skip(index + 1));
            assert(key@ + ordered_text(rest.skip(1)) =~= before + ordered_text(rest));
        }
        index = index + 1;
    }
    assert(bytes@.skip(index as int).len() == 0);
    key.push(0);
    assert(key@ =~= ordered_text(bytes@));
    push_be(&mut key, trace.0, 16);
    key
}

/// Writes the key of a series within a partition.
pub fn write_series_key(partition: u32, series: SeriesFingerprint) -> (key: Vec<u8>)
    ensures
        key@ == series_key(partition, series),
{
    let mut key: Vec<u8> = Vec::new();
    push_be(&mut key, partition as u128, 4);
    push_be(&mut key, series.0, 16);
    assert(key@ =~= series_key(partition, series));
    key
}

proof fn lemma_order_by_prefix(left: Seq<u8>, right: Seq<u8>, more: Seq<u8>, other: Seq<u8>)
    requires
        bytes_precede(left, right),
        left.len() == right.len(),
    ensures
        bytes_precede(left + more, right + other),
    decreases left.len(),
{
    let (a, b) = (left + more, right + other);
    assert(a[0] == left[0] && b[0] == right[0]);
    if left[0] == right[0] {
        lemma_order_by_prefix(left.skip(1), right.skip(1), more, other);
        assert(a.skip(1) =~= left.skip(1) + more);
        assert(b.skip(1) =~= right.skip(1) + other);
    }
}

proof fn lemma_order_behind_prefix(prefix: Seq<u8>, left: Seq<u8>, right: Seq<u8>)
    ensures
        bytes_precede(prefix + left, prefix + right) == bytes_precede(left, right),
    decreases prefix.len(),
{
    if prefix.len() == 0 {
        assert(prefix + left =~= left);
        assert(prefix + right =~= right);
    } else {
        let (a, b) = (prefix + left, prefix + right);
        assert(a[0] == prefix[0] && b[0] == prefix[0]);
        assert(a.skip(1) =~= prefix.skip(1) + left);
        assert(b.skip(1) =~= prefix.skip(1) + right);
        lemma_order_behind_prefix(prefix.skip(1), left, right);
    }
}

/// The number of values of some bytes.
pub open spec fn byte_range(width: nat) -> nat
    decreases width,
{
    if width == 0 {
        1
    } else {
        256 * byte_range((width - 1) as nat)
    }
}

proof fn lemma_be_length(value: nat, width: nat)
    ensures
        be_bytes(value, width).len() == width,
    decreases width,
{
    if width > 0 {
        lemma_be_length(value / 256, (width - 1) as nat);
    }
}

proof fn lemma_be_order(left: nat, right: nat, width: nat)
    requires
        left < right < byte_range(width),
    ensures
        bytes_precede(be_bytes(left, width), be_bytes(right, width)),
    decreases width,
{
    let narrower = (width - 1) as nat;
    let (a, b) = (be_bytes(left / 256, narrower), be_bytes(right / 256, narrower));
    let (x, y) = (seq![(left % 256) as u8], seq![(right % 256) as u8]);
    assert(be_bytes(left, width) =~= a + x);
    assert(be_bytes(right, width) =~= b + y);
    lemma_be_length(left / 256, narrower);
    lemma_be_length(right / 256, narrower);
    if left / 256 < right / 256 {
        lemma_be_order(left / 256, right / 256, narrower);
        lemma_order_by_prefix(a, b, x, y);
    } else {
        lemma_order_behind_prefix(a, x, y);
        assert(bytes_precede(x, y));
    }
}

proof fn lemma_wide_ranges()
    ensures
        byte_range(4) == 0x1_0000_0000,
        byte_range(16) == 0x1_0000_0000_0000_0000_0000_0000_0000_0000,
{
    reveal_with_fuel(byte_range, 17);
}

proof fn lemma_text_order(left: Seq<u8>, right: Seq<u8>, more: Seq<u8>, other: Seq<u8>)
    requires
        bytes_precede(left, right),
    ensures
        bytes_precede(ordered_text(left) + more, ordered_text(right) + other),
    decreases left.len(),
{
    let (a, b) = (ordered_text(left) + more, ordered_text(right) + other);
    assert(b[0] == 1 && b[1] == right[0]);
    if left.len() == 0 {
        assert(a[0] == 0);
    } else {
        assert(a[0] == 1 && a[1] == left[0]);
        assert(a.skip(1)[0] == left[0] && b.skip(1)[0] == right[0]);
        if left[0] == right[0] {
            lemma_text_order(left.skip(1), right.skip(1), more, other);
            assert(a.skip(1).skip(1) =~= ordered_text(left.skip(1)) + more);
            assert(b.skip(1).skip(1) =~= ordered_text(right.skip(1)) + other);
        }
        assert(bytes_precede(a.skip(1), b.skip(1)));
    }
}

/// Trace keys stand in the order of tenants, and of traces within a tenant.
pub proof fn trace_keys_keep_order(
    left_tenant: Seq<char>,
    left: TraceId,
    right_tenant: Seq<char>,
    right: TraceId,
)
    requires
        crate::string_map::key_precedes(left_tenant, right_tenant) || (left_tenant == right_tenant
            && left.0 < right.0),
    ensures
        bytes_precede(trace_key(left_tenant, left), trace_key(right_tenant, right)),
{
    let (a, b) = (be_bytes(left.0 as nat, 16), be_bytes(right.0 as nat, 16));
    if crate::string_map::key_precedes(left_tenant, right_tenant) {
        lemma_text_order(encode_utf8(left_tenant), encode_utf8(right_tenant), a, b);
    } else {
        lemma_wide_ranges();
        lemma_be_order(left.0 as nat, right.0 as nat, 16);
        lemma_order_behind_prefix(ordered_text(encode_utf8(left_tenant)), a, b);
    }
}

/// Series keys stand in the order of partitions, and of series within one.
pub proof fn series_keys_keep_order(
    left_partition: u32,
    left: SeriesFingerprint,
    right_partition: u32,
    right: SeriesFingerprint,
)
    requires
        left_partition < right_partition || (left_partition == right_partition && left.0 < right.0),
    ensures
        bytes_precede(series_key(left_partition, left), series_key(right_partition, right)),
{
    lemma_wide_ranges();
    let (a, b) = (be_bytes(left_partition as nat, 4), be_bytes(right_partition as nat, 4));
    let (x, y) = (be_bytes(left.0 as nat, 16), be_bytes(right.0 as nat, 16));
    lemma_be_length(left_partition as nat, 4);
    lemma_be_length(right_partition as nat, 4);
    if left_partition < right_partition {
        lemma_be_order(left_partition as nat, right_partition as nat, 4);
        lemma_order_by_prefix(a, b, x, y);
    } else {
        lemma_be_order(left.0 as nat, right.0 as nat, 16);
        lemma_order_behind_prefix(a, x, y);
    }
}

/// Groups spans by tenant and trace.
pub fn group_traces(spans: &Vec<DurableSpan>) -> (groups: ByteMap<Vec<usize>>)
    ensures
        groups_keys(
            groups@,
            Seq::new(spans@.len(), |i: int| trace_key(spans@[i].tenant@, spans@[i].trace_id)),
        ),
{
    let ghost expected = Seq::new(
        spans@.len(),
        |i: int| trace_key(spans@[i].tenant@, spans@[i].trace_id),
    );
    let mut keys: Vec<Vec<u8>> = Vec::new();
    let mut index: usize = 0;
    while index < spans.len()
        invariant
            index <= spans@.len(),
            keys@.len() == index,
            forall|i: int|
                0 <= i < index ==> (#[trigger] keys@[i])@ == trace_key(
                    spans@[i].tenant@,
                    spans@[i].trace_id,
                ),
        decreases spans@.len() - index,
    {
        keys.push(write_trace_key(spans[index].tenant.as_str(), spans[index].trace_id));
        index = index + 1;
    }
    assert(byte_views(keys@) =~= expected);
    group_by_key(&keys)
}

/// Groups points by the partition that they are routed to and by series.
pub fn group_series(points: &Vec<DurableMetricPoint>, partitions: &Vec<u32>) -> (groups: ByteMap<
    Vec<usize>,
>)
    requires
        partitions@.len() == points@.len(),
    ensures
        groups_keys(
            groups@,
            Seq::new(
                points@.len(),
                |i: int| series_key(partitions@[i], points@[i].identity.series()),
            ),
        ),
{
    let ghost expected = Seq::new(
        points@.len(),
        |i: int| series_key(partitions@[i], points@[i].identity.series()),
    );
    let mut keys: Vec<Vec<u8>> = Vec::new();
    let mut index: usize = 0;
    while index < points.len()
        invariant
            index <= points@.len(),
            partitions@.len() == points@.len(),
            keys@.len() == index,
            forall|i: int|
                0 <= i < index ==> (#[trigger] keys@[i])@ == series_key(
                    partitions@[i],
                    points@[i].identity.series(),
                ),
        decreases points@.len() - index,
    {
        keys.push(write_series_key(partitions[index], points[index].series_fingerprint()));
        index = index + 1;
    }
    assert(byte_views(keys@) =~= expected);
    group_by_key(&keys)
}

/// The sum of the sizes at some places, at most the largest count.
pub open spec fn size_at(sizes: Seq<usize>, places: Seq<usize>) -> int
    decreases places.len(),
{
    if places.len() == 0 {
        0
    } else {
        let sum = size_at(sizes, places.drop_last()) + sizes[places.last() as int];
        if sum > usize::MAX {
            usize::MAX as int
        } else {
            sum
        }
    }
}

/// Blocks under way: those that are full, and the one that is being filled.
#[verifier::ext_equal]
pub struct Packing {
    /// Full blocks.
    pub blocks: Seq<Seq<usize>>,
    /// Block that is being filled.
    pub block: Seq<usize>,
    /// Its bytes.
    pub bytes: int,
}

/// Adds one group to the blocks.
pub open spec fn packed(before: Packing, group: Seq<usize>, bytes: int) -> Packing {
    let joined = if before.bytes + bytes > usize::MAX {
        usize::MAX as int
    } else {
        before.bytes + bytes
    };
    if before.block.len() > 0 && joined > TRACE_BLOCK_SOURCE_BYTES {
        Packing { blocks: before.blocks.push(before.block), block: group, bytes }
    } else {
        Packing { blocks: before.blocks, block: before.block + group, bytes: joined }
    }
}

/// The blocks of groups.
pub open spec fn packing(groups: Seq<Seq<usize>>, sizes: Seq<usize>) -> Packing
    decreases groups.len(),
{
    if groups.len() == 0 {
        Packing { blocks: Seq::empty(), block: Seq::empty(), bytes: 0 }
    } else {
        packed(
            packing(groups.drop_last(), sizes),
            groups.last(),
            size_at(sizes, groups.last()),
        )
    }
}

/// The finished blocks of groups.
pub open spec fn finished(packing: Packing) -> Seq<Seq<usize>> {
    if packing.block.len() > 0 {
        packing.blocks.push(packing.block)
    } else {
        packing.blocks
    }
}

/// Places of groups.
pub open spec fn place_views(groups: Seq<Vec<usize>>) -> Seq<Seq<usize>> {
    Seq::new(groups.len(), |i: int| groups[i]@)
}

fn sum_sizes(sizes: &Vec<usize>, places: &Vec<usize>) -> (sum: usize)
    requires
        forall|i: int| 0 <= i < places@.len() ==> (#[trigger] places@[i]) < sizes@.len(),
    ensures
        sum == size_at(sizes@, places@),
{
    let mut sum: usize = 0;
    let mut index: usize = 0;
    assert(places@.take(0) =~= Seq::<usize>::empty());
    while index < places.len()
        invariant
            index <= places@.len(),
            forall|i: int| 0 <= i < places@.len() ==> (#[trigger] places@[i]) < sizes@.len(),
            sum == size_at(sizes@, places@.take(index as int)),
        decreases places@.len() - index,
    {
        assert(places@.take(index + 1).drop_last() =~= places@.take(index as int));
        sum = sum.saturating_add(sizes[places[index]]);
        index = index + 1;
    }
    assert(places@.take(index as int) =~= places@);
    sum
}

fn push_places(block: &mut Vec<usize>, places: &Vec<usize>)
    ensures
        final(block)@ == old(block)@ + places@,
{
    let mut index: usize = 0;
    assert(block@ =~= old(block)@ + places@.take(0));
    while index < places.len()
        invariant
            index <= places@.len(),
            block@ == old(block)@ + places@.take(index as int),
        decreases places@.len() - index,
    {
        block.push(places[index]);
        assert(block@ =~= old(block)@ + places@.take(index + 1));
        index = index + 1;
    }
    assert(places@.take(index as int) =~= places@);
}

/// Packs groups into blocks: whole groups, until a block would grow too large.
pub fn pack_groups(groups: &Vec<Vec<usize>>, sizes: &Vec<usize>) -> (blocks: Vec<Vec<usize>>)
    requires
        forall|i: int, j: int|
            0 <= i < groups@.len() && 0 <= j < groups@[i]@.len() ==> (#[trigger] groups@[i]@[j])
                < sizes@.len(),
    ensures
        place_views(blocks@) == finished(packing(place_views(groups@), sizes@)),
{
    let ghost all = place_views(groups@);
    let mut blocks: Vec<Vec<usize>> = Vec::new();
    let mut block: Vec<usize> = Vec::new();
    let mut bytes: usize = 0;
    let mut index: usize = 0;
    assert(all.take(0) =~= Seq::<Seq<usize>>::empty());
    assert(place_views(blocks@) =~= Seq::<Seq<usize>>::empty());
    while index < groups.len()
        invariant
            index <= groups@.len(),
            all == place_views(groups@),
            forall|i: int, j: int|
                0 <= i < groups@.len() && 0 <= j < groups@[i]@.len() ==> (
                #[trigger] groups@[i]@[j]) < sizes@.len(),
            packing(all.take(index as int), sizes@) == (Packing {
                blocks: place_views(blocks@),
                block: block@,
                bytes: bytes as int,
            }),
        decreases groups@.len() - index,
    {
        assert(all.take(index + 1).drop_last() =~= all.take(index as int));
        assert(all.take(index + 1).last() == groups@[index as int]@);
        let group_bytes = sum_sizes(sizes, &groups[index]);
        let joined = bytes.saturating_add(group_bytes);
        if block.len() > 0 && joined > TRACE_BLOCK_SOURCE_BYTES {
            let mut full: Vec<usize> = Vec::new();
            std::mem::swap(&mut full, &mut block);
            let ghost before = place_views(blocks@);
            let ghost view = full@;
            blocks.push(full);
            assert(place_views(blocks@) =~= before.push(view));
            push_places(&mut block, &groups[index]);
            assert(block@ =~= groups@[index as int]@);
            bytes = group_bytes;
        } else {
            push_places(&mut block, &groups[index]);
            bytes = joined;
        }
        index = index + 1;
    }
    assert(all.take(index as int) =~= all);
    if block.len() > 0 {
        let ghost before = place_views(blocks@);
        let ghost view = block@;
        blocks.push(block);
        assert(place_views(blocks@) =~= before.push(view));
    }
    blocks
}

/// The places of a batch.
pub open spec fn batch_of(places: Seq<usize>, batch: int) -> Seq<usize> {
    let end = (batch + 1) * TRACE_BATCH_RECORDS;
    places.subrange(
        batch * TRACE_BATCH_RECORDS,
        if end > places.len() {
            places.len() as int
        } else {
            end
        },
    )
}

/// Cuts places into batches.
pub fn split_batches(places: &Vec<usize>) -> (batches: Vec<Vec<usize>>)
    ensures
        batches@.len() == (places@.len() + TRACE_BATCH_RECORDS - 1) / TRACE_BATCH_RECORDS as int,
        forall|i: int| 0 <= i < batches@.len() ==> (#[trigger] batches@[i])@ == batch_of(places@, i),
{
    let mut batches: Vec<Vec<usize>> = Vec::new();
    let mut start: usize = 0;
    assert(places.len() == places@.len());
    while start < places.len()
        invariant
            places.len() == places@.len(),
            start == batches@.len() * TRACE_BATCH_RECORDS || (start == places@.len()
                && batches@.len() == (places@.len() + TRACE_BATCH_RECORDS - 1)
                / TRACE_BATCH_RECORDS as int),
            start <= places@.len(),
            forall|i: int|
                0 <= i < batches@.len() ==> (#[trigger] batches@[i])@ == batch_of(places@, i),
        decreases places@.len() - start,
    {
        let end = if places.len() - start > TRACE_BATCH_RECORDS {
            start + TRACE_BATCH_RECORDS
        } else {
            places.len()
        };
        let batch = vstd::slice::slice_to_vec(
            vstd::slice::slice_subrange(places.as_slice(), start, end),
        );
        assert(batch@ =~= batch_of(places@, batches@.len() as int));
        batches.push(batch);
        start = end;
    }
    batches
}

/// The reference to a record of a stored batch.
pub open spec fn stored_reference(signal: TelemetrySignal, partition: u32, ordinal: nat) -> TelemetryRecordRef {
    TelemetryRecordRef {
        signal,
        topic_partition: TopicPartition {
            topic_id: TopicId(
                if signal == TelemetrySignal::Metrics {
                    METRICS_TOPIC_ID
                } else {
                    TRACES_TOPIC_ID
                },
            ),
            partition_id: LogicalPartitionId(partition),
        },
        offset: LogicalOffset(ordinal as u64),
    }
}

/// Numbers the spans of a batch.
pub fn number_spans(records: &mut Vec<DurableSpan>, partition: u32)
    ensures
        final(records)@.len() == old(records)@.len(),
        forall|i: int|
            0 <= i < old(records)@.len() ==> (#[trigger] final(records)@[i]) == (DurableSpan {
                stream_shard_id: ShardId(0),
                record_ref: stored_reference(TelemetrySignal::Traces, partition, i as nat),
                ..old(records)@[i]
            }),
{
    let ghost before = records@;
    let mut index: usize = 0;
    while index < records.len()
        invariant
            index <= records@.len(),
            records@.len() == before.len(),
            forall|i: int|
                0 <= i < index ==> (#[trigger] records@[i]) == (DurableSpan {
                    stream_shard_id: ShardId(0),
                    record_ref: stored_reference(TelemetrySignal::Traces, partition, i as nat),
                    ..before[i]
                }),
            forall|i: int| index <= i < before.len() ==> (#[trigger] records@[i]) == before[i],
        decreases records@.len() - index,
    {
        let topic_partition = TopicPartition::new(
            TopicId::new(TRACES_TOPIC_ID),
            LogicalPartitionId::new(partition),
        );
        records[index].stream_shard_id = ShardId::new(0);
        records[index].record_ref =
        TelemetryRecordRef::for_signal(
            TelemetrySignal::Traces,
            topic_partition,
            LogicalOffset::new(index as u64),
        );
        index = index + 1;
    }
}

/// Numbers the points of a batch.
pub fn number_points(records: &mut Vec<DurableMetricPoint>, partition: u32)
    ensures
        final(records)@.len() == old(records)@.len(),
        forall|i: int|
            0 <= i < old(records)@.len() ==> (#[trigger] final(records)@[i]) == (
            DurableMetricPoint {
                stream_shard_id: ShardId(0),
                record_ref: stored_reference(TelemetrySignal::Metrics, partition, i as nat),
                ..old(records)@[i]
            }),
{
    let ghost before = records@;
    let mut index: usize = 0;
    while index < records.len()
        invariant
            index <= records@.len(),
            records@.len() == before.len(),
            forall|i: int|
                0 <= i < index ==> (#[trigger] records@[i]) == (DurableMetricPoint {
                    stream_shard_id: ShardId(0),
                    record_ref: stored_reference(TelemetrySignal::Metrics, partition, i as nat),
                    ..before[i]
                }),
            forall|i: int| index <= i < before.len() ==> (#[trigger] records@[i]) == before[i],
        decreases records@.len() - index,
    {
        let topic_partition = TopicPartition::new(
            TopicId::new(METRICS_TOPIC_ID),
            LogicalPartitionId::new(partition),
        );
        records[index].stream_shard_id = ShardId::new(0);
        records[index].record_ref =
        TelemetryRecordRef::for_signal(
            TelemetrySignal::Metrics,
            topic_partition,
            LogicalOffset::new(index as u64),
        );
        index = index + 1;
    }
}

/// The envelope of a stored batch: metric batches mark their routing.
pub open spec fn stored_content(
    signal: TelemetrySignal,
    partition: u32,
    count: u32,
    payload: Seq<u8>,
) -> EnvelopeContent {
    EnvelopeContent {
        signal,
        tenant: TENANT@,
        item_count: count,
        routing_metadata: spec_u32_to_le_bytes(partition) + if signal == TelemetrySignal::Metrics {
            seq![1u8]
        } else {
            Seq::empty()
        },
        payload,
    }
}

/// Wraps an encoded batch of spans or points.
pub fn wrap_batch(signal: TelemetrySignal, partition: u32, count: u32, payload: Vec<u8>) -> (envelope:
    TelemetryResult<TelemetryEnvelope>)
    ensures
        ({
            let content = stored_content(signal, partition, count, payload@);
            match envelope {
                Ok(envelope) => content.fault() is None && envelope.content() == content,
                Err(error) => content.fault() matches Some(fault) && reports(error, fault),
            }
        }),
{
    let mut routing: Vec<u8> = Vec::new();
    push_u32(&mut routing, partition);
    match signal {
        TelemetrySignal::Metrics => {
            routing.push(1);
        },
        _ => {},
    }
    assert(routing@ =~= stored_content(signal, partition, count, payload@).routing_metadata);
    TelemetryEnvelope::new(signal, TENANT, count, routing, payload)
}

} // verus!
