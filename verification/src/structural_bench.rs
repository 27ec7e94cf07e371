//! The structural benchmark: its blocks, its totals, its checks and its
//! report.

use vstd::prelude::*;

use crate::block_results::BlockResult;
use crate::checksum::{fnv1a64, fnv1a64_of};
use crate::dictionary::{CompressionPlacementId, DictionaryCatalogSnapshot};
use crate::docker_blocks::{saturated, BlockRecords, DockerStructuralRecord};
use crate::ingest::{group_by_cohort, grouped, CohortGroup};
use crate::locality::{
    assigned_bytes, assigned_dictionary, compress_groups, compress_log_block, container_wire,
    decoded_as, decoded_in_order, frame_contents, index_total, offset_before, offset_order,
    structural_total, verify_by_offset, verify_decoded_records, CompressedStructural,
    DecodedStructuralRecord, ZSTD_LEVEL,
};
use crate::zstd_frames::zstd_dictionary_refuses;

verus! {

/// Bytes between two progress lines.
pub const PROGRESS_BYTES: u64 = 1_073_741_824;

/// Statistics of collating records by content.
#[derive(Debug, Clone, Copy, PartialEq, Eq, Structural)]
pub struct CompressionLocalityStats {
    /// Records looked at.
    pub observations: u64,
    /// Blocks scored.
    pub blocks_scored: u64,
    /// Blocks split.
    pub blocks_split: u64,
    /// Parts that splitting made.
    pub subblocks_created: u64,
    /// Splits that were not tried.
    pub split_explorations_suppressed: u64,
    /// Records left where they were.
    pub base_placements: u64,
    /// Records moved together.
    pub collated_placements: u64,
    /// Records moved.
    pub records_reassigned: u64,
    /// Bytes moved.
    pub bytes_reassigned: u64,
    /// Compression shards in use.
    pub active_compression_shards: u64,
    /// Largest variance within a block.
    pub max_internal_variance_q8: u64,
    /// Bytes of membership handed on.
    pub handoff_membership_bytes: u64,
    /// Bytes of state.
    pub allocated_state_bytes: u64,
}

/// Statistics of training dictionaries on the way.
#[derive(Debug, Clone, Copy, PartialEq, Eq, Structural)]
pub struct RealtimeDictionaryStats {
    /// Blocks seen.
    pub observed_blocks: u64,
    /// Blocks not sampled.
    pub dropped_blocks: u64,
    /// Placements beyond the budget.
    pub placement_budget_rejections: u64,
    /// Most placements tracked at once.
    pub max_tracked_placements: u64,
    /// Bytes seen.
    pub observed_bytes: u64,
    /// Bytes sampled.
    pub sampled_bytes: u64,
    /// Trainings.
    pub training_runs: u64,
    /// Trainings that failed.
    pub training_failures: u64,
    /// Dictionaries that were not worth it.
    pub candidates_rejected: u64,
    /// Dictionaries published.
    pub dictionaries_published: u64,
    /// Holdout bytes without the dictionary.
    pub holdout_baseline_bytes: u64,
    /// Holdout bytes with the dictionary.
    pub holdout_candidate_bytes: u64,
}

/// Totals of the structural benchmark.
#[derive(Debug, Clone, Copy, PartialEq, Eq, Structural)]
pub struct StructuralTotals {
    /// Bytes of all blocks.
    pub input_bytes: u64,
    /// Bytes of the lines that were read.
    pub source_bytes: u64,
    /// Bytes before the first complete line.
    pub leading_discarded_bytes: u64,
    /// Lines that could not be read.
    pub rejected_records: u64,
    /// Their bytes.
    pub rejected_bytes: u64,
    /// Bytes before compression.
    pub structural_bytes: u64,
    /// Bytes of the embedded query indexes.
    pub embedded_index_bytes: u64,
    /// Bytes after compression.
    pub structural_stored_bytes: u64,
    /// Bytes of the manifest.
    pub manifest_bytes: u64,
    /// Bytes of the query index.
    pub query_index_bytes: u64,
    /// Blocks.
    pub blocks: u64,
    /// Records.
    pub records: u64,
    /// Time that compression took.
    pub structural_compression_nanos: u64,
    /// Blocks that were verified afterwards.
    pub verified_blocks: u64,
    /// Workers.
    pub workers: u64,
    /// Collation.
    pub locality: CompressionLocalityStats,
    /// Bytes of dictionaries.
    pub dictionary_bytes: u64,
    /// Training.
    pub dictionary_stats: RealtimeDictionaryStats,
}

fn sum(a: u64, b: u64) -> (total: u64)
    ensures
        total == saturated(a + b),
{
    if a > u64::MAX - b {
        u64::MAX
    } else {
        a + b
    }
}

/// Statistics of two workers together.
pub open spec fn merged_locality(
    aggregate: CompressionLocalityStats,
    worker: CompressionLocalityStats,
) -> CompressionLocalityStats {
    CompressionLocalityStats {
        observations: saturated(aggregate.observations + worker.observations),
        blocks_scored: saturated(aggregate.blocks_scored + worker.blocks_scored),
        blocks_split: saturated(aggregate.blocks_split + worker.blocks_split),
        subblocks_created: saturated(aggregate.subblocks_created + worker.subblocks_created),
        split_explorations_suppressed: saturated(
            aggregate.split_explorations_suppressed + worker.split_explorations_suppressed,
        ),
        base_placements: saturated(aggregate.base_placements + worker.base_placements),
        collated_placements: saturated(aggregate.collated_placements + worker.collated_placements),
        records_reassigned: saturated(aggregate.records_reassigned + worker.records_reassigned),
        bytes_reassigned: saturated(aggregate.bytes_reassigned + worker.bytes_reassigned),
        active_compression_shards: saturated(
            aggregate.active_compression_shards + worker.active_compression_shards,
        ),
        max_internal_variance_q8: if aggregate.max_internal_variance_q8
            >= worker.max_internal_variance_q8 {
            aggregate.max_internal_variance_q8
        } else {
            worker.max_internal_variance_q8
        },
        handoff_membership_bytes: saturated(
            aggregate.handoff_membership_bytes + worker.handoff_membership_bytes,
        ),
        allocated_state_bytes: saturated(
            aggregate.allocated_state_bytes + worker.allocated_state_bytes,
        ),
    }
}

/// Adds the statistics of a worker.
pub fn merge_locality_stats(aggregate: &mut CompressionLocalityStats, worker: CompressionLocalityStats)
    ensures
        *final(aggregate) == merged_locality(*old(aggregate), worker),
{
    let before = *aggregate;
    *aggregate =
    CompressionLocalityStats {
        observations: sum(before.observations, worker.observations),
        blocks_scored: sum(before.blocks_scored, worker.blocks_scored),
        blocks_split: sum(before.blocks_split, worker.blocks_split),
        subblocks_created: sum(before.subblocks_created, worker.subblocks_created),
        split_explorations_suppressed: sum(
            before.split_explorations_suppressed,
            worker.split_explorations_suppressed,
        ),
        base_placements: sum(before.base_placements, worker.base_placements),
        collated_placements: sum(before.collated_placements, worker.collated_placements),
        records_reassigned: sum(before.records_reassigned, worker.records_reassigned),
        bytes_reassigned: sum(before.bytes_reassigned, worker.bytes_reassigned),
        active_compression_shards: sum(
            before.active_compression_shards,
            worker.active_compression_shards,
        ),
        max_internal_variance_q8: if before.max_internal_variance_q8
            >= worker.max_internal_variance_q8 {
            before.max_internal_variance_q8
        } else {
            worker.max_internal_variance_q8
        },
        handoff_membership_bytes: sum(
            before.handoff_membership_bytes,
            worker.handoff_membership_bytes,
        ),
        allocated_state_bytes: sum(before.allocated_state_bytes, worker.allocated_state_bytes),
    };
}

/// Totals with one more block.
pub open spec fn with_block(totals: StructuralTotals, block: BlockResult) -> StructuralTotals {
    StructuralTotals {
        source_bytes: saturated(totals.source_bytes + block.source_bytes),
        rejected_records: saturated(totals.rejected_records + block.rejected_records),
        rejected_bytes: saturated(totals.rejected_bytes + block.rejected_bytes),
        structural_bytes: saturated(totals.structural_bytes + block.structural_bytes),
        embedded_index_bytes: saturated(totals.embedded_index_bytes + block.embedded_index_bytes),
        records: saturated(totals.records + block.record_count),
        structural_stored_bytes: saturated(
            totals.structural_stored_bytes + block.structural_stored_bytes,
        ),
        structural_compression_nanos: saturated(
            totals.structural_compression_nanos + block.structural_compression_nanos,
        ),
        ..totals
    }
}

/// Totals with more blocks.
pub open spec fn with_blocks(totals: StructuralTotals, blocks: Seq<BlockResult>) -> StructuralTotals
    decreases blocks.len(),
{
    if blocks.len() == 0 {
        totals
    } else {
        with_block(with_blocks(totals, blocks.drop_last()), blocks.last())
    }
}

/// Adds what one worker did.
pub fn add_worker(
    totals: &mut StructuralTotals,
    blocks: &Vec<BlockResult>,
    locality: CompressionLocalityStats,
)
    ensures
        *final(totals) == with_blocks(
            (StructuralTotals {
                locality: merged_locality(old(totals).locality, locality),
                ..*old(totals)
            }),
            blocks@,
        ),
{
    let mut merged = totals.locality;
    merge_locality_stats(&mut merged, locality);
    let mut counted = *totals;
    counted.locality = merged;
    let ghost start = counted;
    let mut next: usize = 0;
    assert(blocks@.take(0) =~= Seq::<BlockResult>::empty());
    while next < blocks.len()
        invariant
            next <= blocks@.len(),
            counted == with_blocks(start, blocks@.take(next as int)),
        decreases blocks@.len() - next,
    {
        let block = blocks[next];
        assert(blocks@.take(next + 1).drop_last() =~= blocks@.take(next as int));
        assert(blocks@.take(next + 1).last() == block);
        counted.source_bytes = sum(counted.source_bytes, block.source_bytes);
        counted.rejected_records = sum(counted.rejected_records, block.rejected_records);
        counted.rejected_bytes = sum(counted.rejected_bytes, block.rejected_bytes);
        counted.structural_bytes = sum(counted.structural_bytes, block.structural_bytes);
        counted.embedded_index_bytes = sum(
            counted.embedded_index_bytes,
            block.embedded_index_bytes,
        );
        counted.records = sum(counted.records, block.record_count);
        counted.structural_stored_bytes = sum(
            counted.structural_stored_bytes,
            block.structural_stored_bytes,
        );
        counted.structural_compression_nanos = sum(
            counted.structural_compression_nanos,
            block.structural_compression_nanos,
        );
        next = next + 1;
    }
    assert(blocks@.take(next as int) =~= blocks@);
    *totals = counted;
}

/// The next block of a worker: workers take turns.
pub fn next_block(index: usize, workers: usize) -> (next: usize)
    ensures
        next == if index + workers > usize::MAX {
            usize::MAX as int
        } else {
            index + workers
        },
{
    if index > usize::MAX - workers {
        usize::MAX
    } else {
        index + workers
    }
}

/// Gibibyte marks that a block passes.
pub open spec fn passed_marks(previous: u64, bytes: u64) -> Seq<u64> {
    let first = previous as int / 1_073_741_824 + 1;
    let last = saturated(previous + bytes) as int / 1_073_741_824;
    Seq::new(
        if last >= first {
            (last - first + 1) as nat
        } else {
            0
        },
        |i: int| (first + i) as u64,
    )
}

/// The gibibyte marks that a block of this size passes.
pub fn progress_marks(previous: u64, span_bytes: u64) -> (marks: Vec<u64>)
    ensures
        marks@ == passed_marks(previous, span_bytes),
{
    let completed = sum(previous, span_bytes);
    let mut marks: Vec<u64> = Vec::new();
    let first = previous / PROGRESS_BYTES + 1;
    let mut boundary = first;
    let last = completed / PROGRESS_BYTES;
    while boundary <= last
        invariant
            first <= boundary,
            first == previous as int / 1_073_741_824 + 1,
            last <= u64::MAX / 1_073_741_824,
            marks@.len() == boundary - first,
            boundary <= last + 1 || boundary == first,
            forall|i: int| 0 <= i < marks@.len() ==> #[trigger] marks@[i] == first + i,
        decreases last + 1 - boundary,
    {
        marks.push(boundary);
        boundary = boundary + 1;
    }
    assert(marks@ =~= passed_marks(previous, span_bytes));
    marks
}

/// The groups that records are compressed in: those of their placements, or
/// one empty group where there is no record.
pub fn placement_groups(placements: &Vec<u64>, home: u64) -> (groups: Result<Vec<CohortGroup>, String>)
    ensures
        match groups {
            Ok(groups) => placements@.len() <= u32::MAX && if placements@.len() == 0 {
                groups@.len() == 1 && groups@[0].cohort == home && groups@[0].ordinals@.len() == 0
            } else {
                grouped(groups@, placements@)
            },
            Err(complaint) => placements@.len() > u32::MAX && complaint@
                == "out of range integral type conversion attempted"@,
        },
{
    match group_by_cohort(placements) {
        Err(_) => Err("out of range integral type conversion attempted".to_owned()),
        Ok(groups) => {
            let mut groups = groups;
            if groups.len() == 0 {
                groups.push(CohortGroup { cohort: home, ordinals: Vec::new() });
                proof {
                    if placements@.len() > 0 {
                        assert(placements@[0] == placements@[0]);
                    }
                }
            } else {
                proof {
                    if placements@.len() == 0 {
                        assert(crate::ingest::ordinals_of(placements@, groups@[0].cohort).len()
                            == 0);
                        assert(groups@[0].ordinals@.len() > 0);
                    }
                }
            }
            Ok(groups)
        },
    }
}

/// One group of records after structural encoding.
#[derive(Debug, PartialEq, Eq)]
pub struct EncodedGroup {
    /// Placement of the group.
    pub placement_id: CompressionPlacementId,
    /// Structural encoding.
    pub structural: Vec<u8>,
    /// Bytes of the query index within it.
    pub embedded_index_bytes: u64,
}

/// Where a block stands.
#[derive(Debug, Clone, Copy, PartialEq, Eq, Structural)]
pub struct BlockPlace {
    /// Position among the blocks.
    pub ordinal: u64,
    /// First byte in the source.
    pub source_offset: u64,
    /// Bytes.
    pub input_bytes: u64,
}

/// What the query index keeps of a block.
#[derive(Debug, Clone, Copy, PartialEq, Eq, Structural)]
pub struct QueryBlockMetadata {
    /// Position among the blocks.
    pub block_ordinal: u32,
    /// Offset of the first record.
    pub first_offset: u64,
    /// Offset of the last record.
    pub last_offset: u64,
    /// Earliest time.
    pub min_timestamp_unix_nanos: u64,
    /// Latest time.
    pub max_timestamp_unix_nanos: u64,
    /// Records.
    pub record_count: u32,
}

/// Whether metadata describe a block.
pub open spec fn describes(
    metadata: QueryBlockMetadata,
    ordinal: u64,
    records: Seq<DockerStructuralRecord>,
) -> bool {
    &&& metadata.block_ordinal == ordinal
    &&& metadata.record_count == records.len()
    &&& metadata.first_offset == records[0].offset
    &&& metadata.last_offset == records.last().offset
    &&& forall|i: int|
        0 <= i < records.len() ==> metadata.min_timestamp_unix_nanos <= (
        #[trigger] records[i]).timestamp_unix_nanos <= metadata.max_timestamp_unix_nanos
    &&& exists|i: int|
        0 <= i < records.len() && (#[trigger] records[i]).timestamp_unix_nanos
            == metadata.min_timestamp_unix_nanos
    &&& exists|i: int|
        0 <= i < records.len() && (#[trigger] records[i]).timestamp_unix_nanos
            == metadata.max_timestamp_unix_nanos
}

/// What the query index keeps of a block, where it has records.
pub fn query_metadata(ordinal: u64, records: &Vec<DockerStructuralRecord>) -> (metadata: Result<
    Option<QueryBlockMetadata>,
    String,
>)
    ensures
        match metadata {
            Ok(None) => records@.len() == 0,
            Ok(Some(metadata)) => records@.len() > 0 && describes(metadata, ordinal, records@),
            Err(complaint) => records@.len() > 0 && (ordinal > u32::MAX || records@.len() > u32::MAX)
                && complaint@ == "out of range integral type conversion attempted"@,
        },
{
    if records.len() == 0 {
        return Ok(None);
    }
    if ordinal > u32::MAX as u64 || records.len() as u64 > u32::MAX as u64 {
        return Err("out of range integral type conversion attempted".to_owned());
    }
    let mut earliest = records[0].timestamp_unix_nanos;
    let mut latest = records[0].timestamp_unix_nanos;
    let mut next: usize = 1;
    let ghost mut first: int = 0;
    let ghost mut last: int = 0;
    while next < records.len()
        invariant
            1 <= next <= records@.len(),
            0 <= first < next,
            0 <= last < next,
            records@[first].timestamp_unix_nanos == earliest,
            records@[last].timestamp_unix_nanos == latest,
            forall|i: int|
                0 <= i < next ==> earliest <= (#[trigger] records@[i]).timestamp_unix_nanos
                    <= latest,
        decreases records@.len() - next,
    {
        let time = records[next].timestamp_unix_nanos;
        if time < earliest {
            earliest = time;
            proof {
                first = next as int;
            }
        }
        if time > latest {
            latest = time;
            proof {
                last = next as int;
            }
        }
        next = next + 1;
    }
    let metadata = QueryBlockMetadata {
        block_ordinal: ordinal as u32,
        first_offset: records[0].offset,
        last_offset: records[records.len() - 1].offset,
        min_timestamp_unix_nanos: earliest,
        max_timestamp_unix_nanos: latest,
        record_count: records.len() as u32,
    };
    assert(records@[first].timestamp_unix_nanos == metadata.min_timestamp_unix_nanos);
    assert(records@[last].timestamp_unix_nanos == metadata.max_timestamp_unix_nanos);
    Ok(Some(metadata))
}

/// Whether compressed frames hold encoded groups under the dictionaries of a
/// snapshot.
pub open spec fn frames_of_groups(
    frames: Seq<CompressedStructural>,
    groups: Seq<EncodedGroup>,
    snapshot: Option<&DictionaryCatalogSnapshot>,
) -> bool {
    &&& frames.len() == groups.len()
    &&& forall|i: int|
        0 <= i < frames.len() ==> (#[trigger] frames[i]).compresses(groups[i].structural@)
    &&& forall|i: int|
        0 <= i < frames.len() ==> (#[trigger] frames[i]).embedded_index_bytes
            == groups[i].embedded_index_bytes
    &&& forall|i: int|
        0 <= i < frames.len() ==> match assigned_dictionary(snapshot, groups[i].placement_id) {
            Some((id, payload)) => (#[trigger] frames[i]).dictionary_id == Some(id)
                && frames[i].dictionary_payload == Some(payload),
            None => frames[i].dictionary_id is None && frames[i].dictionary_payload is None,
        }
}

/// Whether a result and its payload are those of a block that was compressed to
/// these frames.
pub open spec fn block_done(
    result: BlockResult,
    payload: Seq<u8>,
    place: BlockPlace,
    block: BlockRecords,
    frames: Seq<CompressedStructural>,
    nanos: u64,
) -> bool {
    &&& result.ordinal == place.ordinal
    &&& result.source_offset == place.source_offset
    &&& result.input_bytes == place.input_bytes
    &&& result.source_bytes == block.accepted_source_bytes
    &&& result.record_count == block.records@.len()
    &&& result.rejected_records == block.rejected_records
    &&& result.rejected_bytes == block.rejected_bytes
    &&& result.structural_bytes == structural_total(frame_contents(frames))
    &&& result.embedded_index_bytes == index_total(frames)
    &&& result.structural_stored_bytes == payload.len()
    &&& result.pack_worker == 0
    &&& result.pack_offset == 0
    &&& result.payload_checksum == fnv1a64_of(payload)
    &&& result.structural_compression_nanos == nanos
    &&& if frames.len() == 1 {
        payload == frames[0].payload@ && result.dictionary_id == frames[0].dictionary_id
    } else {
        payload == container_wire(frame_contents(frames)) && result.dictionary_id is None
    }
}

/// Whether frames can be stored together: alone under any dictionary, else
/// without one.
pub open spec fn storable(frames: Seq<CompressedStructural>) -> bool {
    frames.len() == 1 || frames.len() <= u32::MAX && forall|i: int|
        0 <= i < frames.len() ==> (#[trigger] frames[i]).dictionary_id is None
}

/// What is said of frames that cannot be stored together.
pub open spec fn storing_complaint(frames: Seq<CompressedStructural>) -> Seq<char> {
    if exists|i: int| 0 <= i < frames.len() && (#[trigger] frames[i]).dictionary_id is Some {
        "real-time dictionaries cannot be combined with locality containers yet"@
    } else {
        "out of range integral type conversion attempted"@
    }
}

/// Whether the compressor may refuse a group with this text.
pub open spec fn group_refused(
    group: EncodedGroup,
    snapshot: Option<&DictionaryCatalogSnapshot>,
    text: Seq<char>,
) -> bool {
    zstd_dictionary_refuses(
        group.structural@,
        ZSTD_LEVEL,
        assigned_bytes(snapshot, group.placement_id),
        text,
    )
}

/// Stores the compressed frames of a block together and sums it up.
pub fn finish_block(
    place: BlockPlace,
    block: &BlockRecords,
    frames: Vec<CompressedStructural>,
    structural_compression_nanos: u64,
) -> (finished: Result<(BlockResult, Vec<u8>), String>)
    ensures
        match finished {
            Ok((result, payload)) => storable(frames@) && block_done(
                result,
                payload@,
                place,
                *block,
                frames@,
                structural_compression_nanos,
            ),
            Err(complaint) => !storable(frames@) && complaint@ == storing_complaint(frames@),
        },
{
    let ghost made = frames@;
    let compressed = match compress_groups(frames) {
        Ok(compressed) => compressed,
        Err(complaint) => {
            return Err(complaint);
        },
    };
    let result = BlockResult {
        ordinal: place.ordinal,
        source_offset: place.source_offset,
        input_bytes: place.input_bytes,
        source_bytes: block.accepted_source_bytes,
        record_count: block.records.len() as u64,
        rejected_records: block.rejected_records,
        rejected_bytes: block.rejected_bytes,
        structural_bytes: compressed.structural_bytes,
        embedded_index_bytes: compressed.embedded_index_bytes,
        structural_stored_bytes: compressed.payload.len() as u64,
        pack_worker: 0,
        pack_offset: 0,
        payload_checksum: fnv1a64(compressed.payload.as_slice()),
        dictionary_id: compressed.dictionary_id,
        structural_compression_nanos,
    };
    assert(block_done(
        result,
        compressed.payload@,
        place,
        *block,
        made,
        structural_compression_nanos,
    ));
    Ok((result, compressed.payload))
}

/// Compresses the encoded groups of a block and sums it up. The compressor
/// decides which frames come back; each holds its group. The first group that
/// it refuses ends the work with its complaint.
pub fn process_block(
    place: BlockPlace,
    block: &BlockRecords,
    groups: &Vec<EncodedGroup>,
    snapshot: Option<&DictionaryCatalogSnapshot>,
    structural_compression_nanos: u64,
) -> (processed: Result<(BlockResult, Vec<u8>), String>)
    requires
        forall|i: int|
            0 <= i < groups@.len() ==> 2 * (#[trigger] groups@[i]).structural@.len() + 0x2_0000
                <= isize::MAX,
    ensures
        groups@.len() == 0 ==> processed is Ok,
        match processed {
            Ok((result, payload)) => exists|frames: Seq<CompressedStructural>| #[trigger]
                frames_of_groups(frames, groups@, snapshot) && storable(frames) && block_done(
                    result,
                    payload@,
                    place,
                    *block,
                    frames,
                    structural_compression_nanos,
                ),
            Err(text) => {
                ||| exists|done: Seq<CompressedStructural>| #[trigger]
                    frames_of_groups(done, groups@.take(done.len() as int), snapshot) && done.len()
                        < groups@.len() && group_refused(
                        groups@[done.len() as int],
                        snapshot,
                        text@,
                    )
                ||| exists|frames: Seq<CompressedStructural>| #[trigger]
                    frames_of_groups(frames, groups@, snapshot) && !storable(frames) && text@
                        == storing_complaint(frames)
            },
        },
{
    let mut frames: Vec<CompressedStructural> = Vec::new();
    let mut next: usize = 0;
    while next < groups.len()
        invariant
            next <= groups@.len(),
            forall|i: int|
                0 <= i < groups@.len() ==> 2 * (#[trigger] groups@[i]).structural@.len() + 0x2_0000
                    <= isize::MAX,
            frames_of_groups(frames@, groups@.take(next as int), snapshot),
        decreases groups@.len() - next,
    {
        let group = &groups[next];
        let ghost before = frames@;
        let frame = match compress_log_block(
            snapshot,
            group.placement_id,
            group.structural.as_slice(),
            group.embedded_index_bytes,
        ) {
            Ok(frame) => frame,
            Err(text) => {
                assert(frames_of_groups(before, groups@.take(before.len() as int), snapshot));
                return Err(text);
            },
        };
        frames.push(frame);
        proof {
            let longer = groups@.take(next + 1);
            let shorter = groups@.take(next as int);
            assert forall|i: int| 0 <= i < frames@.len() implies (#[trigger] frames@[i]).compresses(
                longer[i].structural@,
            ) by {
                if i < next {
                    assert(frames@[i] == before[i]);
                    assert(longer[i] == shorter[i]);
                }
            }
            assert forall|i: int| 0 <= i < frames@.len() implies (
            #[trigger] frames@[i]).embedded_index_bytes == longer[i].embedded_index_bytes by {
                if i < next {
                    assert(frames@[i] == before[i]);
                    assert(longer[i] == shorter[i]);
                }
            }
            assert forall|i: int| 0 <= i < frames@.len() implies match assigned_dictionary(
                snapshot,
                longer[i].placement_id,
            ) {
                Some((id, payload)) => (#[trigger] frames@[i]).dictionary_id == Some(id)
                    && frames@[i].dictionary_payload == Some(payload),
                None => frames@[i].dictionary_id is None && frames@[i].dictionary_payload is None,
            } by {
                if i < next {
                    assert(frames@[i] == before[i]);
                    assert(longer[i] == shorter[i]);
                }
            }
        }
        next = next + 1;
    }
    assert(groups@.take(next as int) =~= groups@);
    proof {
        assert(frames_of_groups(frames@, groups@, snapshot));
    }
    finish_block(place, block, frames, structural_compression_nanos)
}

/// Whether decoded records are those of a block: collated records come back in
/// another order, others as they were.
pub open spec fn round_trips(
    decoded: Seq<DecodedStructuralRecord>,
    records: Seq<DockerStructuralRecord>,
    collated: bool,
) -> bool {
    if collated {
        exists|places: Seq<usize>| #[trigger]
            offset_order(decoded, places) && decoded_in_order(decoded, places, records)
    } else {
        decoded.len() == records.len() && forall|i: int|
            0 <= i < decoded.len() ==> decoded_as(#[trigger] decoded[i], records[i])
    }
}

/// There is one order by offset.
proof fn lemma_one_offset_order(
    decoded: Seq<DecodedStructuralRecord>,
    left: Seq<usize>,
    right: Seq<usize>,
)
    requires
        offset_order(decoded, left),
        offset_order(decoded, right),
    ensures
        left == right,
{
    assert forall|i: int| 0 <= i < left.len() implies left[i] == right[i] by {
        lemma_offset_rank(decoded, left, right, i);
    }
    assert(left =~= right);
}

/// Two orders agree up to each place.
proof fn lemma_offset_rank(
    decoded: Seq<DecodedStructuralRecord>,
    left: Seq<usize>,
    right: Seq<usize>,
    at: int,
)
    requires
        offset_order(decoded, left),
        offset_order(decoded, right),
        0 <= at < left.len(),
    ensures
        left[at] == right[at],
    decreases at,
{
    assert forall|i: int| 0 <= i < at implies left[i] == right[i] by {
        lemma_offset_rank(decoded, left, right, i);
    }
    lemma_places_are_all(decoded, left, right[at]);
    lemma_places_are_all(decoded, right, left[at]);
    let there = choose|i: int| 0 <= i < left.len() && left[i] == right[at];
    let here = choose|i: int| 0 <= i < right.len() && right[i] == left[at];
    if there < at {
        assert(right[there] == right[at]);
        assert(offset_before(decoded, right[there] as int, right[at] as int));
    } else if here < at {
        assert(left[here] == left[at]);
        assert(offset_before(decoded, left[here] as int, left[at] as int));
    } else if there > at {
        assert(offset_before(decoded, left[at] as int, left[there] as int));
        if here > at {
            assert(offset_before(decoded, right[at] as int, right[here] as int));
        }
    }
}

/// Every place occurs in an order.
proof fn lemma_places_are_all(decoded: Seq<DecodedStructuralRecord>, places: Seq<usize>, place: usize)
    requires
        offset_order(decoded, places),
        place < decoded.len(),
    ensures
        exists|i: int| 0 <= i < places.len() && places[i] == place,
{
    assert(places.no_duplicates()) by {
        assert forall|i: int, j: int| 0 <= i < places.len() && 0 <= j < places.len() && i
            != j implies places[i] != places[j] by {
            if i < j {
                assert(offset_before(decoded, places[i] as int, places[j] as int));
            } else {
                assert(offset_before(decoded, places[j] as int, places[i] as int));
            }
        }
    }
    let numbers = places.map_values(|place: usize| place as int);
    assert(numbers.no_duplicates()) by {
        assert forall|i: int, j: int| 0 <= i < numbers.len() && 0 <= j < numbers.len() && i
            != j implies numbers[i] != numbers[j] by {
            assert(places[i] != places[j]);
        }
    }
    let all = vstd::set_lib::set_int_range(0, decoded.len() as int);
    vstd::set_lib::lemma_int_range(0, decoded.len() as int);
    numbers.unique_seq_to_set();
    assert(numbers.to_set().subset_of(all)) by {
        assert forall|n: int| numbers.to_set().contains(n) implies all.contains(n) by {
            let i = choose|i: int| 0 <= i < numbers.len() && numbers[i] == n;
            assert(places[i] == n);
        }
    }
    vstd::set_lib::lemma_subset_equality(numbers.to_set(), all);
    assert(numbers.to_set().contains(place as int));
    let i = choose|i: int| 0 <= i < numbers.len() && numbers[i] == place as int;
    assert(places[i] == place);
}

/// Passes a processed block on where nothing is to be verified or its decoded
/// records are the ones that went in. `decoded` is what decoding the payload gave;
/// it counts only under `verify`.
pub fn check_round_trip(
    processed: (BlockResult, Vec<u8>),
    verify: bool,
    collated: bool,
    decoded: Result<Vec<DecodedStructuralRecord>, String>,
    block: &BlockRecords,
) -> (checked: Result<(BlockResult, Vec<u8>), String>)
    ensures
        if !verify {
            checked == Ok::<(BlockResult, Vec<u8>), String>(processed)
        } else {
            match decoded {
                Err(text) => checked == Err::<(BlockResult, Vec<u8>), String>(text),
                Ok(records) => if round_trips(records@, block.records@, collated) {
                    checked == Ok::<(BlockResult, Vec<u8>), String>(processed)
                } else {
                    checked matches Err(complaint) && complaint@
                        == "structural first-block round trip failed"@
                },
            }
        },
{
    if !verify {
        return Ok(processed);
    }
    let records = match decoded {
        Ok(records) => records,
        Err(text) => {
            return Err(text);
        },
    };
    let verdict = if collated {
        let verdict = verify_by_offset(&records, &block.records);
        proof {
            let places = choose|places: Seq<usize>| #[trigger]
                offset_order(records@, places) && match verdict {
                    Ok(_) => decoded_in_order(records@, places, block.records@),
                    Err(complaint) => !decoded_in_order(records@, places, block.records@)
                        && complaint@ == "structural first-block round trip failed"@,
                };
            assert forall|other: Seq<usize>| #[trigger] offset_order(records@, other) implies other
                == places by {
                lemma_one_offset_order(records@, other, places);
            }
        }
        verdict
    } else {
        verify_decoded_records(&records, &block.records)
    };
    match verdict {
        Ok(_) => Ok(processed),
        Err(complaint) => Err(complaint),
    }
}

} // verus!
