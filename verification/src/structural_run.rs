//! A run of the structural benchmark: the blocks that each worker takes, where
//! it stores them and what the run adds up to.

use std::sync::Arc;

use vstd::prelude::*;

use crate::block_results::BlockResult;
use crate::dictionary::DictionaryId;
use crate::docker_blocks::BlockSpan;
use crate::structural_bench::{
    next_block, BlockPlace, CompressionLocalityStats, RealtimeDictionaryStats, StructuralTotals,
};

verus! {

/// Bytes of blocks.
pub open spec fn spans_total(spans: Seq<BlockSpan>) -> int
    decreases spans.len(),
{
    if spans.len() == 0 {
        0
    } else {
        spans_total(spans.drop_last()) + spans.last().length
    }
}

proof fn lemma_spans_total(spans: Seq<BlockSpan>, count: int)
    requires
        0 <= count <= spans.len(),
    ensures
        0 <= spans_total(spans.take(count)) <= spans_total(spans),
    decreases spans.len(),
{
    if count == spans.len() {
        assert(spans.take(count) =~= spans);
        if spans.len() > 0 {
            assert(spans.drop_last().take(0) =~= Seq::<BlockSpan>::empty());
            lemma_spans_total(spans.drop_last(), spans.len() - 1);
        }
    } else {
        assert(spans.drop_last().take(count) =~= spans.take(count));
        lemma_spans_total(spans.drop_last(), count);
    }
}

/// Statistics of a collation that has not started.
pub open spec fn no_locality() -> CompressionLocalityStats {
    CompressionLocalityStats {
        observations: 0,
        blocks_scored: 0,
        blocks_split: 0,
        subblocks_created: 0,
        split_explorations_suppressed: 0,
        base_placements: 0,
        collated_placements: 0,
        records_reassigned: 0,
        bytes_reassigned: 0,
        active_compression_shards: 0,
        max_internal_variance_q8: 0,
        handoff_membership_bytes: 0,
        allocated_state_bytes: 0,
    }
}

/// Statistics of a training that has not started.
pub open spec fn no_training() -> RealtimeDictionaryStats {
    RealtimeDictionaryStats {
        observed_blocks: 0,
        dropped_blocks: 0,
        placement_budget_rejections: 0,
        max_tracked_placements: 0,
        observed_bytes: 0,
        sampled_bytes: 0,
        training_runs: 0,
        training_failures: 0,
        candidates_rejected: 0,
        dictionaries_published: 0,
        holdout_baseline_bytes: 0,
        holdout_candidate_bytes: 0,
    }
}

/// Totals of a run over blocks before its workers start.
pub open spec fn opening_totals(
    spans: Seq<BlockSpan>,
    source_start: u64,
    workers: u64,
) -> StructuralTotals {
    StructuralTotals {
        input_bytes: spans_total(spans) as u64,
        source_bytes: 0,
        leading_discarded_bytes: source_start,
        rejected_records: 0,
        rejected_bytes: 0,
        structural_bytes: 0,
        embedded_index_bytes: 0,
        structural_stored_bytes: 0,
        manifest_bytes: 0,
        query_index_bytes: 0,
        blocks: spans.len() as u64,
        records: 0,
        structural_compression_nanos: 0,
        verified_blocks: 0,
        workers,
        locality: no_locality(),
        dictionary_bytes: 0,
        dictionary_stats: no_training(),
    }
}

/// Starts the totals of a run.
pub fn begin_totals(spans: &Vec<BlockSpan>, source_start: u64, workers: u64) -> (totals:
    StructuralTotals)
    requires
        spans_total(spans@) <= u64::MAX,
    ensures
        totals == opening_totals(spans@, source_start, workers),
{
    let mut input_bytes: u64 = 0;
    let mut next: usize = 0;
    assert(spans@.take(0) =~= Seq::<BlockSpan>::empty());
    while next < spans.len()
        invariant
            next <= spans@.len(),
            spans_total(spans@) <= u64::MAX,
            input_bytes == spans_total(spans@.take(next as int)),
        decreases spans@.len() - next,
    {
        proof {
            lemma_spans_total(spans@, next + 1);
            assert(spans@.take(next + 1).drop_last() =~= spans@.take(next as int));
        }
        input_bytes = input_bytes + spans[next].length as u64;
        next = next + 1;
    }
    assert(spans@.take(next as int) =~= spans@);
    assert(spans@.len() <= u64::MAX);
    StructuralTotals {
        input_bytes,
        source_bytes: 0,
        leading_discarded_bytes: source_start,
        rejected_records: 0,
        rejected_bytes: 0,
        structural_bytes: 0,
        embedded_index_bytes: 0,
        structural_stored_bytes: 0,
        manifest_bytes: 0,
        query_index_bytes: 0,
        blocks: spans.len() as u64,
        records: 0,
        structural_compression_nanos: 0,
        verified_blocks: 0,
        workers,
        locality: CompressionLocalityStats {
            observations: 0,
            blocks_scored: 0,
            blocks_split: 0,
            subblocks_created: 0,
            split_explorations_suppressed: 0,
            base_placements: 0,
            collated_placements: 0,
            records_reassigned: 0,
            bytes_reassigned: 0,
            active_compression_shards: 0,
            max_internal_variance_q8: 0,
            handoff_membership_bytes: 0,
            allocated_state_bytes: 0,
        },
        dictionary_bytes: 0,
        dictionary_stats: RealtimeDictionaryStats {
            observed_blocks: 0,
            dropped_blocks: 0,
            placement_budget_rejections: 0,
            max_tracked_placements: 0,
            observed_bytes: 0,
            sampled_bytes: 0,
            training_runs: 0,
            training_failures: 0,
            candidates_rejected: 0,
            dictionaries_published: 0,
            holdout_baseline_bytes: 0,
            holdout_candidate_bytes: 0,
        },
    }
}

/// Where a block stands in a source that starts behind the first incomplete
/// line.
pub fn block_place(span: BlockSpan, source_start: u64) -> (place: BlockPlace)
    ensures
        place.ordinal == span.ordinal,
        place.source_offset == if span.start < source_start {
            0
        } else {
            span.start - source_start
        },
        place.input_bytes == span.length,
{
    BlockPlace {
        ordinal: span.ordinal as u64,
        source_offset: span.start.saturating_sub(source_start),
        input_bytes: span.length as u64,
    }
}

/// The bytes of a block.
pub fn block_bytes(content: &[u8], span: BlockSpan) -> (raw: Result<&[u8], String>)
    ensures
        match raw {
            Ok(raw) => span.start + span.length <= content@.len() && raw@ == content@.subrange(
                span.start as int,
                span.start + span.length,
            ),
            Err(complaint) => span.start + span.length > content@.len() && complaint@ == (
            if span.start > usize::MAX {
                "out of range integral type conversion attempted"@
            } else if span.start + span.length > usize::MAX {
                "mapped block range overflows"@
            } else {
                "mapped block range exceeds input"@
            }),
        },
{
    assert(content.len() == content@.len());
    if span.start > usize::MAX as u64 {
        return Err("out of range integral type conversion attempted".to_owned());
    }
    let start = span.start as usize;
    if start > usize::MAX - span.length {
        return Err("mapped block range overflows".to_owned());
    }
    let end = start + span.length;
    if end > content.len() {
        return Err("mapped block range exceeds input".to_owned());
    }
    Ok(vstd::slice::slice_subrange(content, start, end))
}

/// Bytes of dictionaries.
pub open spec fn dictionaries_total(dictionaries: Seq<(DictionaryId, Arc<Vec<u8>>)>) -> int
    decreases dictionaries.len(),
{
    if dictionaries.len() == 0 {
        0
    } else {
        dictionaries_total(dictionaries.drop_last()) + dictionaries.last().1@.len()
    }
}

proof fn lemma_dictionaries_total(dictionaries: Seq<(DictionaryId, Arc<Vec<u8>>)>, count: int)
    requires
        0 <= count <= dictionaries.len(),
    ensures
        0 <= dictionaries_total(dictionaries.take(count)) <= dictionaries_total(dictionaries),
    decreases dictionaries.len(),
{
    if count == dictionaries.len() {
        assert(dictionaries.take(count) =~= dictionaries);
        if dictionaries.len() > 0 {
            lemma_dictionaries_total(dictionaries.drop_last(), dictionaries.len() - 1);
        }
    } else {
        assert(dictionaries.drop_last().take(count) =~= dictionaries.take(count));
        lemma_dictionaries_total(dictionaries.drop_last(), count);
    }
}

/// Adds up the bytes of dictionaries.
pub fn dictionary_bytes(dictionaries: &Vec<(DictionaryId, Arc<Vec<u8>>)>) -> (bytes: u64)
    requires
        dictionaries_total(dictionaries@) <= u64::MAX,
    ensures
        bytes == dictionaries_total(dictionaries@),
{
    let mut bytes: u64 = 0;
    let mut next: usize = 0;
    assert(dictionaries@.take(0) =~= Seq::<(DictionaryId, Arc<Vec<u8>>)>::empty());
    while next < dictionaries.len()
        invariant
            next <= dictionaries@.len(),
            dictionaries_total(dictionaries@) <= u64::MAX,
            bytes == dictionaries_total(dictionaries@.take(next as int)),
        decreases dictionaries@.len() - next,
    {
        proof {
            lemma_dictionaries_total(dictionaries@, next + 1);
            assert(dictionaries@.take(next + 1).drop_last() =~= dictionaries@.take(next as int));
        }
        let payload = &dictionaries[next].1;
        bytes = bytes + payload.len() as u64;
        next = next + 1;
    }
    assert(dictionaries@.take(next as int) =~= dictionaries@);
    bytes
}

/// Stored bytes of blocks.
pub open spec fn stored_total(blocks: Seq<BlockResult>) -> int
    decreases blocks.len(),
{
    if blocks.len() == 0 {
        0
    } else {
        stored_total(blocks.drop_last()) + blocks.last().structural_stored_bytes
    }
}

/// One worker of a run: the block it takes next, and the blocks it has stored
/// one behind the other.
#[derive(Debug)]
pub struct WorkerRun {
    /// Number of the worker.
    pub worker: usize,
    /// Workers of the run.
    pub workers: usize,
    /// Whether payloads are written to the pack of the worker.
    pub packs: bool,
    /// The block to take next.
    pub next: usize,
    /// Bytes written to the pack.
    pub position: u64,
    /// Blocks done.
    pub blocks: Vec<BlockResult>,
}

impl WorkerRun {
    /// Whether the blocks stand in the pack one behind the other.
    pub open spec fn well_formed(self) -> bool {
        &&& self.position == if self.packs {
            stored_total(self.blocks@)
        } else {
            0
        }
        &&& forall|i: int|
            0 <= i < self.blocks@.len() ==> (#[trigger] self.blocks@[i]).pack_worker == self.worker
        &&& forall|i: int|
            0 <= i < self.blocks@.len() ==> (#[trigger] self.blocks@[i]).pack_offset
                == if self.packs {
                stored_total(self.blocks@.take(i))
            } else {
                0
            }
    }

    /// A worker that has not started.
    pub fn new(worker: usize, workers: usize, packs: bool) -> (run: Self)
        ensures
            run.well_formed(),
            run.worker == worker,
            run.workers == workers,
            run.packs == packs,
            run.next == worker,
            run.blocks@.len() == 0,
    {
        WorkerRun { worker, workers, packs, next: worker, position: 0, blocks: Vec::new() }
    }

    /// The block that this worker takes, where one is left.
    pub fn take_block(&self, spans: &Vec<BlockSpan>) -> (span: Option<BlockSpan>)
        ensures
            span == if self.next < spans@.len() {
                Some(spans@[self.next as int])
            } else {
                None
            },
    {
        if self.next < spans.len() {
            Some(spans[self.next])
        } else {
            None
        }
    }

    /// Notes a block that is done, behind the blocks before it.
    pub fn store_block(&mut self, result: BlockResult)
        requires
            old(self).well_formed(),
            old(self).position + result.structural_stored_bytes <= u64::MAX,
        ensures
            final(self).well_formed(),
            final(self).worker == old(self).worker,
            final(self).workers == old(self).workers,
            final(self).packs == old(self).packs,
            final(self).next == if old(self).next + old(self).workers > usize::MAX {
                usize::MAX as int
            } else {
                old(self).next + old(self).workers
            },
            final(self).blocks@ == old(self).blocks@.push(
                BlockResult {
                    pack_worker: old(self).worker as u64,
                    pack_offset: old(self).position,
                    ..result
                },
            ),
            final(self).position == old(self).position + if old(self).packs {
                result.structural_stored_bytes as int
            } else {
                0
            },
    {
        let mut placed = result;
        placed.pack_worker = self.worker as u64;
        placed.pack_offset = self.position;
        let ghost before = self.blocks@;
        if self.packs {
            self.position = self.position + result.structural_stored_bytes;
        }
        self.blocks.push(placed);
        self.next = next_block(self.next, self.workers);
        proof {
            assert(self.blocks@.drop_last() =~= before);
            assert forall|i: int| 0 <= i < self.blocks@.len() implies (
            #[trigger] self.blocks@[i]).pack_offset == if self.packs {
                stored_total(self.blocks@.take(i))
            } else {
                0
            } by {
                assert(self.blocks@.take(i) =~= before.take(i));
                if i < before.len() {
                    assert(self.blocks@[i] == before[i]);
                } else {
                    assert(before.take(i) =~= before);
                }
            }
            assert forall|i: int| 0 <= i < self.blocks@.len() implies (
            #[trigger] self.blocks@[i]).pack_worker == self.worker by {
                if i < before.len() {
                    assert(self.blocks@[i] == before[i]);
                }
            }
        }
    }
}

proof fn lemma_stored_total(blocks: Seq<BlockResult>, early: int, late: int)
    requires
        0 <= early <= late <= blocks.len(),
    ensures
        stored_total(blocks.take(early)) <= stored_total(blocks.take(late)),
    decreases late - early,
{
    if early < late {
        let longer = blocks.take(late);
        assert(longer.drop_last() =~= blocks.take(late - 1));
        lemma_stored_total(blocks, early, late - 1);
    }
}

/// Blocks of one pack do not overlap: each ends before the later ones start.
pub proof fn packed_blocks_are_apart(run: WorkerRun, early: int, late: int)
    requires
        run.well_formed(),
        run.packs,
        0 <= early < late < run.blocks@.len(),
    ensures
        run.blocks@[early].pack_offset + run.blocks@[early].structural_stored_bytes
            <= run.blocks@[late].pack_offset,
{
    let longer = run.blocks@.take(early + 1);
    assert(longer.drop_last() =~= run.blocks@.take(early));
    lemma_stored_total(run.blocks@, early + 1, late);
}

} // verus!
