//! Directory of sealed compression blocks.

use std::collections::BTreeMap;
use std::sync::Arc;

use vstd::prelude::*;

use crate::dictionary::{CompressionCohortId, CompressionPlacementId, DictionaryId};
use crate::error::{TelemetryError, TelemetryResult};
use crate::model::{LogicalOffset, ShardId, TopicPartition};
use crate::shared::share;

verus! {

/// Compression format used for one sealed log block.
#[derive(Debug, Clone, Copy, PartialEq, Eq, Structural)]
pub enum CompressionCodec {
    /// A standalone Zstandard frame, optionally using the descriptor dictionary.
    Zstd,
}

/// Monotonically assigned identifier for a sealed log data block.
#[derive(Debug, Clone, Copy, PartialEq, Eq, PartialOrd, Ord, Hash, Structural)]
pub struct BlockId(pub u64);

impl BlockId {
    /// Creates a block identifier.
    pub fn new(value: u64) -> (id: Self)
        ensures
            id.0 == value,
    {
        Self(value)
    }

    /// Returns the raw block identifier.
    pub fn get(self) -> (value: u64)
        ensures
            value == self.0,
    {
        self.0
    }
}

/// Immutable metadata describing a sealed compression block.
#[derive(Debug, PartialEq, Eq)]
pub struct BlockDescriptor {
    /// Stable local block identifier.
    pub block_id: BlockId,
    /// Owning physical stripe.
    pub stream_shard_id: ShardId,
    /// Logical partition represented by this block.
    pub topic_partition: TopicPartition,
    /// Producer-derived cohort retained for reconstruction.
    pub source_compression_cohort: CompressionCohortId,
    /// Final locality placement used to select this block and its dictionary.
    pub placement_id: CompressionPlacementId,
    /// Immutable compression dictionary required to decode the block, if any.
    pub dictionary_id: Option<DictionaryId>,
    /// Compression format used for the staged block payload.
    pub compression_codec: CompressionCodec,
    /// Encoder level used for the block.
    pub compression_level: i32,
    /// Lowest offset present in the block.
    pub first_offset: LogicalOffset,
    /// Highest offset present in the block. Interleaved cohorts may leave gaps.
    pub last_offset: LogicalOffset,
    /// Number of log records in this block.
    pub record_count: u32,
    /// Uncompressed message and metadata bytes represented by the block.
    pub source_bytes: u64,
    /// Bytes in the structural payload before the block's byte codec runs.
    pub structural_bytes: u64,
    /// Bytes in the compressed staged payload.
    pub stored_bytes: u64,
    /// Lowest event timestamp present in the block.
    pub min_timestamp_unix_nanos: u64,
    /// Highest event timestamp present in the block.
    pub max_timestamp_unix_nanos: u64,
    /// Byte-weighted majority-bit temperature for this complete block.
    pub compression_temperature: u16,
    /// Representative exact template-shape hash for this complete block.
    pub compression_shape_hash: u64,
    /// Byte-weighted mean squared locality deviation, Q8.
    pub compression_temperature_variance_q8: u16,
    /// Largest record-to-block locality distance.
    pub max_compression_temperature_deviation: u8,
    /// Object-store key after the block is offloaded.
    pub object_key: Option<String>,
    /// Byte offset of this block inside its immutable object payload.
    pub object_offset: Option<u64>,
}

impl Clone for BlockDescriptor {
    fn clone(&self) -> (copy: Self)
        ensures
            copy == *self,
    {
        BlockDescriptor {
            block_id: self.block_id,
            stream_shard_id: self.stream_shard_id,
            topic_partition: self.topic_partition,
            source_compression_cohort: self.source_compression_cohort,
            placement_id: self.placement_id,
            dictionary_id: self.dictionary_id,
            compression_codec: self.compression_codec,
            compression_level: self.compression_level,
            first_offset: self.first_offset,
            last_offset: self.last_offset,
            record_count: self.record_count,
            source_bytes: self.source_bytes,
            structural_bytes: self.structural_bytes,
            stored_bytes: self.stored_bytes,
            min_timestamp_unix_nanos: self.min_timestamp_unix_nanos,
            max_timestamp_unix_nanos: self.max_timestamp_unix_nanos,
            compression_temperature: self.compression_temperature,
            compression_shape_hash: self.compression_shape_hash,
            compression_temperature_variance_q8: self.compression_temperature_variance_q8,
            max_compression_temperature_deviation: self.max_compression_temperature_deviation,
            object_key: match &self.object_key {
                Some(key) => Some(key.clone()),
                None => None,
            },
            object_offset: self.object_offset,
        }
    }
}

/// In-memory directory of sealed blocks owned by one log stripe.
#[derive(Debug)]
pub struct BlockCatalog {
    next_block_id: u64,
    blocks: BTreeMap<u64, BlockDescriptor>,
    staged_payloads: BTreeMap<u64, Arc<Vec<u8>>>,
}

impl BlockCatalog {
    /// Identifier that the next sealed block receives.
    pub closed spec fn next_id(&self) -> u64 {
        self.next_block_id
    }

    /// Sealed descriptors by identifier.
    pub closed spec fn descriptors(&self) -> Map<u64, BlockDescriptor> {
        self.blocks@
    }

    /// Payloads that are still staged locally, by identifier.
    pub closed spec fn staged(&self) -> Map<u64, Arc<Vec<u8>>> {
        self.staged_payloads@
    }

    /// Every sealed block is filed under its own identifier.
    pub closed spec fn filed(&self) -> bool {
        forall|id: u64| #[trigger]
            self.blocks@.contains_key(id) ==> self.blocks@[id].block_id == BlockId(id)
    }

    /// Creates an empty directory.
    pub fn new() -> (catalog: Self)
        ensures
            catalog.next_id() == 0,
            catalog.descriptors() == Map::<u64, BlockDescriptor>::empty(),
            catalog.staged() == Map::<u64, Arc<Vec<u8>>>::empty(),
            catalog.filed(),
    {
        BlockCatalog {
            next_block_id: 0,
            blocks: BTreeMap::new(),
            staged_payloads: BTreeMap::new(),
        }
    }

    /// Returns the number of sealed blocks.
    pub fn len(&self) -> (count: usize)
        ensures
            count == self.descriptors().len(),
    {
        self.blocks.len()
    }

    /// Returns whether no blocks have been sealed.
    pub fn is_empty(&self) -> (empty: bool)
        ensures
            empty == self.descriptors().is_empty(),
    {
        self.blocks.is_empty()
    }

    /// Looks up a sealed block descriptor.
    pub fn get(&self, block_id: BlockId) -> (descriptor: Option<&BlockDescriptor>)
        ensures
            match descriptor {
                Some(found) => self.descriptors().contains_key(block_id.0) && *found
                    == self.descriptors()[block_id.0],
                None => !self.descriptors().contains_key(block_id.0),
            },
    {
        self.blocks.get(&block_id.0)
    }

    /// Lists sealed block descriptors in identifier order.
    pub fn iter(&self) -> (list: Vec<&BlockDescriptor>)
        requires
            self.filed(),
        ensures
            list@.len() == self.descriptors().len(),
            forall|i: int|
                0 <= i < list@.len() ==> self.descriptors().contains_key(
                    (#[trigger] list@[i]).block_id.0,
                ) && *list@[i] == self.descriptors()[list@[i].block_id.0],
            forall|i: int, j: int|
                0 <= i < j < list@.len() ==> (#[trigger] list@[i]).block_id.0 < (
                #[trigger] list@[j]).block_id.0,
    {
        broadcast use vstd::std_specs::btree::group_btree_axioms;

        let mut list: Vec<&BlockDescriptor> = Vec::new();
        let entries = self.blocks.iter();
        let ghost all = vstd::std_specs::iter::IteratorSpec::remaining(&entries);
        let ghost keys = all.map_values(|entry: (&u64, &BlockDescriptor)| *entry.0);
        assert(vstd::std_specs::btree::increasing_seq(keys));
        assert forall|i: int, j: int| 0 <= i < j < keys.len() implies keys[i] < keys[j] by {
            assert(vstd::std_specs::cmp::OrdSpec::cmp_spec(&keys[i], &keys[j]) is Less);
        }
        for entry in iter: entries
            invariant
                iter.seq() == all,
                list@.len() == iter.index(),
                forall|i: int| 0 <= i < list@.len() ==> #[trigger] list@[i] == all[i].1,
        {
            list.push(entry.1);
        }
        assert forall|i: int| 0 <= i < list@.len() implies self.blocks@.contains_key(
            (#[trigger] list@[i]).block_id.0,
        ) && *list@[i] == self.blocks@[list@[i].block_id.0] && list@[i].block_id.0 == keys[i] by {
            assert(self.blocks@.contains_key(*all[i].0));
        }
        list
    }

    /// Returns the compressed payload staged locally until an object-tier
    /// writer durably offloads the block.
    pub fn staged_payload(&self, block_id: BlockId) -> (payload: Option<Arc<Vec<u8>>>)
        ensures
            payload == (if self.staged().contains_key(block_id.0) {
                Some(self.staged()[block_id.0])
            } else {
                None
            }),
    {
        match self.staged_payloads.get(&block_id.0) {
            Some(payload) => Some(share(payload)),
            None => None,
        }
    }

    /// Files a block under the next identifier and stages its payload.
    pub fn seal(&mut self, block: BlockDescriptor, payload: Arc<Vec<u8>>) -> (sealed:
        BlockDescriptor)
        requires
            old(self).filed(),
        ensures
            sealed == (BlockDescriptor { block_id: BlockId(old(self).next_id()), ..block }),
            final(self).next_id() == old(self).next_id().wrapping_add(1),
            final(self).descriptors() == old(self).descriptors().insert(
                old(self).next_id(),
                sealed,
            ),
            final(self).staged() == old(self).staged().insert(old(self).next_id(), payload),
            final(self).filed(),
    {
        let block_id: u64 = self.next_block_id;
        self.next_block_id = self.next_block_id.wrapping_add(1);
        let mut sealed = block;
        sealed.block_id = BlockId::new(block_id);
        self.blocks.insert(block_id, sealed.clone());
        self.staged_payloads.insert(block_id, payload);
        sealed
    }

    /// Associates a durable object-store key with an already sealed block.
    pub fn mark_offloaded(&mut self, block_id: BlockId, object_key: String) -> (result:
        TelemetryResult<()>)
        requires
            old(self).filed(),
        ensures
            final(self).filed(),
            old(self).offload_outcome(final(self), block_id, object_key, 0, result),
    {
        self.mark_offloaded_range(block_id, object_key, 0)
    }

    /// What an offload of `block_id` does: an unknown block is refused and
    /// changes nothing; a sealed one records where its bytes now live and
    /// gives up its staged payload.
    pub open spec fn offload_outcome(
        &self,
        after: &Self,
        block_id: BlockId,
        object_key: String,
        object_offset: u64,
        result: TelemetryResult<()>,
    ) -> bool {
        if self.descriptors().contains_key(block_id.0) {
            &&& result is Ok
            &&& after.descriptors() == self.descriptors().insert(
                block_id.0,
                BlockDescriptor {
                    object_key: Some(object_key),
                    object_offset: Some(object_offset),
                    ..self.descriptors()[block_id.0]
                },
            )
            &&& after.staged() == self.staged().remove(block_id.0)
            &&& after.next_id() == self.next_id()
        } else {
            &&& result == TelemetryResult::<()>::Err(TelemetryError::UnknownBlock(block_id.0))
            &&& after.descriptors() == self.descriptors()
            &&& after.staged() == self.staged()
            &&& after.next_id() == self.next_id()
        }
    }

    /// Associates a durable object-store key and byte offset with a sealed block.
    pub fn mark_offloaded_range(
        &mut self,
        block_id: BlockId,
        object_key: String,
        object_offset: u64,
    ) -> (result: TelemetryResult<()>)
        requires
            old(self).filed(),
        ensures
            final(self).filed(),
            old(self).offload_outcome(final(self), block_id, object_key, object_offset, result),
    {
        match self.blocks.remove(&block_id.0) {
            None => {
                assert(self.blocks@ =~= old(self).blocks@);
                Err(TelemetryError::UnknownBlock(block_id.get()))
            },
            Some(found) => {
                let mut block = found;
                block.object_key = Some(object_key);
                block.object_offset = Some(object_offset);
                let ghost updated = block;
                self.blocks.insert(block_id.0, block);
                self.staged_payloads.remove(&block_id.0);
                assert(self.blocks@ =~= old(self).blocks@.insert(block_id.0, updated));
                Ok(())
            },
        }
    }
}

/// Sealing and then offloading a block leaves its descriptor listed with its
/// object location and no staged copy, and touches no other block.
pub proof fn sealed_then_offloaded(
    before: &BlockCatalog,
    sealed: &BlockCatalog,
    after: &BlockCatalog,
    block: BlockDescriptor,
    payload: Arc<Vec<u8>>,
    key: String,
    offset: u64,
    result: TelemetryResult<()>,
    other: u64,
)
    requires
        sealed.descriptors() == before.descriptors().insert(before.next_id(), block),
        sealed.staged() == before.staged().insert(before.next_id(), payload),
        sealed.offload_outcome(after, BlockId(before.next_id()), key, offset, result),
        other != before.next_id(),
    ensures
        result is Ok,
        !after.staged().contains_key(before.next_id()),
        after.descriptors()[before.next_id()].object_key == Some(key),
        after.descriptors()[before.next_id()].object_offset == Some(offset),
        after.descriptors().contains_key(other) == before.descriptors().contains_key(other),
        before.descriptors().contains_key(other) ==> after.descriptors()[other]
            == before.descriptors()[other],
        after.staged().contains_key(other) == before.staged().contains_key(other),
        before.staged().contains_key(other) ==> after.staged()[other] == before.staged()[other],
{
}

} // verus!
