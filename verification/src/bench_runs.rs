//! What the query and cache benchmarks read, and how they check what comes back.

use vstd::prelude::*;

use crate::embedded::SsdCacheConfig;
use crate::text::same_bytes;

verus! {

/// Whether every response of a repeated query was like the first.
#[derive(Debug, Clone, Copy, PartialEq, Eq, Structural)]
pub struct QueryStability {
    /// Records of the last response.
    pub records: Option<usize>,
    /// Bytes of the last response.
    pub bytes: Option<usize>,
}

impl QueryStability {
    /// No response yet.
    pub fn new() -> (stability: Self)
        ensures
            stability == (QueryStability { records: None, bytes: None }),
    {
        QueryStability { records: None, bytes: None }
    }

    /// Whether a response is unlike the one before.
    pub open spec fn changes(self, records: usize, bytes: usize) -> bool {
        (self.records is Some && self.records != Some(records)) || (self.bytes is Some && self.bytes
            != Some(bytes))
    }

    /// Notes a response.
    pub fn observe(&mut self, records: usize, bytes: usize) -> (stable: Result<(), String>)
        ensures
            match stable {
                Ok(_) => !old(self).changes(records, bytes) && *final(self) == (QueryStability {
                    records: Some(records),
                    bytes: Some(bytes),
                }),
                Err(text) => old(self).changes(records, bytes) && *final(self) == *old(self)
                    && text@ == "query results changed between iterations"@,
            },
    {
        let same_records = match self.records {
            Some(before) => before == records,
            None => true,
        };
        let same_length = match self.bytes {
            Some(before) => before == bytes,
            None => true,
        };
        if !same_records || !same_length {
            return Err("query results changed between iterations".to_owned());
        }
        self.records = Some(records);
        self.bytes = Some(bytes);
        Ok(())
    }
}

/// One byte of the object that the cache benchmark reads.
pub open spec fn payload_byte(place: nat) -> u8 {
    ((place * 131 + 17) % 256) as u8
}

/// Makes the object that the cache benchmark reads.
pub fn cache_payload(object_bytes: usize) -> (payload: Vec<u8>)
    ensures
        payload@ == Seq::new(object_bytes as nat, |i: int| payload_byte(i as nat)),
{
    let mut payload: Vec<u8> = Vec::new();
    let mut byte: u32 = 17;
    let mut next: usize = 0;
    while next < object_bytes
        invariant
            next <= object_bytes,
            byte == (next * 131 + 17) % 256,
            payload@.len() == next,
            forall|i: int| 0 <= i < next ==> #[trigger] payload@[i] == payload_byte(i as nat),
        decreases object_bytes - next,
    {
        payload.push(byte as u8);
        byte = (byte + 131) % 256;
        next = next + 1;
    }
    assert(payload@ =~= Seq::new(object_bytes as nat, |i: int| payload_byte(i as nat)));
    payload
}

/// Sizes of the caches that the benchmark compares: room for two chunks and their
/// headers, on disk and in memory.
pub fn cache_config(chunk_bytes: u64) -> (config: SsdCacheConfig)
    requires
        2 * (chunk_bytes + 64) <= u64::MAX,
    ensures
        config.max_bytes == 2 * (chunk_bytes + 64),
        config.chunk_bytes == chunk_bytes,
        config.max_read_bytes == chunk_bytes,
        config.memory_bytes == 2 * chunk_bytes,
        config.parsed_memory_bytes == 0,
{
    SsdCacheConfig {
        max_bytes: 2 * (chunk_bytes + 64),
        chunk_bytes,
        max_read_bytes: chunk_bytes,
        memory_bytes: 2 * chunk_bytes,
        parsed_memory_bytes: 0,
    }
}

/// Byte strings one behind the other.
pub open spec fn joined(parts: Seq<Vec<u8>>) -> Seq<u8>
    decreases parts.len(),
{
    if parts.len() == 0 {
        Seq::empty()
    } else {
        joined(parts.drop_last()) + parts.last()@
    }
}

fn join(parts: &Vec<Vec<u8>>) -> (all: Vec<u8>)
    ensures
        all@ == joined(parts@),
{
    let mut all: Vec<u8> = Vec::new();
    let mut next: usize = 0;
    assert(parts@.take(0) =~= Seq::<Vec<u8>>::empty());
    assert(all@ =~= joined(parts@.take(0)));
    while next < parts.len()
        invariant
            next <= parts@.len(),
            all@ == joined(parts@.take(next as int)),
        decreases parts@.len() - next,
    {
        all.extend_from_slice(parts[next].as_slice());
        assert(parts@.take(next + 1).drop_last() =~= parts@.take(next as int));
        assert(all@ =~= joined(parts@.take(next + 1)));
        next = next + 1;
    }
    assert(parts@.take(next as int) =~= parts@);
    all
}

/// Checks that ranges read one by one and ranges read together are both the start
/// of the object.
pub fn check_reads(single: &Vec<Vec<u8>>, batched: &Vec<Vec<u8>>, payload: &[u8], selected: usize) -> (checked:
    Result<(), String>)
    requires
        selected <= payload@.len(),
    ensures
        match checked {
            Ok(_) => joined(single@) == payload@.take(selected as int) && joined(batched@)
                == payload@.take(selected as int),
            Err(text) => (joined(single@) != joined(batched@) || joined(single@) != payload@.take(
                selected as int,
            )) && text@ == "batched and independent range reads disagree"@,
        },
{
    let left = join(single);
    let right = join(batched);
    assert(payload.len() == payload@.len());
    let start = vstd::slice::slice_subrange(payload, 0, selected);
    assert(start@ =~= payload@.take(selected as int));
    if same_bytes(left.as_slice(), right.as_slice()) && same_bytes(left.as_slice(), start) {
        Ok(())
    } else {
        Err("batched and independent range reads disagree".to_owned())
    }
}

/// Queries of the catalog for each round of reads.
pub fn control_iterations(iterations: usize) -> (count: usize)
    ensures
        count == if iterations == 0 {
            1
        } else if iterations * 100 > usize::MAX {
            usize::MAX as int
        } else {
            iterations * 100
        },
{
    if iterations == 0 {
        1
    } else if iterations > usize::MAX / 100 {
        usize::MAX
    } else {
        iterations * 100
    }
}

} // verus!
