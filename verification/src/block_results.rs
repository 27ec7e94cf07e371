//! Blocks that were compressed: their manifest, their dictionaries and the
//! container of several frames.

use vstd::bytes::{spec_u64_from_le_bytes, spec_u64_to_le_bytes};
use vstd::prelude::*;

use crate::dictionary::DictionaryId;
use crate::wire::{
    fields_read_back, push_u128, push_u64, read_u128, read_u64, u128_from_le, u128_le,
};

verus! {

/// Bytes before the first entry of a manifest or of dictionary assignments.
pub const MANIFEST_HEADER_BYTES: usize = 17;

/// Bytes of one manifest entry.
pub const MANIFEST_ENTRY_BYTES: usize = 80;

/// Bytes of one run of dictionary assignments.
pub const ASSIGNMENT_ENTRY_BYTES: usize = 32;

/// One compressed block.
#[derive(Debug, Clone, Copy, PartialEq, Eq, Structural)]
pub struct BlockResult {
    /// Position among the blocks.
    pub ordinal: u64,
    /// First byte in the source.
    pub source_offset: u64,
    /// Bytes of the block.
    pub input_bytes: u64,
    /// Bytes of the lines that were read.
    pub source_bytes: u64,
    /// Records.
    pub record_count: u64,
    /// Lines that could not be read.
    pub rejected_records: u64,
    /// Their bytes.
    pub rejected_bytes: u64,
    /// Bytes before compression.
    pub structural_bytes: u64,
    /// Bytes of the embedded query index.
    pub embedded_index_bytes: u64,
    /// Bytes after compression.
    pub structural_stored_bytes: u64,
    /// Worker that wrote the block.
    pub pack_worker: u64,
    /// First byte in the pack of that worker.
    pub pack_offset: u64,
    /// Checksum of the stored bytes.
    pub payload_checksum: u64,
    /// Dictionary that the block was compressed with.
    pub dictionary_id: Option<DictionaryId>,
    /// Time that compression took.
    pub structural_compression_nanos: u64,
}

impl BlockResult {
    /// What a manifest keeps of a block.
    pub open spec fn listed(self) -> Self {
        BlockResult {
            rejected_records: 0,
            rejected_bytes: 0,
            embedded_index_bytes: 0,
            dictionary_id: None,
            structural_compression_nanos: 0,
            ..self
        }
    }

    /// The manifest entry of a block.
    pub open spec fn wire(self) -> Seq<u8> {
        spec_u64_to_le_bytes(self.ordinal) + spec_u64_to_le_bytes(self.source_offset)
            + spec_u64_to_le_bytes(self.input_bytes) + spec_u64_to_le_bytes(self.source_bytes)
            + spec_u64_to_le_bytes(self.record_count) + spec_u64_to_le_bytes(self.structural_bytes)
            + spec_u64_to_le_bytes(self.pack_worker) + spec_u64_to_le_bytes(self.pack_offset)
            + spec_u64_to_le_bytes(self.structural_stored_bytes) + spec_u64_to_le_bytes(
            self.payload_checksum,
        )
    }
}

/// The magic of a manifest, `SLOGPACK2`.
pub open spec fn manifest_magic() -> Seq<u8> {
    seq![0x53u8, 0x4c, 0x4f, 0x47, 0x50, 0x41, 0x43, 0x4b, 0x32]
}

/// The entries of a manifest, one after the other.
pub open spec fn entries_wire(entries: Seq<BlockResult>) -> Seq<u8>
    decreases entries.len(),
{
    if entries.len() == 0 {
        Seq::empty()
    } else {
        entries_wire(entries.drop_last()) + entries.last().wire()
    }
}

/// The bytes of a manifest.
pub open spec fn manifest_wire(entries: Seq<BlockResult>) -> Seq<u8> {
    manifest_magic() + spec_u64_to_le_bytes(entries.len() as u64) + entries_wire(entries)
}

/// Inserts a block before the first one with a larger ordinal.
pub open spec fn insert_block(entries: Seq<BlockResult>, entry: BlockResult) -> Seq<BlockResult>
    decreases entries.len(),
{
    if entries.len() == 0 || entries.last().ordinal <= entry.ordinal {
        entries.push(entry)
    } else {
        insert_block(entries.drop_last(), entry).push(entries.last())
    }
}

/// Blocks in the order of their ordinals.
pub open spec fn by_ordinal(entries: Seq<BlockResult>) -> Seq<BlockResult>
    decreases entries.len(),
{
    if entries.len() == 0 {
        Seq::empty()
    } else {
        insert_block(by_ordinal(entries.drop_last()), entries.last())
    }
}

/// Whether blocks are in the order of their ordinals.
pub open spec fn in_ordinal_order(entries: Seq<BlockResult>) -> bool {
    forall|i: int, j: int|
        0 <= i <= j < entries.len() ==> (#[trigger] entries[i]).ordinal <= (
        #[trigger] entries[j]).ordinal
}

fn place_block(entries: &mut Vec<BlockResult>, entry: BlockResult)
    ensures
        final(entries)@ == insert_block(old(entries)@, entry),
{
    let mut place = entries.len();
    let ghost before = entries@;
    assert(before.take(before.len() as int) =~= before);
    assert(before.skip(before.len() as int) =~= Seq::<BlockResult>::empty());
    assert(insert_block(before, entry) =~= insert_block(before.take(place as int), entry)
        + before.skip(place as int));
    while place > 0 && entries[place - 1].ordinal > entry.ordinal
        invariant
            place <= before.len(),
            entries@ == before,
            insert_block(before, entry) == insert_block(before.take(place as int), entry)
                + before.skip(place as int),
        decreases place,
    {
        proof {
            let longer = before.take(place as int);
            let shorter = before.take(place - 1);
            assert(longer.drop_last() =~= shorter);
            assert(longer.last() == before[place - 1]);
            assert(insert_block(longer, entry) + before.skip(place as int) =~= insert_block(
                shorter,
                entry,
            ) + before.skip(place - 1));
        }
        place = place - 1;
    }
    proof {
        let kept = before.take(place as int);
        if place > 0 {
            assert(kept.last() == before[place - 1]);
        }
        assert(insert_block(kept, entry) == kept.push(entry));
        assert(before.insert(place as int, entry) =~= kept.push(entry) + before.skip(place as int));
    }
    entries.insert(place, entry);
}

/// Puts blocks in the order of their ordinals.
pub fn sort_by_ordinal(entries: &Vec<BlockResult>) -> (sorted: Vec<BlockResult>)
    ensures
        sorted@ == by_ordinal(entries@),
{
    let mut sorted: Vec<BlockResult> = Vec::new();
    let mut next: usize = 0;
    while next < entries.len()
        invariant
            next <= entries@.len(),
            sorted@ == by_ordinal(entries@.take(next as int)),
        decreases entries@.len() - next,
    {
        assert(entries@.take(next + 1).drop_last() =~= entries@.take(next as int));
        place_block(&mut sorted, entries[next]);
        next = next + 1;
    }
    assert(entries@.take(next as int) =~= entries@);
    sorted
}

proof fn lemma_insert_block(entries: Seq<BlockResult>, entry: BlockResult)
    requires
        in_ordinal_order(entries),
    ensures
        in_ordinal_order(insert_block(entries, entry)),
        insert_block(entries, entry).len() == entries.len() + 1,
        insert_block(entries, entry).to_multiset() == entries.to_multiset().insert(entry),
        entries.len() > 0 ==> insert_block(entries, entry).last().ordinal == (if entry.ordinal
            >= entries.last().ordinal {
            entry.ordinal
        } else {
            entries.last().ordinal
        }),
    decreases entries.len(),
{
    broadcast use vstd::seq_lib::group_to_multiset_ensures;

    if entries.len() == 0 || entries.last().ordinal <= entry.ordinal {
        let inserted = entries.push(entry);
        assert forall|i: int, j: int| 0 <= i <= j < inserted.len() implies (
        #[trigger] inserted[i]).ordinal <= (#[trigger] inserted[j]).ordinal by {
            if j == entries.len() && i < j {
                assert(entries[i].ordinal <= entries[entries.len() - 1].ordinal);
            }
        }
    } else {
        let shorter = entries.drop_last();
        lemma_insert_block(shorter, entry);
        let inner = insert_block(shorter, entry);
        let inserted = inner.push(entries.last());
        assert(entries =~= shorter.push(entries.last()));
        assert(inserted.to_multiset() =~= entries.to_multiset().insert(entry));
        if shorter.len() > 0 {
            assert(shorter.last() == entries[entries.len() - 2]);
            assert(entries[entries.len() - 2].ordinal <= entries[entries.len() - 1].ordinal);
        } else {
            assert(inner =~= seq![entry]);
        }
        assert(inner.last().ordinal <= entries.last().ordinal);
        assert forall|i: int, j: int| 0 <= i <= j < inserted.len() implies (
        #[trigger] inserted[i]).ordinal <= (#[trigger] inserted[j]).ordinal by {
            if j == inner.len() && i < j {
                assert(inner[i].ordinal <= inner[inner.len() - 1].ordinal);
            }
        }
    }
}

/// Sorting blocks keeps every block and puts them in the order of their
/// ordinals.
pub proof fn blocks_are_sorted(entries: Seq<BlockResult>)
    ensures
        in_ordinal_order(by_ordinal(entries)),
        by_ordinal(entries).len() == entries.len(),
        by_ordinal(entries).to_multiset() == entries.to_multiset(),
    decreases entries.len(),
{
    broadcast use vstd::seq_lib::group_to_multiset_ensures;

    if entries.len() > 0 {
        blocks_are_sorted(entries.drop_last());
        lemma_insert_block(by_ordinal(entries.drop_last()), entries.last());
        assert(entries =~= entries.drop_last().push(entries.last()));
    } else {
        assert(by_ordinal(entries) =~= entries);
    }
}

fn push_entry(output: &mut Vec<u8>, entry: &BlockResult)
    ensures
        final(output)@ == old(output)@ + entry.wire(),
{
    push_u64(output, entry.ordinal);
    push_u64(output, entry.source_offset);
    push_u64(output, entry.input_bytes);
    push_u64(output, entry.source_bytes);
    push_u64(output, entry.record_count);
    push_u64(output, entry.structural_bytes);
    push_u64(output, entry.pack_worker);
    push_u64(output, entry.pack_offset);
    push_u64(output, entry.structural_stored_bytes);
    push_u64(output, entry.payload_checksum);
    assert(output@ =~= old(output)@ + entry.wire());
}

/// The manifest of blocks, in the order of their ordinals.
pub fn write_manifest(entries: &Vec<BlockResult>) -> (manifest: Vec<u8>)
    ensures
        manifest@ == manifest_wire(by_ordinal(entries@)),
{
    let sorted = sort_by_ordinal(entries);
    let mut manifest: Vec<u8> = Vec::new();
    manifest.push(0x53);
    manifest.push(0x4c);
    manifest.push(0x4f);
    manifest.push(0x47);
    manifest.push(0x50);
    manifest.push(0x41);
    manifest.push(0x43);
    manifest.push(0x4b);
    manifest.push(0x32);
    push_u64(&mut manifest, sorted.len() as u64);
    let ghost head = manifest_magic() + spec_u64_to_le_bytes(sorted@.len() as u64);
    assert(manifest@ =~= head);
    let mut next: usize = 0;
    assert(manifest@ =~= head + entries_wire(sorted@.take(0)));
    while next < sorted.len()
        invariant
            next <= sorted@.len(),
            manifest@ == head + entries_wire(sorted@.take(next as int)),
        decreases sorted@.len() - next,
    {
        assert(sorted@.take(next + 1).drop_last() =~= sorted@.take(next as int));
        push_entry(&mut manifest, &sorted[next]);
        next = next + 1;
        assert(manifest@ =~= head + entries_wire(sorted@.take(next as int)));
    }
    assert(sorted@.take(next as int) =~= sorted@);
    manifest
}

/// The block of a manifest entry.
pub open spec fn entry_at(manifest: Seq<u8>, at: int) -> BlockResult {
    BlockResult {
        ordinal: spec_u64_from_le_bytes(manifest.subrange(at, at + 8)),
        source_offset: spec_u64_from_le_bytes(manifest.subrange(at + 8, at + 16)),
        input_bytes: spec_u64_from_le_bytes(manifest.subrange(at + 16, at + 24)),
        source_bytes: spec_u64_from_le_bytes(manifest.subrange(at + 24, at + 32)),
        record_count: spec_u64_from_le_bytes(manifest.subrange(at + 32, at + 40)),
        rejected_records: 0,
        rejected_bytes: 0,
        structural_bytes: spec_u64_from_le_bytes(manifest.subrange(at + 40, at + 48)),
        embedded_index_bytes: 0,
        structural_stored_bytes: spec_u64_from_le_bytes(manifest.subrange(at + 64, at + 72)),
        pack_worker: spec_u64_from_le_bytes(manifest.subrange(at + 48, at + 56)),
        pack_offset: spec_u64_from_le_bytes(manifest.subrange(at + 56, at + 64)),
        payload_checksum: spec_u64_from_le_bytes(manifest.subrange(at + 72, at + 80)),
        dictionary_id: None,
        structural_compression_nanos: 0,
    }
}

/// The blocks of a manifest, or what is said of bytes that are none.
pub open spec fn manifest_entries(manifest: Seq<u8>) -> Result<Seq<BlockResult>, Seq<char>> {
    if manifest.len() < 17 {
        Err("failed to fill whole buffer"@)
    } else if manifest.take(9) != manifest_magic() {
        Err("manifest has invalid magic"@)
    } else {
        let count = spec_u64_from_le_bytes(manifest.subrange(9, 17));
        if 17 + count * 80 > u64::MAX {
            Err("manifest length overflow"@)
        } else if manifest.len() != 17 + count * 80 {
            Err("manifest length does not match its entry count"@)
        } else {
            Ok(Seq::new(count as nat, |i: int| entry_at(manifest, 17 + i * 80)))
        }
    }
}

fn read_entry(manifest: &[u8], at: usize) -> (entry: BlockResult)
    requires
        at + 80 <= manifest@.len(),
    ensures
        entry == entry_at(manifest@, at as int),
{
    assert(manifest.len() == manifest@.len());
    BlockResult {
        ordinal: read_u64(manifest, at),
        source_offset: read_u64(manifest, at + 8),
        input_bytes: read_u64(manifest, at + 16),
        source_bytes: read_u64(manifest, at + 24),
        record_count: read_u64(manifest, at + 32),
        rejected_records: 0,
        rejected_bytes: 0,
        structural_bytes: read_u64(manifest, at + 40),
        embedded_index_bytes: 0,
        structural_stored_bytes: read_u64(manifest, at + 64),
        pack_worker: read_u64(manifest, at + 48),
        pack_offset: read_u64(manifest, at + 56),
        payload_checksum: read_u64(manifest, at + 72),
        dictionary_id: None,
        structural_compression_nanos: 0,
    }
}

/// Reads a manifest.
pub fn read_manifest(manifest: &[u8]) -> (entries: Result<Vec<BlockResult>, String>)
    ensures
        match entries {
            Ok(entries) => manifest_entries(manifest@) == Ok::<Seq<BlockResult>, Seq<char>>(
                entries@,
            ),
            Err(complaint) => manifest_entries(manifest@) == Err::<Seq<BlockResult>, Seq<char>>(
                complaint@,
            ),
        },
{
    assert(manifest.len() == manifest@.len());
    if manifest.len() < MANIFEST_HEADER_BYTES {
        return Err("failed to fill whole buffer".to_owned());
    }
    let magic = vstd::slice::slice_subrange(manifest, 0, 9);
    assert(magic@ =~= manifest@.take(9));
    if !is_magic(magic, 0x50, 0x41, 0x43, 0x4b) {
        return Err("manifest has invalid magic".to_owned());
    }
    let count = read_u64(manifest, 9);
    if count as u128 * 80 + 17 > u64::MAX as u128 {
        return Err("manifest length overflow".to_owned());
    }
    if manifest.len() as u64 != count * 80 + 17 {
        return Err("manifest length does not match its entry count".to_owned());
    }
    let mut entries: Vec<BlockResult> = Vec::new();
    let mut next: u64 = 0;
    while next < count
        invariant
            next <= count,
            manifest.len() == manifest@.len(),
            manifest@.len() == 17 + count * 80,
            entries@ == Seq::new(next as nat, |i: int| entry_at(manifest@, 17 + i * 80)),
        decreases count - next,
    {
        let at = 17 + next as usize * 80;
        entries.push(read_entry(manifest, at));
        next = next + 1;
        assert(entries@ =~= Seq::new(next as nat, |i: int| entry_at(manifest@, 17 + i * 80)));
    }
    Ok(entries)
}

/// The magic whose four distinguishing bytes are these.
pub open spec fn slog_magic(a: u8, b: u8, c: u8, d: u8) -> Seq<u8> {
    seq![0x53u8, 0x4c, 0x4f, 0x47, a, b, c, d, 0x32]
}

fn is_magic(magic: &[u8], a: u8, b: u8, c: u8, d: u8) -> (same: bool)
    requires
        magic@.len() == 9,
    ensures
        same == (magic@ == slog_magic(a, b, c, d)),
{
    let same = magic[0] == 0x53 && magic[1] == 0x4c && magic[2] == 0x4f && magic[3] == 0x47
        && magic[4] == a && magic[5] == b && magic[6] == c && magic[7] == d && magic[8] == 0x32;
    let ghost wanted = slog_magic(a, b, c, d);
    proof {
        if same {
            assert(magic@ =~= wanted);
        } else if magic@ == wanted {
            assert(magic@[0] == wanted[0] && magic@[1] == wanted[1] && magic@[2] == wanted[2]
                && magic@[3] == wanted[3] && magic@[4] == wanted[4] && magic@[5] == wanted[5]
                && magic@[6] == wanted[6] && magic@[7] == wanted[7] && magic@[8] == wanted[8]);
        }
    }
    same
}

proof fn lemma_entry_wire(entry: BlockResult)
    ensures
        entry.wire().len() == 80,
        entry_at(entry.wire(), 0) == entry.listed(),
{
    fields_read_back();
    let wire = entry.wire();
    assert(wire.len() == 80);
    assert(wire.subrange(0, 8) =~= spec_u64_to_le_bytes(entry.ordinal));
    assert(wire.subrange(8, 16) =~= spec_u64_to_le_bytes(entry.source_offset));
    assert(wire.subrange(16, 24) =~= spec_u64_to_le_bytes(entry.input_bytes));
    assert(wire.subrange(24, 32) =~= spec_u64_to_le_bytes(entry.source_bytes));
    assert(wire.subrange(32, 40) =~= spec_u64_to_le_bytes(entry.record_count));
    assert(wire.subrange(40, 48) =~= spec_u64_to_le_bytes(entry.structural_bytes));
    assert(wire.subrange(48, 56) =~= spec_u64_to_le_bytes(entry.pack_worker));
    assert(wire.subrange(56, 64) =~= spec_u64_to_le_bytes(entry.pack_offset));
    assert(wire.subrange(64, 72) =~= spec_u64_to_le_bytes(entry.structural_stored_bytes));
    assert(wire.subrange(72, 80) =~= spec_u64_to_le_bytes(entry.payload_checksum));
}

proof fn lemma_entry_moves(manifest: Seq<u8>, at: int, wire: Seq<u8>)
    requires
        0 <= at,
        wire.len() == 80,
        at + 80 <= manifest.len(),
        manifest.subrange(at, at + 80) == wire,
    ensures
        entry_at(manifest, at) == entry_at(wire, 0),
{
    assert(manifest.subrange(at, at + 8) =~= wire.subrange(0, 8));
    assert(manifest.subrange(at + 8, at + 16) =~= wire.subrange(8, 16));
    assert(manifest.subrange(at + 16, at + 24) =~= wire.subrange(16, 24));
    assert(manifest.subrange(at + 24, at + 32) =~= wire.subrange(24, 32));
    assert(manifest.subrange(at + 32, at + 40) =~= wire.subrange(32, 40));
    assert(manifest.subrange(at + 40, at + 48) =~= wire.subrange(40, 48));
    assert(manifest.subrange(at + 48, at + 56) =~= wire.subrange(48, 56));
    assert(manifest.subrange(at + 56, at + 64) =~= wire.subrange(56, 64));
    assert(manifest.subrange(at + 64, at + 72) =~= wire.subrange(64, 72));
    assert(manifest.subrange(at + 72, at + 80) =~= wire.subrange(72, 80));
}

proof fn lemma_entries_wire(entries: Seq<BlockResult>, place: int)
    requires
        0 <= place < entries.len(),
    ensures
        entries_wire(entries).len() == entries.len() * 80,
        entries_wire(entries).subrange(place * 80, place * 80 + 80) == entries[place].wire(),
    decreases entries.len(),
{
    let shorter = entries.drop_last();
    lemma_entry_wire(entries.last());
    lemma_entries_length(shorter);
    lemma_entries_length(entries);
    let whole = entries_wire(entries);
    if place < shorter.len() {
        lemma_entries_wire(shorter, place);
        assert(whole.subrange(place * 80, place * 80 + 80) =~= entries_wire(shorter).subrange(
            place * 80,
            place * 80 + 80,
        ));
    } else {
        assert(whole.subrange(place * 80, place * 80 + 80) =~= entries.last().wire());
    }
}

proof fn lemma_entries_length(entries: Seq<BlockResult>)
    ensures
        entries_wire(entries).len() == entries.len() * 80,
    decreases entries.len(),
{
    if entries.len() > 0 {
        lemma_entries_length(entries.drop_last());
        lemma_entry_wire(entries.last());
    }
}

/// A manifest gives back what it lists of every block.
pub proof fn manifests_read_back(entries: Seq<BlockResult>)
    requires
        17 + entries.len() * 80 <= u64::MAX,
    ensures
        manifest_entries(manifest_wire(entries)) matches Ok(read) && read == Seq::new(
            entries.len(),
            |i: int| entries[i].listed(),
        ),
{
    fields_read_back();
    let manifest = manifest_wire(entries);
    lemma_entries_length(entries);
    let head = manifest_magic() + spec_u64_to_le_bytes(entries.len() as u64);
    assert(head.len() == 17);
    assert(manifest.take(9) =~= manifest_magic());
    assert(manifest.subrange(9, 17) =~= spec_u64_to_le_bytes(entries.len() as u64));
    let read = Seq::new(entries.len(), |i: int| entry_at(manifest, 17 + i * 80));
    let listed = Seq::new(entries.len(), |i: int| entries[i].listed());
    assert forall|i: int| 0 <= i < entries.len() implies read[i] == listed[i] by {
        lemma_entries_wire(entries, i);
        lemma_entry_wire(entries[i]);
        let at = 17 + i * 80;
        assert(manifest.subrange(at, at + 80) =~= entries_wire(entries).subrange(
            i * 80,
            i * 80 + 80,
        ));
        lemma_entry_moves(manifest, at, entries[i].wire());
    }
    assert(read =~= listed);
}

/// Consecutive blocks that share a dictionary.
#[derive(Debug, Clone, Copy, PartialEq, Eq, Structural)]
pub struct DictionaryRun {
    /// First block.
    pub start: u64,
    /// Blocks.
    pub length: u64,
    /// Their dictionary.
    pub dictionary_id: DictionaryId,
}

/// The magic of dictionary assignments, `SLOGDICT2`.
pub open spec fn assignment_magic() -> Seq<u8> {
    slog_magic(0x44, 0x49, 0x43, 0x54)
}

impl DictionaryRun {
    /// The bytes of a run.
    pub open spec fn wire(self) -> Seq<u8> {
        spec_u64_to_le_bytes(self.start) + spec_u64_to_le_bytes(self.length) + u128_le(
            self.dictionary_id.0,
        )
    }

    /// Where the run ends.
    pub open spec fn end(self) -> int {
        self.start + self.length
    }
}

/// The dictionaries of blocks as runs.
pub open spec fn dictionary_runs(entries: Seq<BlockResult>) -> Seq<DictionaryRun>
    decreases entries.len(),
{
    if entries.len() == 0 {
        Seq::empty()
    } else {
        let before = dictionary_runs(entries.drop_last());
        let entry = entries.last();
        match entry.dictionary_id {
            None => before,
            Some(dictionary_id) => if before.len() > 0 && before.last().dictionary_id
                == dictionary_id && before.last().end() == entry.ordinal {
                before.drop_last().push(
                    DictionaryRun { length: (before.last().length + 1) as u64, ..before.last() },
                )
            } else {
                before.push(DictionaryRun { start: entry.ordinal, length: 1, dictionary_id })
            },
        }
    }
}

/// Runs, one after the other.
pub open spec fn runs_wire(runs: Seq<DictionaryRun>) -> Seq<u8>
    decreases runs.len(),
{
    if runs.len() == 0 {
        Seq::empty()
    } else {
        runs_wire(runs.drop_last()) + runs.last().wire()
    }
}

/// The bytes of dictionary assignments.
pub open spec fn assignments_wire(runs: Seq<DictionaryRun>) -> Seq<u8> {
    assignment_magic() + spec_u64_to_le_bytes(runs.len() as u64) + runs_wire(runs)
}

/// The runs of sorted blocks.
fn find_runs(sorted: &Vec<BlockResult>) -> (runs: Vec<DictionaryRun>)
    ensures
        runs@ == dictionary_runs(sorted@),
{
    let mut runs: Vec<DictionaryRun> = Vec::new();
    let mut next: usize = 0;
    while next < sorted.len()
        invariant
            next <= sorted@.len(),
            runs@ == dictionary_runs(sorted@.take(next as int)),
        decreases sorted@.len() - next,
    {
        let entry = sorted[next];
        assert(sorted@.take(next + 1).drop_last() =~= sorted@.take(next as int));
        assert(sorted@.take(next + 1).last() == entry);
        if let Some(dictionary_id) = entry.dictionary_id {
            let count = runs.len();
            if count > 0 && runs[count - 1].dictionary_id == dictionary_id
                && runs[count - 1].start <= entry.ordinal && entry.ordinal - runs[count - 1].start
                == runs[count - 1].length && runs[count - 1].length < u64::MAX {
                let mut run = runs[count - 1];
                run.length = run.length + 1;
                let ghost before = runs@;
                runs.set(count - 1, run);
                assert(runs@ =~= before.drop_last().push(run));
            } else {
                proof {
                    if count > 0 && runs@.last().dictionary_id == dictionary_id && runs@.last().end()
                        == entry.ordinal {
                        lemma_run_lengths(sorted@.take(next as int));
                    }
                }
                runs.push(DictionaryRun { start: entry.ordinal, length: 1, dictionary_id });
            }
        }
        next = next + 1;
    }
    assert(sorted@.take(next as int) =~= sorted@);
    runs
}

/// No run is longer than there are blocks.
proof fn lemma_run_lengths(entries: Seq<BlockResult>)
    requires
        entries.len() < u64::MAX,
    ensures
        forall|i: int|
            0 <= i < dictionary_runs(entries).len() ==> (#[trigger] dictionary_runs(entries)[i]).length
                <= entries.len(),
        dictionary_runs(entries).len() <= entries.len(),
    decreases entries.len(),
{
    if entries.len() > 0 {
        lemma_run_lengths(entries.drop_last());
        let before = dictionary_runs(entries.drop_last());
        let after = dictionary_runs(entries);
        assert forall|i: int| 0 <= i < after.len() implies (#[trigger] after[i]).length
            <= entries.len() by {
            if i < before.len() {
                assert(before[i].length <= entries.len() - 1);
            }
        }
    }
}

/// The dictionary assignments of blocks, where any block has a dictionary.
pub fn write_dictionary_assignments(entries: &Vec<BlockResult>) -> (assignments: Option<Vec<u8>>)
    requires
        entries@.len() < u64::MAX,
    ensures
        match assignments {
            Some(assignments) => dictionary_runs(by_ordinal(entries@)).len() > 0 && assignments@
                == assignments_wire(dictionary_runs(by_ordinal(entries@))),
            None => dictionary_runs(by_ordinal(entries@)).len() == 0,
        },
{
    let sorted = sort_by_ordinal(entries);
    let runs = find_runs(&sorted);
    if runs.len() == 0 {
        return None;
    }
    let mut output: Vec<u8> = Vec::new();
    output.push(0x53);
    output.push(0x4c);
    output.push(0x4f);
    output.push(0x47);
    output.push(0x44);
    output.push(0x49);
    output.push(0x43);
    output.push(0x54);
    output.push(0x32);
    push_u64(&mut output, runs.len() as u64);
    let ghost head = assignment_magic() + spec_u64_to_le_bytes(runs@.len() as u64);
    assert(output@ =~= head);
    let mut next: usize = 0;
    assert(output@ =~= head + runs_wire(runs@.take(0)));
    while next < runs.len()
        invariant
            next <= runs@.len(),
            output@ == head + runs_wire(runs@.take(next as int)),
        decreases runs@.len() - next,
    {
        assert(runs@.take(next + 1).drop_last() =~= runs@.take(next as int));
        let run = runs[next];
        push_u64(&mut output, run.start);
        push_u64(&mut output, run.length);
        push_u128(&mut output, run.dictionary_id.get());
        next = next + 1;
        assert(output@ =~= head + runs_wire(runs@.take(next as int)));
    }
    assert(runs@.take(next as int) =~= runs@);
    Some(output)
}

/// The run at a place of dictionary assignments.
pub open spec fn run_at(assignments: Seq<u8>, at: int) -> DictionaryRun {
    DictionaryRun {
        start: spec_u64_from_le_bytes(assignments.subrange(at, at + 8)),
        length: spec_u64_from_le_bytes(assignments.subrange(at + 8, at + 16)),
        dictionary_id: DictionaryId(u128_from_le(assignments.subrange(at + 16, at + 32))),
    }
}

/// Blocks of which some have a dictionary.
pub open spec fn with_run(entries: Seq<BlockResult>, run: DictionaryRun) -> Seq<BlockResult> {
    Seq::new(
        entries.len(),
        |i: int|
            if run.start <= i < run.end() {
                BlockResult { dictionary_id: Some(run.dictionary_id), ..entries[i] }
            } else {
                entries[i]
            },
    )
}

/// Gives a run of blocks its dictionary, or says why it cannot.
pub open spec fn apply_run(entries: Seq<BlockResult>, run: DictionaryRun) -> Result<
    Seq<BlockResult>,
    Seq<char>,
> {
    if run.end() > u64::MAX {
        Err("dictionary assignment run overflows"@)
    } else if run.end() > entries.len() {
        Err("dictionary assignment run exceeds manifest"@)
    } else if run.length == 0 || exists|i: int|
        run.start <= i < run.end() && (#[trigger] entries[i]).dictionary_id is Some {
        Err("invalid or overlapping dictionary assignment run"@)
    } else {
        Ok(with_run(entries, run))
    }
}

/// Gives runs of blocks their dictionaries, one run after the other.
pub open spec fn apply_runs(entries: Seq<BlockResult>, runs: Seq<DictionaryRun>) -> Result<
    Seq<BlockResult>,
    Seq<char>,
>
    decreases runs.len(),
{
    if runs.len() == 0 {
        Ok(entries)
    } else {
        match apply_runs(entries, runs.drop_last()) {
            Err(text) => Err(text),
            Ok(before) => apply_run(before, runs.last()),
        }
    }
}

/// The runs of dictionary assignments.
pub open spec fn runs_at(assignments: Seq<u8>, count: nat) -> Seq<DictionaryRun> {
    Seq::new(count, |i: int| run_at(assignments, 17 + i * 32))
}

/// Blocks with the dictionaries that assignments give them.
pub open spec fn assigned(assignments: Seq<u8>, entries: Seq<BlockResult>) -> Result<
    Seq<BlockResult>,
    Seq<char>,
> {
    if assignments.len() < 17 {
        Err("failed to fill whole buffer"@)
    } else if assignments.take(9) != assignment_magic() {
        Err("dictionary assignments have invalid magic"@)
    } else {
        let count = spec_u64_from_le_bytes(assignments.subrange(9, 17));
        if assignments.len() != 17 + count * 32 {
            Err("dictionary assignment length does not match run count"@)
        } else {
            apply_runs(entries, runs_at(assignments, count as nat))
        }
    }
}

fn read_run(assignments: &[u8], at: usize) -> (run: DictionaryRun)
    requires
        at + 32 <= assignments@.len(),
    ensures
        run == run_at(assignments@, at as int),
{
    assert(assignments.len() == assignments@.len());
    DictionaryRun {
        start: read_u64(assignments, at),
        length: read_u64(assignments, at + 8),
        dictionary_id: DictionaryId::new(read_u128(assignments, at + 16)),
    }
}

fn assign_run(entries: &mut Vec<BlockResult>, run: DictionaryRun) -> (done: Result<(), String>)
    ensures
        match done {
            Ok(_) => apply_run(old(entries)@, run) == Ok::<Seq<BlockResult>, Seq<char>>(
                final(entries)@,
            ),
            Err(complaint) => apply_run(old(entries)@, run) == Err::<Seq<BlockResult>, Seq<char>>(
                complaint@,
            ),
        },
{
    let ghost before = entries@;
    if run.start > u64::MAX - run.length {
        return Err("dictionary assignment run overflows".to_owned());
    }
    let end = run.start + run.length;
    if end > entries.len() as u64 {
        return Err("dictionary assignment run exceeds manifest".to_owned());
    }
    if run.length == 0 {
        return Err("invalid or overlapping dictionary assignment run".to_owned());
    }
    let mut next = run.start as usize;
    while next < end as usize
        invariant
            run.start <= next <= end <= entries@.len(),
            end == run.start + run.length,
            entries@ == before,
            forall|i: int| run.start <= i < next ==> (#[trigger] before[i]).dictionary_id is None,
            run.length > 0,
        decreases end - next,
    {
        if entries[next].dictionary_id.is_some() {
            assert(before[next as int].dictionary_id is Some);
            return Err("invalid or overlapping dictionary assignment run".to_owned());
        }
        next = next + 1;
    }
    let mut place = run.start as usize;
    while place < end as usize
        invariant
            run.start <= place <= end <= entries@.len(),
            end == run.start + run.length,
            entries@.len() == before.len(),
            forall|i: int|
                0 <= i < entries@.len() ==> #[trigger] entries@[i] == (if run.start <= i < place {
                    BlockResult { dictionary_id: Some(run.dictionary_id), ..before[i] }
                } else {
                    before[i]
                }),
        decreases end - place,
    {
        let mut entry = entries[place];
        entry.dictionary_id = Some(run.dictionary_id);
        entries.set(place, entry);
        place = place + 1;
    }
    assert(entries@ =~= with_run(before, run));
    Ok(())
}

/// Gives blocks the dictionaries that assignments say.
pub fn read_dictionary_assignments(assignments: &[u8], entries: Vec<BlockResult>) -> (read: Result<
    Vec<BlockResult>,
    String,
>)
    ensures
        match read {
            Ok(read) => assigned(assignments@, entries@) == Ok::<Seq<BlockResult>, Seq<char>>(
                read@,
            ),
            Err(complaint) => assigned(assignments@, entries@) == Err::<
                Seq<BlockResult>,
                Seq<char>,
            >(complaint@),
        },
{
    assert(assignments.len() == assignments@.len());
    if assignments.len() < MANIFEST_HEADER_BYTES {
        return Err("failed to fill whole buffer".to_owned());
    }
    let magic = vstd::slice::slice_subrange(assignments, 0, 9);
    assert(magic@ =~= assignments@.take(9));
    if !is_magic(magic, 0x44, 0x49, 0x43, 0x54) {
        return Err("dictionary assignments have invalid magic".to_owned());
    }
    let count = read_u64(assignments, 9);
    if assignments.len() as u128 != count as u128 * 32 + 17 {
        return Err("dictionary assignment length does not match run count".to_owned());
    }
    let ghost runs = runs_at(assignments@, count as nat);
    let mut read = entries;
    let mut next: u64 = 0;
    assert(runs.take(0) =~= Seq::<DictionaryRun>::empty());
    while next < count
        invariant
            next <= count,
            assignments.len() == assignments@.len(),
            assignments@.len() == 17 + count * 32,
            runs == runs_at(assignments@, count as nat),
            apply_runs(entries@, runs.take(next as int)) == Ok::<Seq<BlockResult>, Seq<char>>(read@),
            assigned(assignments@, entries@) == apply_runs(entries@, runs),
        decreases count - next,
    {
        let at = 17 + next as usize * 32;
        let run = read_run(assignments, at);
        assert(runs.take(next + 1).drop_last() =~= runs.take(next as int));
        assert(runs.take(next + 1).last() == run);
        proof {
            lemma_runs_fail(entries@, runs, next + 1);
        }
        match assign_run(&mut read, run) {
            Ok(_) => {},
            Err(complaint) => {
                return Err(complaint);
            },
        }
        next = next + 1;
    }
    assert(runs.take(next as int) =~= runs);
    Ok(read)
}

/// Once a run fails, all of them do.
proof fn lemma_runs_fail(entries: Seq<BlockResult>, runs: Seq<DictionaryRun>, count: int)
    requires
        0 <= count <= runs.len(),
    ensures
        apply_runs(entries, runs.take(count)) matches Err(text) ==> apply_runs(entries, runs)
            == Err::<Seq<BlockResult>, Seq<char>>(text),
    decreases runs.len(),
{
    if count == runs.len() {
        assert(runs.take(count) =~= runs);
    } else {
        lemma_runs_fail(entries, runs.drop_last(), count);
        assert(runs.drop_last().take(count) =~= runs.take(count));
    }
}

/// Blocks of which the first have their dictionaries.
pub open spec fn partly_assigned(entries: Seq<BlockResult>, count: int) -> Seq<BlockResult> {
    Seq::new(
        entries.len(),
        |i: int|
            if i < count {
                entries[i]
            } else {
                BlockResult { dictionary_id: None, ..entries[i] }
            },
    )
}

proof fn lemma_runs_assign(entries: Seq<BlockResult>, count: int)
    requires
        0 <= count <= entries.len() < u64::MAX,
        forall|i: int| 0 <= i < entries.len() ==> (#[trigger] entries[i]).ordinal == i,
    ensures
        apply_runs(partly_assigned(entries, 0), dictionary_runs(entries.take(count))) == Ok::<
            Seq<BlockResult>,
            Seq<char>,
        >(partly_assigned(entries, count)),
        dictionary_runs(entries.take(count)).len() > 0 ==> dictionary_runs(
            entries.take(count),
        ).last().end() <= count,
    decreases count,
{
    let bare = partly_assigned(entries, 0);
    if count > 0 {
        let last = count - 1;
        lemma_runs_assign(entries, last);
        let shorter = entries.take(last);
        let longer = entries.take(count);
        assert(longer.drop_last() =~= shorter);
        assert(longer.last() == entries[last]);
        let before = dictionary_runs(shorter);
        let after = dictionary_runs(longer);
        let entry = entries[last];
        match entry.dictionary_id {
            None => {
                assert(partly_assigned(entries, count) =~= partly_assigned(entries, last));
            },
            Some(dictionary_id) => {
                if before.len() > 0 && before.last().dictionary_id == dictionary_id
                    && before.last().end() == entry.ordinal {
                    let run = before.last();
                    let grown = DictionaryRun { length: (run.length + 1) as u64, ..run };
                    assert(after.drop_last() =~= before.drop_last());
                    assert(after.last() == grown);
                    let earlier = apply_runs(bare, before.drop_last())->Ok_0;
                    assert(apply_run(earlier, run) == Ok::<Seq<BlockResult>, Seq<char>>(
                        partly_assigned(entries, last),
                    ));
                    let done = with_run(earlier, run);
                    assert(done == partly_assigned(entries, last));
                    assert(done.len() == entries.len());
                    assert(done[last] == earlier[last]);
                    assert(partly_assigned(entries, last)[last].dictionary_id is None);
                    assert forall|i: int| grown.start <= i < grown.end() implies (
                    #[trigger] earlier[i]).dictionary_id is None by {
                        if i == last {
                        }
                    }
                    assert(with_run(earlier, grown) =~= partly_assigned(entries, count)) by {
                        assert forall|i: int| 0 <= i < entries.len() implies with_run(
                            earlier,
                            grown,
                        )[i] == partly_assigned(entries, count)[i] by {
                            assert(done[i] == partly_assigned(entries, last)[i]);
                        }
                    }
                } else {
                    let run = DictionaryRun { start: entry.ordinal, length: 1, dictionary_id };
                    assert(after.drop_last() =~= before);
                    assert(after.last() == run);
                    let done = partly_assigned(entries, last);
                    assert(done[last].dictionary_id is None);
                    assert(with_run(done, run) =~= partly_assigned(entries, count));
                }
            },
        }
    } else {
        assert(entries.take(0) =~= Seq::<BlockResult>::empty());
        assert(partly_assigned(entries, 0) =~= bare);
    }
}

proof fn lemma_run_wire(run: DictionaryRun)
    ensures
        run.wire().len() == 32,
        run_at(run.wire(), 0) == run,
{
    fields_read_back();
    let wire = run.wire();
    assert(wire.subrange(0, 8) =~= spec_u64_to_le_bytes(run.start));
    assert(wire.subrange(8, 16) =~= spec_u64_to_le_bytes(run.length));
    assert(wire.subrange(16, 32) =~= u128_le(run.dictionary_id.0));
}

proof fn lemma_runs_wire(runs: Seq<DictionaryRun>)
    ensures
        runs_wire(runs).len() == runs.len() * 32,
        forall|i: int|
            0 <= i < runs.len() ==> #[trigger] runs_wire(runs).subrange(i * 32, i * 32 + 32)
                == runs[i].wire(),
    decreases runs.len(),
{
    if runs.len() > 0 {
        let shorter = runs.drop_last();
        lemma_runs_wire(shorter);
        lemma_run_wire(runs.last());
        let whole = runs_wire(runs);
        assert forall|i: int| 0 <= i < runs.len() implies #[trigger] whole.subrange(
            i * 32,
            i * 32 + 32,
        ) == runs[i].wire() by {
            if i < shorter.len() {
                assert(whole.subrange(i * 32, i * 32 + 32) =~= runs_wire(shorter).subrange(
                    i * 32,
                    i * 32 + 32,
                ));
                assert(shorter[i] == runs[i]);
            } else {
                assert(whole.subrange(i * 32, i * 32 + 32) =~= runs.last().wire());
            }
        }
    }
}

/// Dictionary assignments give back the dictionary of every block: numbered
/// blocks that lost their dictionaries have them again once the assignments
/// are read.
pub proof fn assignments_read_back(entries: Seq<BlockResult>)
    requires
        entries.len() < u64::MAX,
        forall|i: int| 0 <= i < entries.len() ==> (#[trigger] entries[i]).ordinal == i,
    ensures
        assigned(assignments_wire(dictionary_runs(entries)), partly_assigned(entries, 0)) == Ok::<
            Seq<BlockResult>,
            Seq<char>,
        >(entries),
{
    fields_read_back();
    let runs = dictionary_runs(entries);
    let bytes = assignments_wire(runs);
    lemma_run_lengths(entries);
    lemma_runs_wire(runs);
    let count = runs.len() as u64;
    assert((assignment_magic() + spec_u64_to_le_bytes(count)).len() == 17);
    assert(bytes.take(9) =~= assignment_magic());
    assert(bytes.subrange(9, 17) =~= spec_u64_to_le_bytes(count));
    assert forall|i: int| 0 <= i < runs.len() implies runs_at(bytes, runs.len())[i] == runs[i] by {
        let at = 17 + i * 32;
        let wire = runs[i].wire();
        lemma_run_wire(runs[i]);
        assert(runs_wire(runs).subrange(i * 32, i * 32 + 32) == wire);
        assert(bytes.subrange(at, at + 32) =~= runs_wire(runs).subrange(i * 32, i * 32 + 32));
        assert(bytes.subrange(at, at + 8) =~= wire.subrange(0, 8));
        assert(bytes.subrange(at + 8, at + 16) =~= wire.subrange(8, 16));
        assert(bytes.subrange(at + 16, at + 32) =~= wire.subrange(16, 32));
    }
    assert(runs_at(bytes, runs.len()) =~= runs);
    lemma_runs_assign(entries, entries.len() as int);
    assert(entries.take(entries.len() as int) =~= entries);
    assert(partly_assigned(entries, entries.len() as int) =~= entries);
}

} // verus!
