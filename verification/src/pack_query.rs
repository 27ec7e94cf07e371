//! Queries over packed blocks: arguments, hits, pages and results.

use vstd::bytes::spec_u64_from_le_bytes;
use vstd::prelude::*;
use vstd::utf8::encode_utf8;

use crate::checksum::{fnv1a64, fnv1a64_of};
use crate::block_results::{MANIFEST_ENTRY_BYTES, MANIFEST_HEADER_BYTES};
use crate::docker_json::{begins, starts_with};
use crate::locality::DecodedStructuralRecord;
use crate::records::MetadataField;
use crate::template_encoder::{sort_distinct, sorted_distinct};
use crate::text::{decimal, push_decimal, same_str};
use crate::wire::read_u64;
use crate::zstd_frames::{zstd_content, zstd_decompress};

verus! {

/// One planned record.
#[derive(Debug, Clone, Copy, PartialEq, Eq, Structural)]
pub struct QueryHit {
    /// Block that holds the record.
    pub block_ordinal: u32,
    /// Place within the block.
    pub record_ordinal: u32,
}

/// Records of one block, in rising order.
#[derive(Debug, PartialEq, Eq)]
pub struct HitGroup {
    /// Block.
    pub block_ordinal: u32,
    /// Places within the block.
    pub record_ordinals: Vec<u32>,
}

/// The blocks of hits, as they come.
pub open spec fn hit_blocks(hits: Seq<QueryHit>) -> Seq<u32> {
    Seq::new(hits.len(), |i: int| hits[i].block_ordinal)
}

/// The records of the hits in a block, as they come.
pub open spec fn hits_in(hits: Seq<QueryHit>, block_ordinal: u32) -> Seq<u32>
    decreases hits.len(),
{
    if hits.len() == 0 {
        Seq::empty()
    } else if hits.last().block_ordinal == block_ordinal {
        hits_in(hits.drop_last(), block_ordinal).push(hits.last().record_ordinal)
    } else {
        hits_in(hits.drop_last(), block_ordinal)
    }
}

fn collect_hits_in(hits: &Vec<QueryHit>, block_ordinal: u32) -> (ordinals: Vec<u32>)
    ensures
        ordinals@ == hits_in(hits@, block_ordinal),
{
    let mut ordinals: Vec<u32> = Vec::new();
    let mut index: usize = 0;
    assert(hits@.take(0) =~= Seq::<QueryHit>::empty());
    while index < hits.len()
        invariant
            index <= hits@.len(),
            ordinals@ == hits_in(hits@.take(index as int), block_ordinal),
        decreases hits@.len() - index,
    {
        assert(hits@.take(index + 1).drop_last() =~= hits@.take(index as int));
        if hits[index].block_ordinal == block_ordinal {
            ordinals.push(hits[index].record_ordinal);
        }
        index = index + 1;
    }
    assert(hits@.take(index as int) =~= hits@);
    ordinals
}

/// Groups hits by block: blocks in rising order, each with its records in rising
/// order and once.
pub fn group_hits(hits: &Vec<QueryHit>) -> (groups: Vec<HitGroup>)
    ensures
        groups@.len() == sorted_distinct(hit_blocks(hits@)).len(),
        forall|i: int|
            0 <= i < groups@.len() ==> (#[trigger] groups@[i]).block_ordinal == sorted_distinct(
                hit_blocks(hits@),
            )[i] && groups@[i].record_ordinals@ == sorted_distinct(
                hits_in(hits@, groups@[i].block_ordinal),
            ),
{
    let mut blocks: Vec<u32> = Vec::new();
    let mut index: usize = 0;
    while index < hits.len()
        invariant
            index <= hits@.len(),
            blocks@ == hit_blocks(hits@).take(index as int),
        decreases hits@.len() - index,
    {
        blocks.push(hits[index].block_ordinal);
        assert(blocks@ =~= hit_blocks(hits@).take(index + 1));
        index = index + 1;
    }
    assert(hit_blocks(hits@).take(index as int) =~= hit_blocks(hits@));
    let ordered = sort_distinct(&blocks);
    let mut groups: Vec<HitGroup> = Vec::new();
    let mut place: usize = 0;
    while place < ordered.len()
        invariant
            place <= ordered@.len(),
            ordered@ == sorted_distinct(hit_blocks(hits@)),
            groups@.len() == place,
            forall|i: int|
                0 <= i < place ==> (#[trigger] groups@[i]).block_ordinal == ordered@[i]
                    && groups@[i].record_ordinals@ == sorted_distinct(
                    hits_in(hits@, groups@[i].block_ordinal),
                ),
        decreases ordered@.len() - place,
    {
        let block_ordinal = ordered[place];
        let record_ordinals = sort_distinct(&collect_hits_in(hits, block_ordinal));
        groups.push(HitGroup { block_ordinal, record_ordinals });
        place = place + 1;
    }
    groups
}

/// Where each hit stands among decoded records. A hit that was not decoded, or
/// was taken by an earlier hit, has no place.
pub fn order_materialized(hits: &Vec<QueryHit>, decoded: &Vec<QueryHit>) -> (places: Result<
    Vec<usize>,
    String,
>)
    requires
        decoded@.no_duplicates(),
    ensures
        match places {
            Ok(places) => places@.len() == hits@.len() && hits@.no_duplicates() && forall|i: int|
                0 <= i < hits@.len() ==> (#[trigger] places@[i]) < decoded@.len()
                    && decoded@[places@[i] as int] == hits@[i],
            Err(text) => text@ == "selective decode missed a planned record"@ && (
            !hits@.no_duplicates() || exists|i: int|
                0 <= i < hits@.len() && !decoded@.contains(#[trigger] hits@[i])),
        },
{
    let mut places: Vec<usize> = Vec::new();
    let mut index: usize = 0;
    while index < hits.len()
        invariant
            index <= hits@.len(),
            decoded@.no_duplicates(),
            places@.len() == index,
            forall|i: int|
                0 <= i < index ==> (#[trigger] places@[i]) < decoded@.len()
                    && decoded@[places@[i] as int] == hits@[i],
            forall|i: int, j: int| 0 <= i < j < index ==> hits@[i] != hits@[j],
        decreases hits@.len() - index,
    {
        let hit = hits[index];
        if is_taken(hits, index) {
            return Err("selective decode missed a planned record".to_owned());
        }
        match find_hit(decoded, hit) {
            None => {
                assert(!decoded@.contains(hits@[index as int]));
                return Err("selective decode missed a planned record".to_owned());
            },
            Some(place) => {
                places.push(place);
            },
        }
        index = index + 1;
    }
    Ok(places)
}

fn is_taken(hits: &Vec<QueryHit>, index: usize) -> (taken: bool)
    requires
        index < hits@.len(),
    ensures
        taken == exists|i: int| 0 <= i < index && hits@[i] == hits@[index as int],
{
    let mut earlier: usize = 0;
    while earlier < index
        invariant
            earlier <= index < hits@.len(),
            forall|i: int| 0 <= i < earlier ==> hits@[i] != hits@[index as int],
        decreases index - earlier,
    {
        if hits[earlier] == hits[index] {
            return true;
        }
        earlier = earlier + 1;
    }
    false
}

fn find_hit(decoded: &Vec<QueryHit>, hit: QueryHit) -> (place: Option<usize>)
    ensures
        match place {
            Some(place) => place < decoded@.len() && decoded@[place as int] == hit,
            None => !decoded@.contains(hit),
        },
{
    let mut index: usize = 0;
    while index < decoded.len()
        invariant
            index <= decoded@.len(),
            forall|i: int| 0 <= i < index ==> decoded@[i] != hit,
        decreases decoded@.len() - index,
    {
        if decoded[index] == hit {
            return Some(index);
        }
        index = index + 1;
    }
    None
}

/// How far a page goes.
#[derive(Debug, Clone, Copy, PartialEq, Eq, Structural)]
pub struct PageLimit {
    /// Whether records come in the order of their offsets.
    pub by_offset: bool,
    /// Records of the page.
    pub limit: Option<usize>,
}

/// Whether a page needs no more blocks.
pub open spec fn page_complete(page: PageLimit, records: nat) -> bool {
    page.by_offset && match page.limit {
        Some(limit) => records >= limit,
        None => false,
    }
}

/// Whether a page needs no more blocks.
pub fn page_is_complete(page: PageLimit, records: usize) -> (complete: bool)
    ensures
        complete == page_complete(page, records as nat),
{
    page.by_offset && match page.limit {
        Some(limit) => records >= limit,
        None => false,
    }
}

/// What a query over blocks does next.
#[derive(Debug, Clone, Copy, PartialEq, Eq, Structural)]
pub enum QueryStep {
    /// Reads one block.
    ReadBlock,
    /// Hands the remaining blocks to workers.
    ReadRest,
    /// Selects the page.
    Finish,
}

/// What a query has read.
#[derive(Debug, Clone, Copy, PartialEq, Eq, Structural)]
pub struct QueryProgress {
    /// Blocks read.
    pub candidate_blocks: usize,
    /// Hits of those blocks.
    pub candidate_hits: usize,
    /// Records kept.
    pub records: usize,
}

impl QueryProgress {
    /// Nothing read yet.
    pub fn new() -> (progress: Self)
        ensures
            progress == (Self { candidate_blocks: 0, candidate_hits: 0, records: 0 }),
    {
        Self { candidate_blocks: 0, candidate_hits: 0, records: 0 }
    }

    /// The next step: the first block alone, then the rest by one worker or by
    /// many, until the page is complete.
    pub open spec fn step(self, page: PageLimit, workers: nat, block_count: nat) -> QueryStep {
        if self.candidate_blocks >= block_count || (self.candidate_blocks > 0 && page_complete(
            page,
            self.records as nat,
        )) {
            QueryStep::Finish
        } else if self.candidate_blocks == 0 || workers == 1 {
            QueryStep::ReadBlock
        } else {
            QueryStep::ReadRest
        }
    }

    /// Decides the next step.
    pub fn next_step(&self, page: PageLimit, workers: usize, block_count: usize) -> (step: QueryStep)
        ensures
            step == self.step(page, workers as nat, block_count as nat),
    {
        if self.candidate_blocks >= block_count || (self.candidate_blocks > 0 && page_is_complete(
            page,
            self.records,
        )) {
            QueryStep::Finish
        } else if self.candidate_blocks == 0 || workers == 1 {
            QueryStep::ReadBlock
        } else {
            QueryStep::ReadRest
        }
    }

    /// Counts a block. The result says whether its records are kept: those past
    /// a complete page are not.
    pub fn absorb(&mut self, page: PageLimit, hits: usize, records: usize) -> (kept: bool)
        requires
            old(self).records + records <= usize::MAX,
        ensures
            kept == !(old(self).candidate_blocks > 0 && page_complete(
                page,
                old(self).records as nat,
            )),
            final(self).candidate_blocks == saturated_add(old(self).candidate_blocks, 1),
            final(self).candidate_hits == saturated_add(old(self).candidate_hits, hits),
            final(self).records == if kept {
                old(self).records + records
            } else {
                old(self).records as int
            },
    {
        let kept = !(self.candidate_blocks > 0 && page_is_complete(page, self.records));
        self.candidate_blocks = self.candidate_blocks.saturating_add(1);
        self.candidate_hits = self.candidate_hits.saturating_add(hits);
        if kept {
            self.records = self.records + records;
        }
        kept
    }
}

/// The sum of two counts, at most the largest count.
pub open spec fn saturated_add(left: usize, right: usize) -> int {
    if left + right > usize::MAX {
        usize::MAX as int
    } else {
        left + right
    }
}

/// Checks a page: every record matches, neighbours stand in order, and no more
/// came back than asked for.
pub fn verify_matches(matched: &Vec<bool>, in_order: &Vec<bool>, limit: Option<usize>) -> (verdict:
    Result<(), String>)
    ensures
        match verdict {
            Ok(_) => !matched@.contains(false) && !in_order@.contains(false) && match limit {
                Some(limit) => matched@.len() <= limit,
                None => true,
            },
            Err(text) => text@ == if matched@.contains(false) {
                "sealed query returned a non-matching record"@
            } else if in_order@.contains(false) {
                "sealed query returned records out of order"@
            } else {
                "sealed query exceeded its result limit"@
            } && (matched@.contains(false) || in_order@.contains(false) || (limit is Some
                && matched@.len() > limit->0)),
        },
{
    if holds_false(matched) {
        return Err("sealed query returned a non-matching record".to_owned());
    }
    if holds_false(in_order) {
        return Err("sealed query returned records out of order".to_owned());
    }
    if let Some(limit) = limit {
        if matched.len() > limit {
            return Err("sealed query exceeded its result limit".to_owned());
        }
    }
    Ok(())
}

fn holds_false(flags: &Vec<bool>) -> (holds: bool)
    ensures
        holds == flags@.contains(false),
{
    let mut index: usize = 0;
    while index < flags.len()
        invariant
            index <= flags@.len(),
            forall|i: int| 0 <= i < index ==> flags@[i],
        decreases flags@.len() - index,
    {
        if !flags[index] {
            assert(!flags@[index as int]);
            return true;
        }
        index = index + 1;
    }
    false
}

/// Upper-case hexadecimal digit.
pub open spec fn upper_digit(value: u8) -> char {
    if value < 10 {
        ('0' as u32 + value) as char
    } else {
        ('A' as u32 + value - 10) as char
    }
}

/// Bytes as upper-case hexadecimal digits.
pub open spec fn upper_hex(bytes: Seq<u8>) -> Seq<char>
    decreases bytes.len(),
{
    if bytes.len() == 0 {
        Seq::empty()
    } else {
        upper_hex(bytes.drop_last()).push(upper_digit(bytes.last() / 16)).push(
            upper_digit(bytes.last() % 16),
        )
    }
}

fn upper_character(value: u8) -> (digit: char)
    requires
        value < 16,
    ensures
        digit == upper_digit(value),
{
    if value < 10 {
        (0x30 + value) as char
    } else {
        (0x41 + (value - 10)) as char
    }
}

/// Appends bytes as upper-case hexadecimal digits.
pub fn write_hex(text: &mut String, bytes: &[u8])
    ensures
        final(text)@ == old(text)@ + upper_hex(bytes@),
{
    let mut index: usize = 0;
    assert(bytes@.take(0) =~= Seq::<u8>::empty());
    assert(text@ =~= old(text)@ + upper_hex(bytes@.take(0)));
    while index < bytes.len()
        invariant
            index <= bytes@.len(),
            text@ == old(text)@ + upper_hex(bytes@.take(index as int)),
        decreases bytes@.len() - index,
    {
        let byte = bytes[index];
        text.push(upper_character(byte / 16));
        text.push(upper_character(byte % 16));
        proof {
            let longer = bytes@.take(index + 1);
            assert(longer.drop_last() =~= bytes@.take(index as int));
            assert(text@ =~= old(text)@ + upper_hex(longer));
        }
        index = index + 1;
    }
    assert(bytes@.take(index as int) =~= bytes@);
}

/// The stream that a record names, or nothing.
pub open spec fn stream_of(fields: Seq<MetadataField>) -> Seq<char>
    decreases fields.len(),
{
    if fields.len() == 0 {
        ""@
    } else if fields[0].key@ == "docker.stream"@ {
        fields[0].value@
    } else {
        stream_of(fields.drop_first())
    }
}

/// The line of one result: time, stream and message.
pub open spec fn result_text(record: DecodedStructuralRecord) -> Seq<char> {
    decimal(record.timestamp_unix_nanos as nat) + "\t"@ + upper_hex(
        encode_utf8(stream_of(record.fields@)),
    ) + "\t"@ + upper_hex(encode_utf8(record.message@)) + "\n"@
}

fn find_stream<'a>(fields: &'a Vec<MetadataField>) -> (stream: &'a str)
    ensures
        stream@ == stream_of(fields@),
{
    let mut index: usize = 0;
    assert(fields@.skip(0) =~= fields@);
    while index < fields.len()
        invariant
            index <= fields@.len(),
            stream_of(fields@) == stream_of(fields@.skip(index as int)),
        decreases fields@.len() - index,
    {
        assert(fields@.skip(index as int)[0] == fields@[index as int]);
        assert(fields@.skip(index as int).drop_first() =~= fields@.skip(index + 1));
        if same_str(fields[index].key.as_str(), "docker.stream") {
            return fields[index].value.as_str();
        }
        index = index + 1;
    }
    ""
}

/// Writes the line of one result.
pub fn render_result(record: &DecodedStructuralRecord) -> (line: String)
    ensures
        line@ == result_text(*record),
{
    let mut line = String::new();
    push_decimal(&mut line, record.timestamp_unix_nanos as u128);
    line.append("\t");
    write_hex(&mut line, find_stream(&record.fields).as_bytes());
    line.append("\t");
    write_hex(&mut line, record.message.as_str().as_bytes());
    line.append("\n");
    assert(line@ =~= result_text(*record));
    line
}

/// Where a packed block stands.
#[derive(Debug, Clone, Copy, PartialEq, Eq, Structural)]
pub struct ManifestEntry {
    /// Place of the block in the source.
    pub ordinal: u32,
    /// Bytes of the block once decompressed.
    pub structural_bytes: usize,
    /// Worker whose pack holds the block.
    pub pack_worker: usize,
    /// Place within the pack.
    pub pack_offset: u64,
    /// Bytes within the pack.
    pub stored_bytes: usize,
    /// Checksum of those bytes.
    pub payload_checksum: u64,
}

/// One number of an entry.
pub open spec fn entry_field(entry: Seq<u8>, place: int) -> u64 {
    spec_u64_from_le_bytes(entry.subrange(8 * place, 8 * place + 8))
}

/// What an entry says, where its numbers fit.
pub open spec fn entry_of(entry: Seq<u8>) -> Option<ManifestEntry> {
    if entry_field(entry, 0) > u32::MAX || entry_field(entry, 5) > usize::MAX || entry_field(entry, 6)
        > usize::MAX || entry_field(entry, 8) > usize::MAX {
        None
    } else {
        Some(
            ManifestEntry {
                ordinal: entry_field(entry, 0) as u32,
                structural_bytes: entry_field(entry, 5) as usize,
                pack_worker: entry_field(entry, 6) as usize,
                pack_offset: entry_field(entry, 7),
                stored_bytes: entry_field(entry, 8) as usize,
                payload_checksum: entry_field(entry, 9),
            },
        )
    }
}

/// Reads one entry.
pub fn read_entry(entry: &[u8]) -> (result: Result<ManifestEntry, String>)
    requires
        entry@.len() == MANIFEST_ENTRY_BYTES,
    ensures
        match result {
            Ok(result) => entry_of(entry@) == Some(result),
            Err(text) => entry_of(entry@) is None && text@
                == "out of range integral type conversion attempted"@,
        },
{
    let ordinal = read_u64(entry, 0);
    let structural_bytes = read_u64(entry, 40);
    let pack_worker = read_u64(entry, 48);
    let stored_bytes = read_u64(entry, 64);
    let limit = usize::MAX as u64;
    if ordinal > u32::MAX as u64 || structural_bytes > limit || pack_worker > limit || stored_bytes
        > limit {
        return Err("out of range integral type conversion attempted".to_owned());
    }
    Ok(
        ManifestEntry {
            ordinal: ordinal as u32,
            structural_bytes: structural_bytes as usize,
            pack_worker: pack_worker as usize,
            pack_offset: read_u64(entry, 56),
            stored_bytes: stored_bytes as usize,
            payload_checksum: read_u64(entry, 72),
        },
    )
}

/// The bytes of an entry of a manifest.
pub open spec fn entry_bytes(manifest: Seq<u8>, place: int) -> Seq<u8> {
    manifest.subrange(
        MANIFEST_HEADER_BYTES + place * MANIFEST_ENTRY_BYTES,
        MANIFEST_HEADER_BYTES + (place + 1) * MANIFEST_ENTRY_BYTES,
    )
}

/// Number of entries that a manifest announces.
pub open spec fn announced(manifest: Seq<u8>) -> u64 {
    spec_u64_from_le_bytes(manifest.subrange(9, 17))
}

/// Whether a manifest holds the entries that it announces.
pub open spec fn manifest_complete(manifest: Seq<u8>) -> bool {
    MANIFEST_HEADER_BYTES + announced(manifest) * MANIFEST_ENTRY_BYTES <= manifest.len()
}

/// Whether a manifest is long enough for an entry.
pub open spec fn entry_complete(manifest: Seq<u8>, place: int) -> bool {
    MANIFEST_HEADER_BYTES + (place + 1) * MANIFEST_ENTRY_BYTES <= manifest.len()
}

/// Whether an entry is there and its numbers fit.
pub open spec fn entry_readable(manifest: Seq<u8>, place: int) -> bool {
    entry_complete(manifest, place) && entry_of(entry_bytes(manifest, place)) is Some
}

/// Reads the entries of a manifest. The first entry that is missing or does not
/// fit decides what is said.
pub fn read_pack_manifest(manifest: &[u8]) -> (entries: Result<Vec<ManifestEntry>, String>)
    ensures
        match entries {
            Ok(entries) => {
                &&& begins(manifest@, pack_magic())
                &&& manifest@.len() >= MANIFEST_HEADER_BYTES
                &&& manifest_complete(manifest@)
                &&& entries@.len() == announced(manifest@)
                &&& forall|i: int|
                    0 <= i < entries@.len() ==> entry_of(#[trigger] entry_bytes(manifest@, i))
                        == Some(entries@[i])
            },
            Err(text) => if manifest@.len() < MANIFEST_HEADER_BYTES {
                text@ == "failed to fill whole buffer"@
            } else if !begins(manifest@, pack_magic()) {
                text@ == "manifest has invalid magic"@
            } else {
                exists|place: int|
                    0 <= place < announced(manifest@) && !(#[trigger] entry_readable(
                        manifest@,
                        place,
                    )) && (forall|i: int|
                        0 <= i < place ==> #[trigger] entry_readable(manifest@, i)) && text@
                        == if entry_complete(manifest@, place) {
                        "out of range integral type conversion attempted"@
                    } else {
                        "failed to fill whole buffer"@
                    }
            },
        },
{
    assert(manifest.len() == manifest@.len());
    if manifest.len() < MANIFEST_HEADER_BYTES {
        return Err("failed to fill whole buffer".to_owned());
    }
    let magic: [u8; 9] = [0x53, 0x4c, 0x4f, 0x47, 0x50, 0x41, 0x43, 0x4b, 0x32];
    assert(magic@ =~= pack_magic());
    if !starts_with(manifest, magic.as_slice()) {
        return Err("manifest has invalid magic".to_owned());
    }
    let count = read_u64(manifest, 9);
    let mut entries: Vec<ManifestEntry> = Vec::new();
    let mut place: u64 = 0;
    let mut offset: usize = MANIFEST_HEADER_BYTES;
    while place < count
        invariant
            manifest.len() == manifest@.len(),
            place <= count,
            count == announced(manifest@),
            manifest@.len() >= MANIFEST_HEADER_BYTES,
            begins(manifest@, pack_magic()),
            offset == MANIFEST_HEADER_BYTES + place * MANIFEST_ENTRY_BYTES,
            offset <= manifest@.len(),
            entries@.len() == place,
            forall|i: int|
                0 <= i < place ==> entry_of(#[trigger] entry_bytes(manifest@, i)) == Some(
                    entries@[i],
                ),
            forall|i: int| 0 <= i < place ==> #[trigger] entry_readable(manifest@, i),
        decreases count - place,
    {
        if manifest.len() - offset < MANIFEST_ENTRY_BYTES {
            assert(!entry_complete(manifest@, place as int));
            assert(!entry_readable(manifest@, place as int));
            return Err("failed to fill whole buffer".to_owned());
        }
        let entry = vstd::slice::slice_subrange(manifest, offset, offset + MANIFEST_ENTRY_BYTES);
        assert(entry@ =~= entry_bytes(manifest@, place as int));
        assert(entry_complete(manifest@, place as int));
        let read = match read_entry(entry) {
            Ok(read) => read,
            Err(text) => {
                assert(!entry_readable(manifest@, place as int));
                return Err(text);
            },
        };
        entries.push(read);
        assert(entry_readable(manifest@, place as int));
        offset = offset + MANIFEST_ENTRY_BYTES;
        place = place + 1;
    }
    Ok(entries)
}

/// The first bytes of a manifest of packs.
pub open spec fn pack_magic() -> Seq<u8> {
    seq![0x53u8, 0x4cu8, 0x4fu8, 0x47u8, 0x50u8, 0x41u8, 0x43u8, 0x4bu8, 0x32u8]
}

/// Finds the entry of a block.
pub fn find_entry(entries: &Vec<ManifestEntry>, block_ordinal: u32) -> (entry: Result<
    ManifestEntry,
    String,
>)
    ensures
        match entry {
            Ok(entry) => block_ordinal < entries@.len() && entry == entries@[block_ordinal as int]
                && entry.ordinal == block_ordinal,
            Err(text) => if block_ordinal >= entries@.len() {
                text@ == "query hit references an unknown manifest block"@
            } else {
                entries@[block_ordinal as int].ordinal != block_ordinal && text@
                    == "manifest block ordinal mismatch"@
            },
        },
{
    let place = block_ordinal as usize;
    if place >= entries.len() {
        return Err("query hit references an unknown manifest block".to_owned());
    }
    let entry = entries[place];
    if entry.ordinal != block_ordinal {
        return Err("manifest block ordinal mismatch".to_owned());
    }
    Ok(entry)
}

/// Opens the bytes of a packed block.
pub fn open_payload(entry: &ManifestEntry, payload: &Vec<u8>) -> (structural: Result<Vec<u8>, String>)
    requires
        entry.structural_bytes <= isize::MAX,
    ensures
        fnv1a64_of(payload@) != entry.payload_checksum ==> (structural matches Err(text) && text@
            == "query payload checksum mismatch"@),
        match structural {
            Ok(structural) => fnv1a64_of(payload@) == entry.payload_checksum && zstd_content(
                payload@,
            ) == Some(structural@),
            Err(_) => fnv1a64_of(payload@) != entry.payload_checksum || match zstd_content(
                payload@,
            ) {
                Some(content) => content.len() > entry.structural_bytes,
                None => true,
            },
        },
{
    if fnv1a64(payload.as_slice()) != entry.payload_checksum {
        return Err("query payload checksum mismatch".to_owned());
    }
    zstd_decompress(payload.as_slice(), entry.structural_bytes)
}

} // verus!
