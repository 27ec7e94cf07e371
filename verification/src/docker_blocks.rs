//! Blocks of Docker JSON lines: where they are cut and what they hold.

use std::rc::Rc;

use vstd::prelude::*;
use vstd::utf8::encode_utf8;

use crate::docker_json::{
    canonical_line, first_place, parse_canonical_docker_json, DockerLine, DockerMessageCache,
};
use crate::docker_time::{
    parse_docker_timestamp, timestamp_of, DockerTimestampPrefixCache,
};

verus! {

/// One block of a source file.
#[derive(Debug, Clone, Copy, PartialEq, Eq, Structural)]
pub struct BlockSpan {
    /// Position among the blocks.
    pub ordinal: usize,
    /// First byte.
    pub start: u64,
    /// Bytes.
    pub length: usize,
}

/// The place after the first newline of a range.
pub open spec fn newline_forward(content: Seq<u8>, from: int, limit: int) -> Option<int> {
    match first_place(content.take(limit), 0x0a, from) {
        Some(place) => Some(place + 1),
        None => None,
    }
}

/// The place after the last newline of a range.
pub open spec fn newline_backward(content: Seq<u8>, end: int, lower: int) -> Option<int>
    decreases end - lower,
{
    if end <= lower {
        None
    } else if content[end - 1] == 0x0a {
        Some(end)
    } else {
        newline_backward(content, end - 1, lower)
    }
}

/// The place after the first newline of a range.
pub fn find_newline_forward(content: &[u8], offset: usize, limit: usize) -> (found: Option<usize>)
    requires
        limit <= content@.len(),
    ensures
        match found {
            Some(place) => newline_forward(content@, offset as int, limit as int) == Some(
                place as int,
            ) && offset < place <= limit,
            None => newline_forward(content@, offset as int, limit as int) is None,
        },
{
    assert(content.len() == content@.len());
    let ghost window = content@.take(limit as int);
    let mut next = offset;
    while next < limit
        invariant
            offset <= next,
            limit <= content@.len(),
            content.len() == content@.len(),
            window == content@.take(limit as int),
            first_place(window, 0x0a, offset as int) == first_place(window, 0x0a, next as int),
        decreases limit - next,
    {
        assert(window[next as int] == content@[next as int]);
        if content[next] == 0x0a {
            return Some(next + 1);
        }
        next = next + 1;
    }
    None
}

/// The place after the last newline of a range.
pub fn find_newline_backward(content: &[u8], end: usize, lower_bound: usize) -> (found: Option<usize>)
    requires
        end <= content@.len(),
    ensures
        match found {
            Some(place) => newline_backward(content@, end as int, lower_bound as int) == Some(
                place as int,
            ) && lower_bound < place <= end,
            None => newline_backward(content@, end as int, lower_bound as int) is None,
        },
{
    assert(content.len() == content@.len());
    let mut next = end;
    while next > lower_bound
        invariant
            next <= end <= content@.len(),
            content.len() == content@.len(),
            newline_backward(content@, end as int, lower_bound as int) == newline_backward(
                content@,
                next as int,
                lower_bound as int,
            ),
        decreases next,
    {
        if content[next - 1] == 0x0a {
            return Some(next);
        }
        next = next - 1;
    }
    None
}

/// The end of the block that is open at a nominal boundary.
pub open spec fn block_boundary(content: Seq<u8>, nominal: int, end: int) -> int {
    match newline_forward(content, nominal, end) {
        Some(place) => place,
        None => end,
    }
}

/// The blocks from `start` to `end`, cut after the first newline at or beyond
/// each nominal boundary.
pub open spec fn block_spans(
    content: Seq<u8>,
    start: int,
    nominal: int,
    end: int,
    block_bytes: int,
    ordinal: int,
) -> Seq<BlockSpan>
    decreases if end > nominal {
        end - nominal
    } else {
        0
    },
{
    if block_bytes > 0 && nominal < end {
        let boundary = block_boundary(content, nominal, end);
        if boundary > start {
            seq![
                BlockSpan {
                    ordinal: ordinal as usize,
                    start: start as u64,
                    length: (boundary - start) as usize,
                },
            ] + block_spans(
                content,
                boundary,
                nominal + block_bytes,
                end,
                block_bytes,
                ordinal + 1,
            )
        } else {
            block_spans(content, start, nominal + block_bytes, end, block_bytes, ordinal)
        }
    } else if start < end {
        seq![
            BlockSpan {
                ordinal: ordinal as usize,
                start: start as u64,
                length: (end - start) as usize,
            },
        ]
    } else {
        Seq::empty()
    }
}

/// Which part of a source file is read.
pub struct SourceRange {
    /// First byte.
    pub start: int,
    /// Byte after the last.
    pub end: int,
}

/// The part of a source file that holds complete lines, or what is said where
/// there is none.
pub open spec fn source_range(content: Seq<u8>, first_line_is_record: bool, limit_bytes: u64) -> Result<
    SourceRange,
    Seq<char>,
> {
    match newline_forward(content, 0, content.len() as int) {
        None => Err("input contains no complete line"@),
        Some(first_line_end) => {
            let start = if first_line_is_record {
                0
            } else {
                first_line_end
            };
            let nominal_end = if start + limit_bytes < content.len() {
                start + limit_bytes
            } else {
                content.len() as int
            };
            match newline_backward(content, nominal_end, start) {
                None => Err("input contains no complete Docker JSON records"@),
                Some(end) => Ok(SourceRange { start, end }),
            }
        },
    }
}

/// Bytes of the first line of a source file, its newline included.
pub fn first_line_length(content: &[u8]) -> (length: Option<usize>)
    ensures
        match length {
            Some(length) => newline_forward(content@, 0, content@.len() as int) == Some(
                length as int,
            ) && 0 < length <= content@.len(),
            None => newline_forward(content@, 0, content@.len() as int) is None,
        },
{
    assert(content.len() == content@.len());
    find_newline_forward(content, 0, content.len())
}

/// Cuts a source file into blocks of complete lines. `first_line_is_record`
/// tells whether its first line can be read; a partial one is left out.
pub fn build_block_spans(
    content: &[u8],
    first_line_is_record: bool,
    limit_bytes: u64,
    block_bytes: usize,
) -> (built: Result<(u64, Vec<BlockSpan>), String>)
    requires
        block_bytes > 0,
    ensures
        match built {
            Ok((start, spans)) => match source_range(content@, first_line_is_record, limit_bytes) {
                Ok(range) => start == range.start && spans@ == block_spans(
                    content@,
                    range.start,
                    range.start + block_bytes,
                    range.end,
                    block_bytes as int,
                    0,
                ),
                Err(_) => false,
            },
            Err(complaint) => match source_range(content@, first_line_is_record, limit_bytes) {
                Ok(_) => false,
                Err(text) => complaint@ == text,
            },
        },
{
    assert(content.len() == content@.len());
    let first_line_end = match first_line_length(content) {
        Some(end) => end,
        None => {
            return Err("input contains no complete line".to_owned());
        },
    };
    let source_start: usize = if first_line_is_record {
        0
    } else {
        first_line_end
    };
    let nominal_end: usize = if limit_bytes < (content.len() - source_start) as u64 {
        source_start + limit_bytes as usize
    } else {
        content.len()
    };
    let source_end = match find_newline_backward(content, nominal_end, source_start) {
        Some(end) => end,
        None => {
            return Err("input contains no complete Docker JSON records".to_owned());
        },
    };
    let mut spans: Vec<BlockSpan> = Vec::new();
    let mut start = source_start;
    let mut nominal: u128 = source_start as u128 + block_bytes as u128;
    let ghost all = block_spans(
        content@,
        source_start as int,
        nominal as int,
        source_end as int,
        block_bytes as int,
        0,
    );
    assert(spans@ + all =~= all);
    while nominal < source_end as u128
        invariant
            content.len() == content@.len(),
            block_bytes > 0,
            source_end <= content@.len(),
            source_start <= start <= source_end,
            start <= nominal + source_end,
            spans@.len() <= start - source_start,
            all == spans@ + block_spans(
                content@,
                start as int,
                nominal as int,
                source_end as int,
                block_bytes as int,
                spans@.len() as int,
            ),
            nominal <= usize::MAX + block_bytes,
        decreases if source_end > nominal {
            source_end - nominal
        } else {
            0
        },
    {
        let ghost before = spans@;
        let ghost earlier = start;
        let boundary = match find_newline_forward(content, nominal as usize, source_end) {
            Some(place) => place,
            None => source_end,
        };
        if boundary > start {
            spans.push(
                BlockSpan { ordinal: spans.len(), start: start as u64, length: boundary - start },
            );
            start = boundary;
        }
        proof {
            let rest = block_spans(
                content@,
                start as int,
                nominal + block_bytes,
                source_end as int,
                block_bytes as int,
                spans@.len() as int,
            );
            assert(all =~= spans@ + rest);
        }
        nominal = nominal + block_bytes as u128;
    }
    if start < source_end {
        spans.push(
            BlockSpan { ordinal: spans.len(), start: start as u64, length: source_end - start },
        );
    }
    assert(spans@ =~= all);
    Ok((source_start as u64, spans))
}

/// Whether blocks follow each other from `start` to `end` without gap or
/// overlap, numbered from `ordinal`.
pub open spec fn tiles(spans: Seq<BlockSpan>, start: int, end: int, ordinal: int) -> bool
    decreases spans.len(),
{
    if spans.len() == 0 {
        start == end
    } else {
        &&& spans[0].ordinal == ordinal
        &&& spans[0].start == start
        &&& spans[0].length > 0
        &&& tiles(spans.skip(1), start + spans[0].length, end, ordinal + 1)
    }
}

/// Blocks leave nothing out and overlap nowhere.
pub proof fn blocks_cover_the_source(
    content: Seq<u8>,
    start: int,
    nominal: int,
    end: int,
    block_bytes: int,
    ordinal: int,
)
    requires
        block_bytes > 0,
        0 <= start <= end <= content.len(),
        0 <= nominal,
        content.len() <= usize::MAX,
        0 <= ordinal <= start,
    ensures
        tiles(block_spans(content, start, nominal, end, block_bytes, ordinal), start, end, ordinal),
    decreases if end > nominal {
        end - nominal
    } else {
        0
    },
{
    let spans = block_spans(content, start, nominal, end, block_bytes, ordinal);
    if nominal < end {
        let boundary = block_boundary(content, nominal, end);
        lemma_first_place(content.take(end), 0x0a, nominal);
        if boundary > start {
            blocks_cover_the_source(
                content,
                boundary,
                nominal + block_bytes,
                end,
                block_bytes,
                ordinal + 1,
            );
            assert(spans.skip(1) =~= block_spans(
                content,
                boundary,
                nominal + block_bytes,
                end,
                block_bytes,
                ordinal + 1,
            ));
        } else {
            blocks_cover_the_source(content, start, nominal + block_bytes, end, block_bytes, ordinal);
        }
    } else if start < end {
        assert(spans.skip(1) =~= Seq::<BlockSpan>::empty());
        assert(tiles(spans.skip(1), end, end, ordinal + 1));
    }
}

/// A first place is a place.
proof fn lemma_first_place(bytes: Seq<u8>, byte: u8, from: int)
    requires
        0 <= from,
    ensures
        first_place(bytes, byte, from) matches Some(place) ==> from <= place < bytes.len()
            && bytes[place] == byte,
    decreases bytes.len() - from,
{
    if from < bytes.len() && bytes[from] != byte {
        lemma_first_place(bytes, byte, from + 1);
    }
}

/// What a general JSON reader found in a line.
#[derive(Debug, PartialEq, Eq)]
pub struct FallbackLine {
    /// Message text.
    pub log: String,
    /// Stream name.
    pub stream: String,
    /// Timestamp text.
    pub time: String,
}

/// One record of a block.
#[derive(Debug)]
pub struct DockerStructuralRecord {
    /// Byte offset of its line in the source.
    pub offset: u64,
    /// Unix nanoseconds.
    pub timestamp_unix_nanos: u64,
    /// Message text.
    pub message: Rc<String>,
    /// Stream name.
    pub stream: String,
}

impl DockerStructuralRecord {
    /// Number of text fields.
    pub fn structural_field_count(&self) -> (count: usize)
        ensures
            count == 1,
    {
        1
    }

    /// A text field.
    pub fn structural_field(&self, index: usize) -> (field: Option<(&str, &str)>)
        ensures
            match field {
                Some((key, value)) => index == 0 && key@ == "docker.stream"@ && value@
                    == self.stream@,
                None => index != 0,
            },
    {
        if index == 0 {
            Some(("docker.stream", self.stream.as_str()))
        } else {
            None
        }
    }
}

/// The end of the line that starts at a place of a block.
pub open spec fn line_end(raw: Seq<u8>, start: int) -> int {
    match first_place(raw, 0x0a, start) {
        Some(place) => place + 1,
        None => raw.len() as int,
    }
}

/// What a line says, in the usual form or through the general reader.
pub open spec fn line_reading(line: Seq<u8>, fallback: Option<FallbackLine>) -> Option<DockerLine> {
    match canonical_line(line) {
        Some(read) => Some(read),
        None => match fallback {
            None => None,
            Some(fallback) => match timestamp_of(encode_utf8(fallback.time@)) {
                Ok(timestamp) => Some(
                    DockerLine {
                        message: fallback.log@,
                        stream: fallback.stream@,
                        timestamp,
                    },
                ),
                Err(_) => None,
            },
        },
    }
}

/// The fallback of a line, where there is one.
pub open spec fn fallback_at(fallbacks: Seq<Option<FallbackLine>>, line: int) -> Option<FallbackLine> {
    if 0 <= line < fallbacks.len() {
        fallbacks[line]
    } else {
        None
    }
}

/// What has been read of a block.
#[verifier::ext_equal]
pub struct BlockReading {
    /// Place of each record and what it says.
    pub records: Seq<(int, DockerLine)>,
    /// Bytes of the lines that were read.
    pub accepted_bytes: int,
    /// Lines that could not be read.
    pub rejected_records: int,
    /// Their bytes.
    pub rejected_bytes: int,
}

/// What is read of a block from a place on.
pub open spec fn block_reading(
    raw: Seq<u8>,
    fallbacks: Seq<Option<FallbackLine>>,
    start: int,
    line: int,
    before: BlockReading,
) -> BlockReading
    decreases raw.len() - start,
{
    if start < 0 || start >= raw.len() {
        before
    } else {
        let end = line_end(raw, start);
        if end <= start || end > raw.len() {
            before
        } else {
            let next = match line_reading(raw.subrange(start, end), fallback_at(fallbacks, line)) {
                Some(read) => BlockReading {
                    records: before.records.push((start, read)),
                    accepted_bytes: before.accepted_bytes + (end - start),
                    ..before
                },
                None => BlockReading {
                    rejected_records: before.rejected_records + 1,
                    rejected_bytes: before.rejected_bytes + (end - start),
                    ..before
                },
            };
            block_reading(raw, fallbacks, end, line + 1, next)
        }
    }
}

/// Nothing read.
pub open spec fn nothing_read() -> BlockReading {
    BlockReading {
        records: Seq::empty(),
        accepted_bytes: 0,
        rejected_records: 0,
        rejected_bytes: 0,
    }
}

/// The records of a block and what was left out of it.
#[derive(Debug)]
pub struct BlockRecords {
    /// Records in source order.
    pub records: Vec<DockerStructuralRecord>,
    /// Bytes of their lines.
    pub accepted_source_bytes: u64,
    /// Lines that could not be read.
    pub rejected_records: u64,
    /// Their bytes.
    pub rejected_bytes: u64,
}

/// Sum that stops at the largest 64-bit number.
pub open spec fn saturated(value: int) -> u64 {
    if value > u64::MAX {
        u64::MAX
    } else {
        value as u64
    }
}

/// Whether records are those of a reading.
pub open spec fn records_read(
    records: Seq<DockerStructuralRecord>,
    reading: Seq<(int, DockerLine)>,
    source_offset: u64,
) -> bool {
    &&& records.len() == reading.len()
    &&& forall|i: int|
        0 <= i < records.len() ==> {
            &&& (#[trigger] records[i]).offset == saturated(source_offset + reading[i].0)
            &&& records[i].timestamp_unix_nanos == reading[i].1.timestamp
            &&& records[i].message@ == reading[i].1.message
            &&& records[i].stream@ == reading[i].1.stream
        }
}

/// Reads one line.
fn read_line<'a>(
    line: &'a [u8],
    fallback: Option<&FallbackLine>,
    message_cache: &mut DockerMessageCache<'a>,
    timestamp_cache: &mut DockerTimestampPrefixCache,
) -> (read: Option<(Rc<String>, String, u64)>)
    requires
        old(message_cache).faithful(),
        old(timestamp_cache).faithful(),
    ensures
        final(message_cache).faithful(),
        final(timestamp_cache).faithful(),
        ({
            let given = match fallback {
                Some(fallback) => Some(*fallback),
                None => None,
            };
            match read {
                Some((message, stream, timestamp)) => line_reading(line@, given) matches Some(said)
                    && said.message == message@ && said.stream == stream@ && said.timestamp
                    == timestamp,
                None => line_reading(line@, given) is None,
            }
        }),
{
    match parse_canonical_docker_json(line, message_cache, timestamp_cache) {
        Some((message, stream, timestamp)) => Some((message, stream.to_owned(), timestamp)),
        None => match fallback {
            None => None,
            Some(fallback) => match parse_docker_timestamp(fallback.time.as_str()) {
                Ok(timestamp) => Some(
                    (Rc::new(fallback.log.clone()), fallback.stream.clone(), timestamp),
                ),
                Err(_) => None,
            },
        },
    }
}

/// Reads the lines of a block. `fallbacks` holds, for each line that is not in
/// the usual form, what a general JSON reader found in it.
pub fn read_block(raw: &[u8], source_offset: u64, fallbacks: &Vec<Option<FallbackLine>>) -> (block:
    BlockRecords)
    ensures
        ({
            let reading = block_reading(raw@, fallbacks@, 0, 0, nothing_read());
            &&& records_read(block.records@, reading.records, source_offset)
            &&& block.accepted_source_bytes == reading.accepted_bytes
            &&& block.rejected_records == reading.rejected_records
            &&& block.rejected_bytes == reading.rejected_bytes
        }),
{
    assert(raw.len() == raw@.len());
    let mut message_cache = DockerMessageCache::new();
    let mut timestamp_cache = DockerTimestampPrefixCache::new();
    let mut records: Vec<DockerStructuralRecord> = Vec::new();
    let mut accepted: u64 = 0;
    let mut rejected_records: u64 = 0;
    let mut rejected_bytes: u64 = 0;
    let mut start: usize = 0;
    let mut line: usize = 0;
    let ghost whole = block_reading(raw@, fallbacks@, 0, 0, nothing_read());
    let ghost mut so_far = nothing_read();
    while start < raw.len()
        invariant
            raw.len() == raw@.len(),
            start <= raw@.len(),
            line <= start,
            message_cache.faithful(),
            timestamp_cache.faithful(),
            whole == block_reading(raw@, fallbacks@, start as int, line as int, so_far),
            records_read(records@, so_far.records, source_offset),
            accepted == so_far.accepted_bytes,
            rejected_records == so_far.rejected_records,
            rejected_bytes == so_far.rejected_bytes,
            accepted + rejected_bytes == start,
            rejected_records <= rejected_bytes,
        decreases raw@.len() - start,
    {
        proof {
            lemma_first_place(raw@, 0x0a, start as int);
            assert(raw@.take(raw@.len() as int) =~= raw@);
        }
        let end = match find_newline_forward(raw, start, raw.len()) {
            Some(end) => end,
            None => raw.len(),
        };
        let text = vstd::slice::slice_subrange(raw, start, end);
        let fallback = if line < fallbacks.len() {
            fallbacks[line].as_ref()
        } else {
            None
        };
        let bytes = (end - start) as u64;
        let ghost before = so_far;
        match read_line(text, fallback, &mut message_cache, &mut timestamp_cache) {
            Some((message, stream, timestamp_unix_nanos)) => {
                let offset = if source_offset > u64::MAX - start as u64 {
                    u64::MAX
                } else {
                    source_offset + start as u64
                };
                let ghost earlier = records@;
                records.push(
                    DockerStructuralRecord { offset, timestamp_unix_nanos, message, stream },
                );
                accepted = accepted + bytes;
                proof {
                    let read = line_reading(
                        raw@.subrange(start as int, end as int),
                        fallback_at(fallbacks@, line as int),
                    )->0;
                    so_far =
                    BlockReading {
                        records: before.records.push((start as int, read)),
                        accepted_bytes: before.accepted_bytes + (end - start),
                        ..before
                    };
                    assert forall|i: int| 0 <= i < records@.len() implies {
                        &&& (#[trigger] records@[i]).offset == saturated(
                            source_offset + so_far.records[i].0,
                        )
                        &&& records@[i].timestamp_unix_nanos == so_far.records[i].1.timestamp
                        &&& records@[i].message@ == so_far.records[i].1.message
                        &&& records@[i].stream@ == so_far.records[i].1.stream
                    } by {
                        if i < earlier.len() {
                            assert(records@[i] == earlier[i]);
                        }
                    }
                }
            },
            None => {
                rejected_records = rejected_records + 1;
                rejected_bytes = rejected_bytes + bytes;
                proof {
                    so_far =
                    BlockReading {
                        rejected_records: before.rejected_records + 1,
                        rejected_bytes: before.rejected_bytes + (end - start),
                        ..before
                    };
                }
            },
        }
        start = end;
        line = line + 1;
    }
    BlockRecords { records, accepted_source_bytes: accepted, rejected_records, rejected_bytes }
}

/// Every byte of a block belongs to a line that was read or to one that was
/// not.
pub proof fn every_byte_is_accounted_for(
    raw: Seq<u8>,
    fallbacks: Seq<Option<FallbackLine>>,
    start: int,
    line: int,
    before: BlockReading,
)
    requires
        0 <= start <= raw.len(),
    ensures
        ({
            let after = block_reading(raw, fallbacks, start, line, before);
            after.accepted_bytes + after.rejected_bytes == before.accepted_bytes
                + before.rejected_bytes + (raw.len() - start)
        }),
    decreases raw.len() - start,
{
    if start < raw.len() {
        lemma_first_place(raw, 0x0a, start);
        let end = line_end(raw, start);
        let next = match line_reading(raw.subrange(start, end), fallback_at(fallbacks, line)) {
            Some(read) => BlockReading {
                records: before.records.push((start, read)),
                accepted_bytes: before.accepted_bytes + (end - start),
                ..before
            },
            None => BlockReading {
                rejected_records: before.rejected_records + 1,
                rejected_bytes: before.rejected_bytes + (end - start),
                ..before
            },
        };
        every_byte_is_accounted_for(raw, fallbacks, end, line + 1, next);
    }
}

} // verus!
