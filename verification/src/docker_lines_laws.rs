//! Docker JSON lines written and read back, and where blocks are cut.

use vstd::prelude::*;
use vstd::utf8::{encode_utf8, is_ascii_chars, is_ascii_chars_encode_utf8};

use crate::docker_blocks::{
    block_boundary, block_reading, block_spans, fallback_at, line_end, line_reading,
    newline_backward, newline_forward, nothing_read, source_range, BlockReading, BlockSpan,
    FallbackLine,
};
use crate::docker_json::{
    begins, canonical_line, finishes, first_place, line_body, line_prefix, stderr_suffix,
    stdout_suffix, timestamp_start, DockerLine,
};
use crate::docker_json_laws::{escaped_text, escaped_texts_are_read_back};
use crate::docker_time::{ten_to, timestamp_of, CivilTime};
use crate::docker_time_laws::{timestamps_read_back, written, written_fields_stand_apart, written_time};

verus! {

/// The ASCII bytes of a text.
pub open spec fn ascii(text: Seq<char>) -> Seq<u8> {
    Seq::new(text.len(), |i: int| text[i] as u8)
}

proof fn lemma_ascii(text: Seq<char>)
    requires
        is_ascii_chars(text),
    ensures
        encode_utf8(text) == ascii(text),
{
    is_ascii_chars_encode_utf8(text);
    assert(encode_utf8(text) =~= ascii(text));
}

/// A line of the log driver: the escaped message, the stream and the time.
pub open spec fn written_line(text: Seq<char>, error: bool, time: Seq<u8>, end: Seq<u8>) -> Seq<u8> {
    ascii("{\"log\":\""@) + escaped_text(text, false) + ascii(
        if error {
            "\",\"stream\":\"stderr\",\"time\":\""@
        } else {
            "\",\"stream\":\"stdout\",\"time\":\""@
        },
    ) + time + ascii("\"}"@) + end
}

proof fn lemma_literals()
    ensures
        line_prefix() == ascii("{\"log\":\""@),
        line_prefix().len() == 8,
        stderr_suffix() == ascii("\",\"stream\":\"stderr\",\"time\":\""@),
        stdout_suffix() == ascii("\",\"stream\":\"stdout\",\"time\":\""@),
        stderr_suffix().len() == 28,
        stdout_suffix().len() == 28,
        stderr_suffix()[27] == 0x22,
        stdout_suffix()[27] == 0x22,
        stderr_suffix()[15] == 0x65,
        stdout_suffix()[15] == 0x6f,
        encode_utf8("\"}"@) == ascii("\"}"@),
        encode_utf8("\"}"@).len() == 2,
        ascii("\"}"@)[1] == 0x7d,
{
    reveal_strlit("{\"log\":\"");
    reveal_strlit("\",\"stream\":\"stderr\",\"time\":\"");
    reveal_strlit("\",\"stream\":\"stdout\",\"time\":\"");
    reveal_strlit("\"}");
    lemma_ascii("{\"log\":\""@);
    lemma_ascii("\",\"stream\":\"stderr\",\"time\":\""@);
    lemma_ascii("\",\"stream\":\"stdout\",\"time\":\""@);
    lemma_ascii("\"}"@);
}

proof fn lemma_first_place(bytes: Seq<u8>, byte: u8, from: int, place: int)
    requires
        0 <= from <= place < bytes.len(),
        bytes[place] == byte,
        forall|i: int| from <= i < place ==> bytes[i] != byte,
    ensures
        first_place(bytes, byte, from) == Some(place),
    decreases place - from,
{
    if from < place {
        lemma_first_place(bytes, byte, from + 1, place);
    }
}

proof fn lemma_timestamp_start(front: Seq<u8>, time: Seq<u8>, back: Seq<u8>)
    requires
        front.len() > 0,
        front.last() == 0x22,
        20 <= time.len() <= 30,
        back.len() == 2,
        time[10] == 0x54,
        forall|i: int| 0 <= i < 10 ==> time[i] != 0x54,
    ensures
        timestamp_start(front + time + back) == Some(front.len() as int),
{
    let body = front + time + back;
    let end = body.len() - 2;
    let place = front.len() as int + 10;
    let window = body.take(end - 9);
    assert(window[place] == time[10]);
    assert forall|i: int| end - 20 <= i < place implies window[i] != 0x54 by {
        assert(window[i] == time[i - front.len()]);
    }
    lemma_first_place(window, 0x54, end - 20, place);
    assert(body[place - 11] == front.last());
}

/// A line of the log driver, whether it ends in a newline, in a carriage return
/// and a newline, or not at all, is read as its message, its stream and its time.
pub proof fn lines_read_back(
    text: Seq<char>,
    error: bool,
    time: CivilTime,
    fraction: nat,
    width: nat,
    end: Seq<u8>,
)
    requires
        time.year < 10_000,
        time.in_range(),
        time.days() >= 0,
        width <= 9,
        fraction < ten_to(width),
        time.nanos() + 1_000_000_000 <= u64::MAX,
        end == Seq::<u8>::empty() || end == seq![0x0au8] || end == seq![0x0du8, 0x0au8],
    ensures
        canonical_line(written_line(text, error, written_time(time, fraction, width), end)) matches Some(
            read,
        ) && read.message == text && read.stream == (if error {
            "stderr"@
        } else {
            "stdout"@
        }) && read.timestamp == time.nanos() + fraction * ten_to((9 - width) as nat),
{
    let stamp = written_time(time, fraction, width);
    let rest = if width == 0 {
        seq![0x5au8]
    } else {
        seq![0x2eu8] + written(fraction, width) + seq![0x5au8]
    };
    lemma_literals();
    timestamps_read_back(time, fraction, width);
    written_fields_stand_apart(time, rest);
    lemma_width(fraction, width);
    let line = written_line(text, error, stamp, end);
    let raw = escaped_text(text, false);
    let suffix = if error {
        stderr_suffix()
    } else {
        stdout_suffix()
    };
    let front = line_prefix() + raw + suffix;
    let back = ascii("\"}"@);
    let body = front + stamp + back;
    assert(line =~= body + end);
    assert(body.last() == 0x7d);
    lemma_line_body(body, end);
    assert(front.last() == 0x22);
    assert(stamp[10] == 0x54);
    assert forall|i: int| 0 <= i < 10 implies stamp[i] != 0x54 by {
        assert(stamp[i] == crate::docker_time_laws::written_seconds(time)[i]);
    }
    lemma_timestamp_start(front, stamp, back);
    let start = front.len() as int;
    assert(body.take(8) =~= line_prefix());
    assert(begins(body, line_prefix()));
    assert(body.skip(body.len() - 2) =~= back);
    assert(finishes(body, encode_utf8("\"}"@)));
    assert(body.subrange(start, body.len() - 2) =~= stamp);
    assert(body.take(start) =~= front);
    assert(front.skip(front.len() - 28) =~= suffix);
    assert(!error ==> suffix[15] != stderr_suffix()[15]);
    assert(finishes(front, suffix));
    assert(!error ==> !finishes(front, stderr_suffix()));
    assert(body.subrange(8, start - 28) =~= raw);
    escaped_texts_are_read_back(text, false);
}

proof fn lemma_width(fraction: nat, width: nat)
    ensures
        written(fraction, width).len() == width,
    decreases width,
{
    if width > 0 {
        lemma_width(fraction / 10, (width - 1) as nat);
    }
}

proof fn lemma_line_body(body: Seq<u8>, end: Seq<u8>)
    requires
        body.len() > 0,
        body.last() != 0x0a,
        body.last() != 0x0d,
        end == Seq::<u8>::empty() || end == seq![0x0au8] || end == seq![0x0du8, 0x0au8],
    ensures
        line_body(body + end) == body,
{
    let line = body + end;
    if end.len() == 0 {
        assert(line =~= body);
    } else if end.len() == 1 {
        assert(line.last() == 0x0a);
        assert(line.drop_last() =~= body);
    } else {
        assert(line.last() == 0x0a);
        assert(line.drop_last().last() == 0x0d);
        assert(line.drop_last().drop_last() =~= body);
    }
}

proof fn lemma_place_found(bytes: Seq<u8>, byte: u8, from: int)
    requires
        0 <= from,
    ensures
        first_place(bytes, byte, from) matches Some(place) ==> from <= place < bytes.len()
            && bytes[place] == byte && forall|i: int| from <= i < place ==> bytes[i] != byte,
        first_place(bytes, byte, from) is None ==> forall|i: int|
            from <= i < bytes.len() ==> bytes[i] != byte,
    decreases bytes.len() - from,
{
    if from < bytes.len() && bytes[from] != byte {
        lemma_place_found(bytes, byte, from + 1);
    }
}

/// A line ends behind its first newline, and at the end of the block where there is
/// none: nothing before its last byte is a newline.
pub proof fn lines_end_behind_their_newline(raw: Seq<u8>, start: int)
    requires
        0 <= start < raw.len(),
    ensures
        start < line_end(raw, start) <= raw.len(),
        forall|i: int| start <= i < line_end(raw, start) - 1 ==> raw[i] != 0x0a,
        line_end(raw, start) < raw.len() ==> raw[line_end(raw, start) - 1] == 0x0a,
{
    lemma_place_found(raw, 0x0a, start);
}

/// Whether a place is where a line starts: behind a newline.
pub open spec fn behind_newline(content: Seq<u8>, place: int) -> bool {
    0 < place <= content.len() && content[place - 1] == 0x0a
}

/// Searching forward finds the place behind the first newline of a range, and finds
/// none exactly where the range has none.
pub proof fn newlines_are_found_forward(content: Seq<u8>, from: int, limit: int)
    requires
        0 <= from,
        0 <= limit <= content.len(),
    ensures
        match newline_forward(content, from, limit) {
            Some(place) => from < place <= limit && behind_newline(content, place) && forall|i: int|
                from <= i < place - 1 ==> content[i] != 0x0a,
            None => forall|i: int| from <= i < limit ==> content[i] != 0x0a,
        },
{
    let window = content.take(limit);
    lemma_place_found(window, 0x0a, from);
    let bound = match first_place(window, 0x0a, from) {
        Some(place) => place,
        None => limit,
    };
    assert forall|i: int| from <= i < bound implies content[i] != 0x0a by {
        assert(window[i] != 0x0a);
    }
    if let Some(place) = first_place(window, 0x0a, from) {
        assert(content[place] == window[place]);
    }
}

/// Searching backward finds the place behind the last newline of a range, and finds
/// none exactly where the range has none.
pub proof fn newlines_are_found_backward(content: Seq<u8>, end: int, lower: int)
    requires
        0 <= lower,
        end <= content.len(),
    ensures
        match newline_backward(content, end, lower) {
            Some(place) => lower < place <= end && behind_newline(content, place) && forall|i: int|
                place <= i < end ==> content[i] != 0x0a,
            None => forall|i: int| lower <= i < end ==> content[i] != 0x0a,
        },
    decreases end - lower,
{
    if end > lower && content[end - 1] != 0x0a {
        newlines_are_found_backward(content, end - 1, lower);
    }
}

/// Blocks hold whole lines: every block ends behind a newline or at the end.
pub proof fn blocks_hold_whole_lines(
    content: Seq<u8>,
    start: int,
    nominal: int,
    end: int,
    block_bytes: int,
    ordinal: int,
)
    requires
        block_bytes > 0,
        0 <= start <= end <= content.len(),
        0 <= nominal,
        content.len() <= usize::MAX,
    ensures
        forall|i: int|
            0 <= i < block_spans(content, start, nominal, end, block_bytes, ordinal).len()
                ==> ends_whole(
                content,
                #[trigger] block_spans(content, start, nominal, end, block_bytes, ordinal)[i],
                end,
            ),
    decreases if end > nominal {
        end - nominal
    } else {
        0
    },
{
    let spans = block_spans(content, start, nominal, end, block_bytes, ordinal);
    if nominal < end {
        newlines_are_found_forward(content, nominal, end);
        let boundary = block_boundary(content, nominal, end);
        let (from, next) = if boundary > start {
            (boundary, ordinal + 1)
        } else {
            (start, ordinal)
        };
        blocks_hold_whole_lines(content, from, nominal + block_bytes, end, block_bytes, next);
        let later = block_spans(content, from, nominal + block_bytes, end, block_bytes, next);
        assert forall|i: int| 0 <= i < spans.len() implies ends_whole(
            content,
            #[trigger] spans[i],
            end,
        ) by {
            if boundary > start {
                if i > 0 {
                    assert(spans[i] == later[i - 1]);
                }
            } else {
                assert(spans[i] == later[i]);
            }
        }
    }
}

/// Whether a block ends behind a newline or at the end.
pub open spec fn ends_whole(content: Seq<u8>, span: BlockSpan, end: int) -> bool {
    span.start + span.length == end || behind_newline(content, span.start + span.length)
}

/// The part of a source that is read starts at its first line, or at its second
/// where the first is no record, ends behind a newline, and is the longest such
/// part within the limit.
pub proof fn sources_are_cut_at_newlines(
    content: Seq<u8>,
    first_line_is_record: bool,
    limit_bytes: u64,
)
    ensures
        source_range(content, first_line_is_record, limit_bytes) matches Ok(range) ==> {
            &&& first_line_is_record ==> range.start == 0
            &&& !first_line_is_record ==> behind_newline(content, range.start) && forall|i: int|
                0 <= i < range.start - 1 ==> content[i] != 0x0a
            &&& range.start < range.end <= content.len()
            &&& range.end - range.start <= limit_bytes
            &&& behind_newline(content, range.end)
            &&& forall|place: int|
                range.end < place <= content.len() && place - range.start <= limit_bytes
                    ==> !#[trigger] behind_newline(content, place)
        },
{
    newlines_are_found_forward(content, 0, content.len() as int);
    if let Some(first) = newline_forward(content, 0, content.len() as int) {
        let start = if first_line_is_record {
            0
        } else {
            first
        };
        let nominal = if start + limit_bytes < content.len() {
            start + limit_bytes
        } else {
            content.len() as int
        };
        newlines_are_found_backward(content, nominal, start);
    }
}

/// Whether a record is what the line at its place says, whoever read the line.
pub open spec fn is_line_record(
    raw: Seq<u8>,
    fallbacks: Seq<Option<FallbackLine>>,
    record: (int, DockerLine),
) -> bool {
    &&& 0 <= record.0 < raw.len()
    &&& record.0 == 0 || raw[record.0 - 1] == 0x0a
    &&& canonical_line(raw.subrange(record.0, line_end(raw, record.0))) == Some(record.1) || (
    canonical_line(raw.subrange(record.0, line_end(raw, record.0))) is None && exists|k: int|
        0 <= k < fallbacks.len() && gives(#[trigger] fallbacks[k], record.1))
}

/// Whether the general reader gave what a record says.
pub open spec fn gives(fallback: Option<FallbackLine>, line: DockerLine) -> bool {
    match fallback {
        None => false,
        Some(fallback) => {
            &&& fallback.log@ == line.message
            &&& fallback.stream@ == line.stream
            &&& timestamp_of(encode_utf8(fallback.time@)) matches Ok(time)
            &&& time == line.timestamp
        },
    }
}

proof fn lemma_block_records(
    raw: Seq<u8>,
    fallbacks: Seq<Option<FallbackLine>>,
    start: int,
    line: int,
    before: BlockReading,
)
    requires
        0 <= start <= raw.len(),
        start == 0 || start == raw.len() || raw[start - 1] == 0x0a,
        forall|i: int|
            0 <= i < before.records.len() ==> is_line_record(
                raw,
                fallbacks,
                #[trigger] before.records[i],
            ) && before.records[i].0 < start,
        forall|i: int, j: int|
            0 <= i < j < before.records.len() ==> (#[trigger] before.records[i]).0 < (
            #[trigger] before.records[j]).0,
    ensures
        ({
            let records = block_reading(raw, fallbacks, start, line, before).records;
            &&& forall|i: int|
                0 <= i < records.len() ==> is_line_record(raw, fallbacks, #[trigger] records[i])
            &&& forall|i: int, j: int|
                0 <= i < j < records.len() ==> (#[trigger] records[i]).0 < (
                #[trigger] records[j]).0
        }),
    decreases raw.len() - start,
{
    if start < raw.len() {
        lines_end_behind_their_newline(raw, start);
        let end = line_end(raw, start);
        let text = raw.subrange(start, end);
        let said = line_reading(text, fallback_at(fallbacks, line));
        let next = match said {
            Some(read) => BlockReading {
                records: before.records.push((start, read)),
                accepted_bytes: before.accepted_bytes + (end - start),
                ..before
            },
            None => BlockReading {
                rejected_records: before.rejected_records + 1,
                rejected_bytes: before.rejected_bytes + (end - start),
                ..before
            },
        };
        if let Some(read) = said {
            assert(is_line_record(raw, fallbacks, (start, read))) by {
                if canonical_line(text) is None {
                    assert(0 <= line < fallbacks.len());
                    assert(gives(fallbacks[line], read));
                }
            }
        }
        assert forall|i: int| 0 <= i < next.records.len() implies is_line_record(
            raw,
            fallbacks,
            #[trigger] next.records[i],
        ) && next.records[i].0 < end by {
            if i < before.records.len() {
                assert(next.records[i] == before.records[i]);
            }
        }
        assert forall|i: int, j: int| 0 <= i < j < next.records.len() implies (
        #[trigger] next.records[i]).0 < (#[trigger] next.records[j]).0 by {
            assert(next.records[i] == before.records[i]);
            if j < before.records.len() {
                assert(next.records[j] == before.records[j]);
            }
        }
        lemma_block_records(raw, fallbacks, end, line + 1, next);
        assert(block_reading(raw, fallbacks, start, line, before) == block_reading(
            raw,
            fallbacks,
            end,
            line + 1,
            next,
        ));
    }
}

/// The records of a block stand, in rising order, where its lines start, and say what
/// their line says: in the usual form, or else as the general reader gave it.
pub proof fn block_records_are_their_lines(raw: Seq<u8>, fallbacks: Seq<Option<FallbackLine>>)
    ensures
        ({
            let records = block_reading(raw, fallbacks, 0, 0, nothing_read()).records;
            &&& forall|i: int|
                0 <= i < records.len() ==> is_line_record(raw, fallbacks, #[trigger] records[i])
            &&& forall|i: int, j: int|
                0 <= i < j < records.len() ==> (#[trigger] records[i]).0 < (
                #[trigger] records[j]).0
        }),
{
    lemma_block_records(raw, fallbacks, 0, 0, nothing_read());
}

} // verus!
