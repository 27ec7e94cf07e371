//! Records and expected counts of the query benchmarks.

use std::sync::Arc;

use vstd::prelude::*;

use crate::dictionary::CompressionCohortId;
use crate::model::{LogicalOffset, LogicalPartitionId, ShardId, TopicId, TopicPartition};
use crate::records::{DurableLog, MetadataField};
use crate::text::{decimal, hex_padded, push_decimal, push_hex_padded, push_zero_padded, zero_padded};

verus! {

/// Message of a record of the query benchmark.
pub open spec fn query_text(index: nat) -> Seq<char> {
    "common log event request_id="@ + decimal(index) + (if index % 10 == 0 {
        " medium"@
    } else {
        Seq::empty()
    }) + (if index % 1_000 == 0 {
        " rare"@
    } else {
        Seq::empty()
    })
}

/// Writes the message of a record of the query benchmark.
pub fn query_message(index: u64) -> (message: String)
    ensures
        message@ == query_text(index as nat),
{
    let mut message = "common log event request_id=".to_owned();
    push_decimal(&mut message, index as u128);
    if index % 10 == 0 {
        message.append(" medium");
    }
    if index % 1_000 == 0 {
        message.append(" rare");
    }
    assert(message@ =~= query_text(index as nat));
    message
}

/// Line of an entry of the Loki query benchmark.
pub open spec fn loki_text(index: nat) -> Seq<char> {
    (if index % 1_000 == 0 {
        "needle request_id="@
    } else {
        "noise request_id="@
    }) + decimal(index)
}

/// Writes the line of an entry of the Loki query benchmark.
pub fn loki_line(index: u64) -> (line: String)
    ensures
        line@ == loki_text(index as nat),
{
    let mut line = if index % 1_000 == 0 {
        "needle request_id=".to_owned()
    } else {
        "noise request_id=".to_owned()
    };
    push_decimal(&mut line, index as u128);
    line
}

/// Message of a record of the decode benchmark.
pub open spec fn decode_text(ordinal: nat) -> Seq<char> {
    "2026.07.29 02:01:"@ + zero_padded(ordinal % 60, 2) + "."@ + zero_padded(
        ordinal % 1_000_000,
        6,
    ) + " [ 404 ] {} <Error> Application: Code: 76. DB::ErrnoException: Cannot open file /var/lib/clickhouse/store/"@
        + hex_padded(ordinal % 4_096, 8) + "/data.bin: Permission denied"@
}

/// Writes the message of a record of the decode benchmark.
pub fn decode_message(ordinal: u64) -> (message: String)
    ensures
        message@ == decode_text(ordinal as nat),
{
    let mut message = "2026.07.29 02:01:".to_owned();
    push_zero_padded(&mut message, (ordinal % 60) as u128, 2);
    message.append(".");
    push_zero_padded(&mut message, (ordinal % 1_000_000) as u128, 6);
    message.append(
        " [ 404 ] {} <Error> Application: Code: 76. DB::ErrnoException: Cannot open file /var/lib/clickhouse/store/",
    );
    push_hex_padded(&mut message, (ordinal % 4_096) as u128, 8);
    message.append("/data.bin: Permission denied");
    assert(message@ =~= decode_text(ordinal as nat));
    message
}

/// Line of a record of the offload benchmark.
pub open spec fn offload_text(partition: nat, sequence: nat) -> Seq<char> {
    "partition="@ + decimal(partition) + " sequence="@ + decimal(sequence)
}

/// Writes the line of a record of the offload benchmark.
pub fn offload_line(partition: u64, sequence: u64) -> (line: String)
    ensures
        line@ == offload_text(partition as nat, sequence as nat),
{
    let mut line = "partition=".to_owned();
    push_decimal(&mut line, partition as u128);
    line.append(" sequence=");
    push_decimal(&mut line, sequence as u128);
    line
}

/// Message of a given size: words that repeat, then words that vary. One that
/// is too short for the latter is these alone.
pub open spec fn sized_message(size: nat) -> Seq<char> {
    Seq::new(
        if size > 24 {
            (size - 24) as nat
        } else {
            0
        },
        |i: int| "static-log-literal "@[i % 19],
    ) + " request 12345678 failed"@
}

/// Writes a message of a given size.
pub fn message_of_size(size: usize) -> (message: String)
    ensures
        message@ == sized_message(size as nat),
{
    let words = crate::text::characters("static-log-literal ");
    proof {
        reveal_strlit("static-log-literal ");
    }
    let body = size.saturating_sub(24);
    let mut letters: Vec<char> = Vec::new();
    let mut next: usize = 0;
    while next < body
        invariant
            next <= body,
            words@ == "static-log-literal "@,
            words@.len() == 19,
            letters@.len() == next,
            forall|i: int| 0 <= i < next ==> #[trigger] letters@[i] == words@[i % 19],
        decreases body - next,
    {
        letters.push(words[next % 19]);
        next = next + 1;
    }
    let mut message = crate::text::string_from(letters.as_slice());
    message.append(" request 12345678 failed");
    assert(message@ =~= sized_message(size as nat));
    message
}

/// Records of the decode benchmark that fit the range of times.
pub const MAX_DECODE_RECORDS: u64 = 16_000_000_000_000;

/// Whether a log is a record of the decode benchmark.
pub open spec fn decode_log(log: DurableLog, ordinal: nat) -> bool {
    &&& log.stream_shard_id == ShardId(0)
    &&& log.record_ref.topic_partition == (TopicPartition {
        topic_id: TopicId(0),
        partition_id: LogicalPartitionId(0),
    })
    &&& log.record_ref.offset.0 == ordinal
    &&& log.timestamp_unix_nanos == 1_775_000_000_000_000_000 + ordinal * 1_000_000
    &&& log.message@ == decode_text(ordinal)
    &&& log.compression_cohort == CompressionCohortId(0)
    &&& log.fields@.len() == 3
    &&& log.fields@[0].key@ == "docker.stream"@ && log.fields@[0].value@ == "stderr"@
    &&& log.fields@[1].key@ == "service.name"@ && log.fields@[1].value@ == "clickhouse"@
    &&& log.fields@[2].key@ == "severity"@ && log.fields@[2].value@ == "ERROR"@
}

/// Makes a record of the decode benchmark.
pub fn decode_record(ordinal: u64) -> (log: DurableLog)
    requires
        ordinal < MAX_DECODE_RECORDS,
    ensures
        decode_log(log, ordinal as nat),
{
    let message = decode_message(ordinal);
    let mut log = DurableLog::new(
        ShardId::new(0),
        TopicPartition::new(TopicId::new(0), LogicalPartitionId::new(0)),
        LogicalOffset::new(ordinal),
        1_775_000_000_000_000_000 + ordinal * 1_000_000,
        message.as_str(),
        CompressionCohortId::new(0),
    );
    let mut fields: Vec<MetadataField> = Vec::new();
    fields.push(MetadataField::new("docker.stream", "stderr"));
    fields.push(MetadataField::new("service.name", "clickhouse"));
    fields.push(MetadataField::new("severity", "ERROR"));
    log.fields = Arc::new(fields);
    log
}

/// Bytes of text.
pub open spec fn text_bytes(text: Seq<char>) -> nat {
    vstd::utf8::encode_utf8(text).len()
}

/// Bytes of fields and of their lengths.
pub open spec fn field_bytes(fields: Seq<MetadataField>) -> nat
    decreases fields.len(),
{
    if fields.len() == 0 {
        0
    } else {
        field_bytes(fields.drop_last()) + 16 + text_bytes(fields.last().key@) + text_bytes(
            fields.last().value@,
        )
    }
}

proof fn lemma_field_bytes(fields: Seq<MetadataField>, count: int)
    requires
        0 <= count <= fields.len(),
    ensures
        field_bytes(fields.take(count)) <= field_bytes(fields),
    decreases fields.len(),
{
    if count == fields.len() {
        assert(fields.take(count) =~= fields);
    } else {
        assert(fields.drop_last().take(count) =~= fields.take(count));
        lemma_field_bytes(fields.drop_last(), count);
    }
}

/// Bytes of a log in the canonical form that storage ratios refer to, where its
/// typed parts are `encoded` bytes long.
pub open spec fn log_bytes(log: DurableLog, encoded: nat) -> nat {
    64 + text_bytes(log.message@) + field_bytes(log.fields@) + encoded + text_bytes(
        log.severity_text@,
    ) + text_bytes(log.event_name@)
}

/// Counts the bytes of a log in its canonical form. `encoded` is the length of
/// its body, attributes, resource and scope together.
pub fn canonical_log_bytes(log: &DurableLog, encoded: usize) -> (bytes: usize)
    requires
        log_bytes(*log, encoded as nat) <= usize::MAX,
    ensures
        bytes == log_bytes(*log, encoded as nat),
{
    let fields: &Vec<MetadataField> = &log.fields;
    let mut bytes: usize = 0;
    let mut next: usize = 0;
    assert(fields@.take(0) =~= Seq::<MetadataField>::empty());
    while next < fields.len()
        invariant
            next <= fields@.len(),
            fields@ == log.fields@,
            log_bytes(*log, encoded as nat) <= usize::MAX,
            bytes == field_bytes(fields@.take(next as int)),
        decreases fields@.len() - next,
    {
        let key = fields[next].key.as_str().as_bytes();
        let value = fields[next].value.as_str().as_bytes();
        proof {
            lemma_field_bytes(fields@, next + 1);
            assert(fields@.take(next + 1).drop_last() =~= fields@.take(next as int));
            assert(key.len() == key@.len());
            assert(value.len() == value@.len());
        }
        bytes = bytes + 16 + key.len() + value.len();
        next = next + 1;
    }
    assert(fields@.take(next as int) =~= fields@);
    let message = log.message.as_str().as_bytes();
    let severity = log.severity_text.as_str().as_bytes();
    let event = log.event_name.as_str().as_bytes();
    assert(message.len() == message@.len());
    assert(severity.len() == severity@.len());
    assert(event.len() == event@.len());
    64 + message.len() + bytes + encoded + severity.len() + event.len()
}

/// Number of places before a limit that leave some remainders of a step.
pub open spec fn matches_before(limit: nat, step: nat, remainders: nat) -> nat
    decreases limit,
{
    if limit == 0 {
        0
    } else {
        matches_before((limit - 1) as nat, step, remainders) + if ((limit - 1) as nat) % step
            < remainders {
            1nat
        } else {
            0nat
        }
    }
}

/// Counts the places before a limit that leave some remainders of a step.
pub fn count_matches(limit: usize, step: usize, remainders: usize) -> (count: usize)
    requires
        0 < step,
        remainders <= step,
    ensures
        count == matches_before(limit as nat, step as nat, remainders as nat),
{
    let whole = limit / step;
    let rest = limit % step;
    let part = if rest < remainders {
        rest
    } else {
        remainders
    };
    proof {
        lemma_matches(limit as nat, step as nat, remainders as nat);
        assert(whole as int * remainders as int <= whole as int * step as int && whole as int
            * step as int <= limit) by (nonlinear_arith)
            requires
                remainders <= step,
                0 < step,
                whole == limit / step,
        ;
        assert(whole as int * remainders as int + part <= limit) by (nonlinear_arith)
            requires
                whole == limit / step,
                rest == limit % step,
                part <= rest,
                remainders <= step,
                0 < step,
        ;
    }
    whole * remainders + part
}

proof fn lemma_matches(limit: nat, step: nat, remainders: nat)
    requires
        0 < step,
        remainders <= step,
    ensures
        matches_before(limit, step, remainders) == (limit / step) * remainders + if limit % step
            < remainders {
            limit % step
        } else {
            remainders
        },
    decreases limit,
{
    if limit == 0 {
        assert(0nat / step == 0 && 0nat % step == 0) by (nonlinear_arith)
            requires
                0 < step,
        ;
        assert(0 * remainders == 0);
    } else {
        let before = (limit - 1) as nat;
        lemma_matches(before, step, remainders);
        if before % step + 1 == step {
            assert(limit / step == before / step + 1 && limit % step == 0) by (nonlinear_arith)
                requires
                    limit == before + 1,
                    before % step + 1 == step,
                    0 < step,
            ;
            let rounds = before / step;
            assert((rounds + 1) * remainders == rounds * remainders + remainders)
                by (nonlinear_arith);
        } else {
            assert(limit / step == before / step && limit % step == before % step + 1)
                by (nonlinear_arith)
                requires
                    limit == before + 1,
                    before % step + 1 != step,
                    0 < step,
            ;
        }
    }
}

/// What the queries of the query benchmark should find.
#[derive(Debug, Clone, Copy, PartialEq, Eq, Structural)]
pub struct ExpectedMatches {
    /// Records with the rare term.
    pub rare: usize,
    /// Rare records of the first service.
    pub service_rare: usize,
    /// Records of errors.
    pub errors: usize,
    /// Records with a raised status.
    pub elevated_status: usize,
    /// Records of the first two services.
    pub selected_services: usize,
    /// First offset of the window.
    pub window_start: usize,
    /// Offset behind the window.
    pub window_end: usize,
    /// Records of the second page.
    pub next_page: usize,
    /// Offset of the first page's end.
    pub next_page_cursor: usize,
    /// Records of the first page.
    pub first_page: usize,
}

/// Counts what the queries of the query benchmark should find.
pub fn expected_matches(records: usize) -> (expected: ExpectedMatches)
    ensures
        expected.rare == matches_before(records as nat, 1_000, 1),
        expected.service_rare == matches_before(records as nat, 2_000, 1),
        expected.errors == matches_before(records as nat, 4, 1),
        expected.elevated_status == matches_before(records as nat, 10, 1),
        expected.selected_services == matches_before(records as nat, 16, 2),
        expected.window_start == records / 2,
        expected.window_end == if records - records / 2 < 100 {
            records as int
        } else {
            records / 2 + 100
        },
        expected.next_page == if records < 100 {
            0
        } else if records < 200 {
            records - 100
        } else {
            100
        },
        expected.next_page_cursor == if records < 100 {
            0
        } else {
            records - 100
        },
        expected.first_page == if records < 100 {
            records as int
        } else {
            100
        },
{
    let window_start = records / 2;
    let window_end = if records - window_start < 100 {
        records
    } else {
        window_start + 100
    };
    let past = records.saturating_sub(100);
    ExpectedMatches {
        rare: count_matches(records, 1_000, 1),
        service_rare: count_matches(records, 2_000, 1),
        errors: count_matches(records, 4, 1),
        elevated_status: count_matches(records, 10, 1),
        selected_services: count_matches(records, 16, 2),
        window_start,
        window_end,
        next_page: if past < 100 {
            past
        } else {
            100
        },
        next_page_cursor: past,
        first_page: if records < 100 {
            records
        } else {
            100
        },
    }
}

/// Records of the first service with the rare term are those at every
/// two-thousandth place: the first at which both numbers come round.
pub proof fn rare_services_come_round(index: nat)
    ensures
        (index % 1_000 == 0 && index % 16 == 0) == (index % 2_000 == 0),
{
}

} // verus!
