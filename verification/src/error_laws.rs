//! What the sentences of errors end with.

use vstd::prelude::*;

use crate::error::{optional_debug, partition_text, TelemetryError};
use crate::text::{decimal, hex_fixed};

verus! {

/// Whether a text ends with another.
pub open spec fn ends_with(text: Seq<char>, tail: Seq<char>) -> bool {
    text.len() >= tail.len() && text.skip(text.len() - tail.len()) == tail
}

/// Whether a text names two others, the first before the second, which ends it.
pub open spec fn names_in_order(text: Seq<char>, first: Seq<char>, second: Seq<char>) -> bool {
    exists|before: Seq<char>, between: Seq<char>|
        text == #[trigger] (before + first + between) + second
}

proof fn lemma_sum(front: Seq<char>, tail: Seq<char>)
    ensures
        ends_with(front + tail, tail),
{
    assert((front + tail).skip(front.len() as int) =~= tail);
}

/// The sentence of an error that was given a reason ends with the reason, word for
/// word.
pub proof fn sentences_end_with_their_reason(error: TelemetryError)
    ensures
        match error {
            TelemetryError::InvalidConfig(reason) => ends_with(error.sentence(), reason@),
            TelemetryError::InvalidConfiguration(reason) => ends_with(error.sentence(), reason@),
            TelemetryError::InvalidTelemetryEnvelope(reason) => ends_with(
                error.sentence(),
                reason@,
            ),
            TelemetryError::InvalidMetricSample(reason) => ends_with(error.sentence(), reason@),
            TelemetryError::DictionaryTrainingFailed(reason) => ends_with(
                error.sentence(),
                reason@,
            ),
            TelemetryError::InvalidBlockEncoding(reason) => ends_with(error.sentence(), reason@),
            TelemetryError::CompressionFailed(reason) => ends_with(error.sentence(), reason@),
            TelemetryError::InvalidOtlpPayload(reason) => ends_with(error.sentence(), reason@),
            TelemetryError::InvalidNativePayload(reason) => ends_with(error.sentence(), reason@),
            TelemetryError::InvalidQuery(reason) => ends_with(error.sentence(), reason@),
            TelemetryError::QueryWorkerUnavailable(reason) => ends_with(error.sentence(), reason@),
            TelemetryError::StorageIo(reason) => ends_with(error.sentence(), reason@),
            TelemetryError::CorruptSinkJournal(reason) => ends_with(error.sentence(), reason@),
            TelemetryError::ObjectStore(reason) => ends_with(error.sentence(), reason@),
            TelemetryError::CorruptTier(reason) => ends_with(error.sentence(), reason@),
            _ => true,
        },
{
    match error {
        TelemetryError::InvalidConfig(reason) => lemma_sum("invalid configuration: "@, reason@),
        TelemetryError::InvalidConfiguration(reason) => lemma_sum(
            "invalid telemetry configuration: "@,
            reason@,
        ),
        TelemetryError::InvalidTelemetryEnvelope(reason) => lemma_sum(
            "invalid STEL telemetry envelope: "@,
            reason@,
        ),
        TelemetryError::InvalidMetricSample(reason) => lemma_sum(
            "invalid metric sample: "@,
            reason@,
        ),
        TelemetryError::DictionaryTrainingFailed(reason) => lemma_sum(
            "real-time dictionary training failed: "@,
            reason@,
        ),
        TelemetryError::InvalidBlockEncoding(reason) => lemma_sum(
            "invalid structural block encoding: "@,
            reason@,
        ),
        TelemetryError::CompressionFailed(reason) => lemma_sum(
            "block compression failed: "@,
            reason@,
        ),
        TelemetryError::InvalidOtlpPayload(reason) => lemma_sum(
            "invalid OTLP Logs protobuf payload: "@,
            reason@,
        ),
        TelemetryError::InvalidNativePayload(reason) => lemma_sum(
            "invalid native log payload: "@,
            reason@,
        ),
        TelemetryError::InvalidQuery(reason) => lemma_sum("invalid log query: "@, reason@),
        TelemetryError::QueryWorkerUnavailable(reason) => lemma_sum(
            "query worker is unavailable: "@,
            reason@,
        ),
        TelemetryError::StorageIo(reason) => lemma_sum(
            "durable storage operation failed: "@,
            reason@,
        ),
        TelemetryError::CorruptSinkJournal(reason) => lemma_sum(
            "sink journal is corrupt: "@,
            reason@,
        ),
        TelemetryError::ObjectStore(reason) => lemma_sum(
            "object-store operation failed: "@,
            reason@,
        ),
        TelemetryError::CorruptTier(reason) => lemma_sum(
            "corrupt tier metadata or object: "@,
            reason@,
        ),
        _ => {},
    }
}

/// The sentence of an error about two numbers names them in this order: the shard of
/// the record before the stripe it came to, what was expected before what was
/// observed, the size before the room, the series before the time.
pub proof fn sentences_name_their_numbers_in_order(error: TelemetryError)
    ensures
        match error {
            TelemetryError::MetricSampleConflict { series, timestamp_unix_nanos } => names_in_order(
                error.sentence(),
                hex_fixed(series as nat, 32),
                decimal(timestamp_unix_nanos as nat),
            ),
            TelemetryError::WrongStripe { expected, observed } => names_in_order(
                error.sentence(),
                decimal(observed.0 as nat),
                decimal(expected.0 as nat),
            ),
            TelemetryError::OffsetOutOfOrder { partition: _, expected, observed } => names_in_order(
                error.sentence(),
                decimal(expected.0 as nat),
                decimal(observed.0 as nat),
            ),
            TelemetryError::DictionaryTooLarge { bytes, capacity } => names_in_order(
                error.sentence(),
                decimal(bytes as nat),
                decimal(capacity as nat),
            ),
            TelemetryError::SinkJournalFull { bytes, capacity } => names_in_order(
                error.sentence(),
                decimal(bytes as nat),
                decimal(capacity as nat),
            ),
            TelemetryError::StaleCatalog { expected, observed } => names_in_order(
                error.sentence(),
                optional_debug(expected),
                optional_debug(observed),
            ),
            TelemetryError::DuplicateStripe(shard) => ends_with(
                error.sentence(),
                decimal(shard.0 as nat),
            ),
            TelemetryError::UnknownStripe(shard) => ends_with(
                error.sentence(),
                decimal(shard.0 as nat),
            ),
            TelemetryError::UnknownBlock(block) => ends_with(
                error.sentence(),
                decimal(block as nat),
            ),
            TelemetryError::DuplicateRecord { partition: _, offset } => ends_with(
                error.sentence(),
                decimal(offset.0 as nat),
            ),
            TelemetryError::ConflictingRecord { partition: _, offset } => ends_with(
                error.sentence(),
                decimal(offset.0 as nat),
            ),
            _ => true,
        },
{
    match error {
        TelemetryError::MetricSampleConflict { series, timestamp_unix_nanos } => {
            let before = "conflicting Remote Write sample for series "@;
            assert(error.sentence() == (before + hex_fixed(series as nat, 32) + " at "@) + decimal(
                timestamp_unix_nanos as nat,
            ));
        },
        TelemetryError::WrongStripe { expected, observed } => {
            let before = "record for shard "@;
            assert(error.sentence() == (before + decimal(observed.0 as nat)
                + " was sent to stripe "@) + decimal(expected.0 as nat));
        },
        TelemetryError::OffsetOutOfOrder { partition, expected, observed } => {
            let before = "partition "@ + partition_text(partition)
                + " expected offset "@;
            assert(error.sentence() == (before + decimal(expected.0 as nat) + ", observed "@)
                + decimal(observed.0 as nat));
        },
        TelemetryError::DictionaryTooLarge { bytes, capacity } => {
            let before = "compression dictionary is "@;
            assert(error.sentence() == (before + decimal(bytes as nat)
                + " bytes, exceeding cache capacity "@) + decimal(capacity as nat));
        },
        TelemetryError::SinkJournalFull { bytes, capacity } => {
            let before = "sink journal requires "@;
            assert(error.sentence() == (before + decimal(bytes as nat)
                + " bytes, exceeding capacity "@) + decimal(capacity as nat));
        },
        TelemetryError::StaleCatalog { expected, observed } => {
            let before = "conditional catalog publication failed: expected object version "@;
            assert(error.sentence() == (before + optional_debug(expected) + ", observed "@)
                + optional_debug(observed));
        },
        TelemetryError::DuplicateStripe(shard) => {
            lemma_sum("duplicate stripe for shard "@, decimal(shard.0 as nat));
        },
        TelemetryError::UnknownStripe(shard) => {
            lemma_sum("unknown stripe for shard "@, decimal(shard.0 as nat));
        },
        TelemetryError::UnknownBlock(block) => {
            lemma_sum("unknown block "@, decimal(block as nat));
        },
        TelemetryError::DuplicateRecord { partition, offset } => {
            lemma_sum(
                "duplicate record "@ + partition_text(partition) + "@"@,
                decimal(offset.0 as nat),
            );
        },
        TelemetryError::ConflictingRecord { partition, offset } => {
            lemma_sum(
                "conflicting replay for record "@ + partition_text(partition) + "@"@,
                decimal(offset.0 as nat),
            );
        },
        _ => {},
    }
}

} // verus!
