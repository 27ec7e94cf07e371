//! Errors of the telemetry store and of its query interface.

use vstd::prelude::*;

use crate::dictionary::DictionaryId;
use crate::model::{LogicalOffset, ShardId, TopicPartition};
use crate::text::{
    debug_quoted, debug_text, decimal, hex_fixed, push_decimal, push_hex,
};

verus! {

/// Result returned by telemetry operations.
pub type TelemetryResult<T> = Result<T, TelemetryError>;

/// Error returned by telemetry operations.
#[allow(inconsistent_fields)]
#[derive(Debug, PartialEq, Eq)]
pub enum TelemetryError {
    /// A required size limit was configured as zero.
    InvalidConfig(&'static str),
    /// A signal-native bounded configuration is invalid.
    InvalidConfiguration(String),
    /// A checksummed STEL envelope is malformed.
    InvalidTelemetryEnvelope(&'static str),
    /// A durable STEL envelope exceeds the protocol safety limit.
    TelemetryEnvelopeTooLarge,
    /// An OTLP trace ID is not exactly 16 nonzero bytes.
    InvalidTraceId,
    /// An OTLP span ID is not exactly 8 nonzero bytes.
    InvalidSpanId,
    /// A metric point violates signal or temporal invariants.
    InvalidMetricSample(String),
    /// Remote Write supplied a different value at an existing timestamp.
    MetricSampleConflict {
        /// Canonical series fingerprint.
        series: u128,
        /// Conflicting sample timestamp.
        timestamp_unix_nanos: u64,
    },
    /// The same shard-stream shard was configured more than once.
    DuplicateStripe(ShardId),
    /// A record was routed to a stripe that is not configured.
    UnknownStripe(ShardId),
    /// A record was sent to a stripe other than its shard-stream owner.
    WrongStripe {
        /// Physical stripe that received the record.
        expected: ShardId,
        /// Physical shard declared by the record.
        observed: ShardId,
    },
    /// A partition append reused or regressed its lane-assigned offset.
    OffsetOutOfOrder {
        /// Partition whose append order was violated.
        partition: TopicPartition,
        /// Required next offset.
        expected: LogicalOffset,
        /// Observed record offset.
        observed: LogicalOffset,
    },
    /// The next offset cannot be represented.
    OffsetExhausted(TopicPartition),
    /// The record was already visible in the hot index.
    DuplicateRecord {
        /// Duplicate record partition.
        partition: TopicPartition,
        /// Duplicate record offset.
        offset: LogicalOffset,
    },
    /// A replay reused an offset with different log content.
    ConflictingRecord {
        /// Conflicting record partition.
        partition: TopicPartition,
        /// Conflicting record offset.
        offset: LogicalOffset,
    },
    /// A requested sealed block does not exist.
    UnknownBlock(u64),
    /// A dictionary payload was empty.
    EmptyDictionary,
    /// A dictionary cannot fit into the configured cache.
    DictionaryTooLarge {
        /// Bytes in the candidate dictionary.
        bytes: usize,
        /// Configured LRU capacity in bytes.
        capacity: usize,
    },
    /// A dictionary ID was reused with different immutable bytes.
    DictionaryIdConflict(DictionaryId),
    /// The immutable dictionary catalog could not be accessed.
    DictionaryCatalogUnavailable,
    /// The real-time dictionary worker is no longer available.
    DictionaryTrainerUnavailable,
    /// The real-time dictionary worker could not be started or trained.
    DictionaryTrainingFailed(String),
    /// A published dictionary required by a block is no longer in its snapshot.
    MissingDictionary(DictionaryId),
    /// A record's encoded block representation cannot fit in its on-disk format.
    RecordTooLarge,
    /// A sealed structural block could not be decoded.
    InvalidBlockEncoding(&'static str),
    /// The selected compression backend rejected a block.
    CompressionFailed(String),
    /// An OTLP protobuf payload could not be decoded as an ExportLogs request.
    InvalidOtlpPayload(String),
    /// A native grouped log payload failed bounded decoding or validation.
    InvalidNativePayload(String),
    /// A lookup contains an invalid regular expression or other predicate.
    InvalidQuery(String),
    /// A stripe-owned query worker is unavailable.
    QueryWorkerUnavailable(String),
    /// A local durable-storage operation failed.
    StorageIo(String),
    /// A committed sink journal frame failed validation.
    CorruptSinkJournal(String),
    /// The bounded sink journal cannot accept another transaction.
    SinkJournalFull {
        /// Bytes that would be occupied by the transaction.
        bytes: u64,
        /// Configured journal capacity.
        capacity: u64,
    },
    /// An object-store operation failed.
    ObjectStore(String),
    /// Tier metadata or immutable object contents failed validation.
    CorruptTier(String),
    /// A conditional catalog publication observed a different current root.
    StaleCatalog {
        /// Object version expected by the publishing writer.
        expected: Option<String>,
        /// Object version observed by the object store.
        observed: Option<String>,
    },
    /// A sealed block no longer has the local payload needed for offload.
    MissingStagedPayload(u64),
}

/// Field-by-field text of a partition.
pub open spec fn partition_text(partition: TopicPartition) -> Seq<char> {
    "TopicPartition { topic_id: TopicId("@ + decimal(partition.topic_id.0 as nat)
        + "), partition_id: LogicalPartitionId("@ + decimal(partition.partition_id.0 as nat)
        + ") }"@
}

/// `None`, or the quoted text inside `Some(..)`.
pub open spec fn optional_debug(value: Option<String>) -> Seq<char> {
    match value {
        None => "None"@,
        Some(text) => "Some("@ + debug_quoted(text@) + ")"@,
    }
}

fn push_partition(text: &mut String, partition: &TopicPartition)
    ensures
        final(text)@ == old(text)@ + partition_text(*partition),
{
    text.append("TopicPartition { topic_id: TopicId(");
    push_decimal(text, partition.topic_id.0 as u128);
    text.append("), partition_id: LogicalPartitionId(");
    push_decimal(text, partition.partition_id.0 as u128);
    text.append(") }");
    assert(text@ =~= old(text)@ + partition_text(*partition));
}

fn push_optional_debug(text: &mut String, value: &Option<String>)
    ensures
        final(text)@ == old(text)@ + optional_debug(*value),
{
    match value {
        None => text.append("None"),
        Some(inner) => {
            text.append("Some(");
            let quoted = debug_text(inner.as_str());
            text.append(quoted.as_str());
            text.append(")");
        },
    }
    assert(text@ =~= old(text)@ + optional_debug(*value));
}

impl TelemetryError {
    /// The sentence that describes this error.
    pub open spec fn sentence(self) -> Seq<char> {
        match self {
            TelemetryError::InvalidConfig(message) => "invalid configuration: "@ + message@,
            TelemetryError::InvalidConfiguration(message) => "invalid telemetry configuration: "@ + message@,
            TelemetryError::InvalidTelemetryEnvelope(message) => "invalid STEL telemetry envelope: "@ + message@,
            TelemetryError::InvalidMetricSample(message) => "invalid metric sample: "@ + message@,
            TelemetryError::DictionaryTrainingFailed(message) => "real-time dictionary training failed: "@ + message@,
            TelemetryError::InvalidBlockEncoding(message) => "invalid structural block encoding: "@ + message@,
            TelemetryError::CompressionFailed(message) => "block compression failed: "@ + message@,
            TelemetryError::InvalidOtlpPayload(message) => "invalid OTLP Logs protobuf payload: "@ + message@,
            TelemetryError::InvalidNativePayload(message) => "invalid native log payload: "@ + message@,
            TelemetryError::InvalidQuery(message) => "invalid log query: "@ + message@,
            TelemetryError::QueryWorkerUnavailable(message) => "query worker is unavailable: "@ + message@,
            TelemetryError::StorageIo(message) => "durable storage operation failed: "@ + message@,
            TelemetryError::CorruptSinkJournal(message) => "sink journal is corrupt: "@ + message@,
            TelemetryError::ObjectStore(message) => "object-store operation failed: "@ + message@,
            TelemetryError::CorruptTier(message) => "corrupt tier metadata or object: "@ + message@,
            TelemetryError::TelemetryEnvelopeTooLarge => "STEL telemetry envelope exceeds the 64 MiB safety limit"@,
            TelemetryError::InvalidTraceId => "trace ID must be 16 nonzero bytes"@,
            TelemetryError::InvalidSpanId => "span ID must be 8 nonzero bytes"@,
            TelemetryError::EmptyDictionary => "compression dictionary cannot be empty"@,
            TelemetryError::DictionaryCatalogUnavailable => "immutable dictionary catalog is unavailable"@,
            TelemetryError::DictionaryTrainerUnavailable => "real-time dictionary trainer is unavailable"@,
            TelemetryError::RecordTooLarge => "log record cannot fit in the block encoding"@,
            TelemetryError::MetricSampleConflict { series, timestamp_unix_nanos } => "conflicting Remote Write sample for series "@ + hex_fixed(series as nat, 32) + " at "@ + decimal(timestamp_unix_nanos as nat),
            TelemetryError::DuplicateStripe(shard_id) => "duplicate stripe for shard "@ + decimal(shard_id.0 as nat),
            TelemetryError::UnknownStripe(shard_id) => "unknown stripe for shard "@ + decimal(shard_id.0 as nat),
            TelemetryError::WrongStripe { expected, observed } => "record for shard "@ + decimal(observed.0 as nat) + " was sent to stripe "@ + decimal(expected.0 as nat),
            TelemetryError::OffsetOutOfOrder { partition, expected, observed } => "partition "@ + partition_text(partition) + " expected offset "@ + decimal(expected.0 as nat) + ", observed "@ + decimal(observed.0 as nat),
            TelemetryError::OffsetExhausted(partition) => "partition "@ + partition_text(partition) + " has exhausted its logical offsets"@,
            TelemetryError::DuplicateRecord { partition, offset } => "duplicate record "@ + partition_text(partition) + "@"@ + decimal(offset.0 as nat),
            TelemetryError::ConflictingRecord { partition, offset } => "conflicting replay for record "@ + partition_text(partition) + "@"@ + decimal(offset.0 as nat),
            TelemetryError::UnknownBlock(block_id) => "unknown block "@ + decimal(block_id as nat),
            TelemetryError::DictionaryTooLarge { bytes, capacity } => "compression dictionary is "@ + decimal(bytes as nat) + " bytes, exceeding cache capacity "@ + decimal(capacity as nat),
            TelemetryError::DictionaryIdConflict(dictionary_id) => "dictionary ID "@ + decimal(dictionary_id.0 as nat) + " was reused with different immutable bytes"@,
            TelemetryError::MissingDictionary(dictionary_id) => "dictionary "@ + decimal(dictionary_id.0 as nat) + " is missing from the stripe snapshot"@,
            TelemetryError::SinkJournalFull { bytes, capacity } => "sink journal requires "@ + decimal(bytes as nat) + " bytes, exceeding capacity "@ + decimal(capacity as nat),
            TelemetryError::StaleCatalog { expected, observed } => "conditional catalog publication failed: expected object version "@ + optional_debug(expected) + ", observed "@ + optional_debug(observed),
            TelemetryError::MissingStagedPayload(block_id) => "sealed block "@ + decimal(block_id as nat) + " has no staged payload"@,
        }
    }

    /// Describes this error in one sentence.
    pub fn message(&self) -> (sentence: String)
        ensures
            sentence@ == self.sentence(),
    {
        let mut text = String::new();
        match self {
            TelemetryError::InvalidConfig(message) => {
                text.append("invalid configuration: ");
                text.append(message);
            },
            TelemetryError::InvalidConfiguration(message) => {
                text.append("invalid telemetry configuration: ");
                text.append(message.as_str());
            },
            TelemetryError::InvalidTelemetryEnvelope(message) => {
                text.append("invalid STEL telemetry envelope: ");
                text.append(message);
            },
            TelemetryError::InvalidMetricSample(message) => {
                text.append("invalid metric sample: ");
                text.append(message.as_str());
            },
            TelemetryError::DictionaryTrainingFailed(message) => {
                text.append("real-time dictionary training failed: ");
                text.append(message.as_str());
            },
            TelemetryError::InvalidBlockEncoding(message) => {
                text.append("invalid structural block encoding: ");
                text.append(message);
            },
            TelemetryError::CompressionFailed(message) => {
                text.append("block compression failed: ");
                text.append(message.as_str());
            },
            TelemetryError::InvalidOtlpPayload(message) => {
                text.append("invalid OTLP Logs protobuf payload: ");
                text.append(message.as_str());
            },
            TelemetryError::InvalidNativePayload(message) => {
                text.append("invalid native log payload: ");
                text.append(message.as_str());
            },
            TelemetryError::InvalidQuery(message) => {
                text.append("invalid log query: ");
                text.append(message.as_str());
            },
            TelemetryError::QueryWorkerUnavailable(message) => {
                text.append("query worker is unavailable: ");
                text.append(message.as_str());
            },
            TelemetryError::StorageIo(message) => {
                text.append("durable storage operation failed: ");
                text.append(message.as_str());
            },
            TelemetryError::CorruptSinkJournal(message) => {
                text.append("sink journal is corrupt: ");
                text.append(message.as_str());
            },
            TelemetryError::ObjectStore(message) => {
                text.append("object-store operation failed: ");
                text.append(message.as_str());
            },
            TelemetryError::CorruptTier(message) => {
                text.append("corrupt tier metadata or object: ");
                text.append(message.as_str());
            },
            TelemetryError::TelemetryEnvelopeTooLarge => text.append("STEL telemetry envelope exceeds the 64 MiB safety limit"),
            TelemetryError::InvalidTraceId => text.append("trace ID must be 16 nonzero bytes"),
            TelemetryError::InvalidSpanId => text.append("span ID must be 8 nonzero bytes"),
            TelemetryError::EmptyDictionary => text.append("compression dictionary cannot be empty"),
            TelemetryError::DictionaryCatalogUnavailable => text.append("immutable dictionary catalog is unavailable"),
            TelemetryError::DictionaryTrainerUnavailable => text.append("real-time dictionary trainer is unavailable"),
            TelemetryError::RecordTooLarge => text.append("log record cannot fit in the block encoding"),
            TelemetryError::MetricSampleConflict { series, timestamp_unix_nanos } => {
                text.append("conflicting Remote Write sample for series ");
                push_hex(&mut text, *series, 32);
                text.append(" at ");
                push_decimal(&mut text, *timestamp_unix_nanos as u128);
            },
            TelemetryError::DuplicateStripe(shard_id) => {
                text.append("duplicate stripe for shard ");
                push_decimal(&mut text, shard_id.0 as u128);
            },
            TelemetryError::UnknownStripe(shard_id) => {
                text.append("unknown stripe for shard ");
                push_decimal(&mut text, shard_id.0 as u128);
            },
            TelemetryError::WrongStripe { expected, observed } => {
                text.append("record for shard ");
                push_decimal(&mut text, observed.0 as u128);
                text.append(" was sent to stripe ");
                push_decimal(&mut text, expected.0 as u128);
            },
            TelemetryError::OffsetOutOfOrder { partition, expected, observed } => {
                text.append("partition ");
                push_partition(&mut text, partition);
                text.append(" expected offset ");
                push_decimal(&mut text, expected.0 as u128);
                text.append(", observed ");
                push_decimal(&mut text, observed.0 as u128);
            },
            TelemetryError::OffsetExhausted(partition) => {
                text.append("partition ");
                push_partition(&mut text, partition);
                text.append(" has exhausted its logical offsets");
            },
            TelemetryError::DuplicateRecord { partition, offset } => {
                text.append("duplicate record ");
                push_partition(&mut text, partition);
                text.append("@");
                push_decimal(&mut text, offset.0 as u128);
            },
            TelemetryError::ConflictingRecord { partition, offset } => {
                text.append("conflicting replay for record ");
                push_partition(&mut text, partition);
                text.append("@");
                push_decimal(&mut text, offset.0 as u128);
            },
            TelemetryError::UnknownBlock(block_id) => {
                text.append("unknown block ");
                push_decimal(&mut text, *block_id as u128);
            },
            TelemetryError::DictionaryTooLarge { bytes, capacity } => {
                text.append("compression dictionary is ");
                push_decimal(&mut text, *bytes as u128);
                text.append(" bytes, exceeding cache capacity ");
                push_decimal(&mut text, *capacity as u128);
            },
            TelemetryError::DictionaryIdConflict(dictionary_id) => {
                text.append("dictionary ID ");
                push_decimal(&mut text, dictionary_id.0 as u128);
                text.append(" was reused with different immutable bytes");
            },
            TelemetryError::MissingDictionary(dictionary_id) => {
                text.append("dictionary ");
                push_decimal(&mut text, dictionary_id.0 as u128);
                text.append(" is missing from the stripe snapshot");
            },
            TelemetryError::SinkJournalFull { bytes, capacity } => {
                text.append("sink journal requires ");
                push_decimal(&mut text, *bytes as u128);
                text.append(" bytes, exceeding capacity ");
                push_decimal(&mut text, *capacity as u128);
            },
            TelemetryError::StaleCatalog { expected, observed } => {
                text.append("conditional catalog publication failed: expected object version ");
                push_optional_debug(&mut text, expected);
                text.append(", observed ");
                push_optional_debug(&mut text, observed);
            },
            TelemetryError::MissingStagedPayload(block_id) => {
                text.append("sealed block ");
                push_decimal(&mut text, *block_id as u128);
                text.append(" has no staged payload");
            },
        }
        assert(text@ =~= self.sentence());
        text
    }
}

/// Class of a query-interface error.
#[derive(Debug, Clone, Copy, PartialEq, Eq, Structural)]
pub enum ApiErrorKind {
    /// The request is invalid.
    BadRequest,
    /// The configuration is invalid.
    Configuration,
    /// The service failed.
    Internal,
}

/// Error returned to a client of the query interface.
#[derive(Debug, PartialEq, Eq)]
pub struct LokiApiError {
    /// Class of the error.
    pub kind: ApiErrorKind,
    /// Text shown to the client.
    pub message: String,
}

impl LokiApiError {
    /// Whether this is an error of `kind` with the given text.
    pub open spec fn says(self, kind: ApiErrorKind, message: Seq<char>) -> bool {
        self.kind == kind && self.message@ == message
    }

    /// An invalid request.
    pub fn bad_request(message: &str) -> (error: Self)
        ensures
            error.says(ApiErrorKind::BadRequest, message@),
    {
        Self { kind: ApiErrorKind::BadRequest, message: message.to_owned() }
    }

    /// An invalid configuration.
    pub fn configuration(message: &str) -> (error: Self)
        ensures
            error.says(ApiErrorKind::Configuration, message@),
    {
        Self { kind: ApiErrorKind::Configuration, message: message.to_owned() }
    }

    /// A failure of the service.
    pub fn internal(message: &str) -> (error: Self)
        ensures
            error.says(ApiErrorKind::Internal, message@),
    {
        Self { kind: ApiErrorKind::Internal, message: message.to_owned() }
    }
}

} // verus!
