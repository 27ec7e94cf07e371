//! Durable log, span and metric records with their shared contexts.

use std::sync::Arc;

use vstd::bytes::{spec_u32_to_le_bytes, spec_u64_to_le_bytes};
use vstd::prelude::*;

use crate::attributes::{
    canonical_attributes, encode_attributes, push_sized_text, sized_text, TelemetryAttribute,
    TelemetryValue,
};
use crate::dictionary::CompressionCohortId;
use crate::digest::{identity, identity_of};
use crate::error::{TelemetryError, TelemetryResult};
use crate::model::{
    LogicalOffset, ShardId, TelemetryRecordRef, TelemetrySignal, TopicPartition,
};
use crate::text::{hex_fixed, push_hex};
use crate::wire::{push_u32, push_u64};

verus! {

/// The number that bytes spell, most significant first.
pub open spec fn be_value(bytes: Seq<u8>) -> nat
    decreases bytes.len(),
{
    if bytes.len() == 0 {
        0
    } else {
        be_value(bytes.drop_last()) * 256 + bytes.last() as nat
    }
}

/// How many numbers `length` bytes can spell.
pub open spec fn be_limit(length: nat) -> nat
    decreases length,
{
    if length == 0 {
        1
    } else {
        256 * be_limit((length - 1) as nat)
    }
}

proof fn lemma_be_value_bound(bytes: Seq<u8>)
    ensures
        be_value(bytes) < be_limit(bytes.len()),
    decreases bytes.len(),
{
    if bytes.len() > 0 {
        lemma_be_value_bound(bytes.drop_last());
    }
}

proof fn lemma_be_limit_grows(shorter: nat, longer: nat)
    requires
        shorter <= longer,
    ensures
        be_limit(shorter) <= be_limit(longer),
    decreases longer - shorter,
{
    if shorter < longer {
        lemma_be_limit_grows(shorter, (longer - 1) as nat);
    }
}

/// Reads at most sixteen bytes as one number, most significant first.
pub fn read_be(bytes: &[u8]) -> (value: u128)
    requires
        bytes@.len() <= 16,
    ensures
        value == be_value(bytes@),
{
    let mut value: u128 = 0;
    let mut index: usize = 0;
    assert(bytes@.take(0) =~= Seq::<u8>::empty());
    while index < bytes.len()
        invariant
            index <= bytes@.len(),
            bytes@.len() <= 16,
            value == be_value(bytes@.take(index as int)),
        decreases bytes@.len() - index,
    {
        proof {
            let longer = bytes@.take(index + 1);
            assert(longer.drop_last() =~= bytes@.take(index as int));
            lemma_be_value_bound(longer);
            lemma_be_limit_grows(longer.len(), 16);
            reveal_with_fuel(be_limit, 17);
        }
        value = value * 256 + bytes[index] as u128;
        index = index + 1;
    }
    assert(bytes@.take(index as int) =~= bytes@);
    value
}

/// Nonzero 128-bit trace identity.
#[derive(Debug, Clone, Copy, PartialEq, Eq, PartialOrd, Ord, Hash, Structural)]
pub struct TraceId(pub u128);

impl TraceId {
    /// Reads a trace identity from its sixteen bytes.
    pub fn from_bytes(bytes: &[u8]) -> (result: TelemetryResult<Self>)
        ensures
            match result {
                Ok(id) => bytes@.len() == 16 && be_value(bytes@) != 0 && id.0 == be_value(bytes@),
                Err(error) => (bytes@.len() != 16 || be_value(bytes@) == 0)
                    && error is InvalidTraceId,
            },
    {
        if bytes.len() != 16 {
            return Err(TelemetryError::InvalidTraceId);
        }
        let value = read_be(bytes);
        if value == 0 {
            Err(TelemetryError::InvalidTraceId)
        } else {
            Ok(Self(value))
        }
    }

    /// The identity as an integer.
    pub fn get(self) -> (value: u128)
        ensures
            value == self.0,
    {
        self.0
    }

    /// Thirty-two lower-case hexadecimal digits.
    pub fn text(self) -> (text: String)
        ensures
            text@ == hex_fixed(self.0 as nat, 32),
    {
        hex_text(self.0, 32)
    }
}

/// Nonzero 64-bit span identity.
#[derive(Debug, Clone, Copy, PartialEq, Eq, PartialOrd, Ord, Hash, Structural)]
pub struct SpanId(pub u64);

impl SpanId {
    /// Reads a span identity from its eight bytes.
    pub fn from_bytes(bytes: &[u8]) -> (result: TelemetryResult<Self>)
        ensures
            match result {
                Ok(id) => bytes@.len() == 8 && be_value(bytes@) != 0 && id.0 == be_value(bytes@),
                Err(error) => (bytes@.len() != 8 || be_value(bytes@) == 0)
                    && error is InvalidSpanId,
            },
    {
        if bytes.len() != 8 {
            return Err(TelemetryError::InvalidSpanId);
        }
        let value = read_be(bytes);
        proof {
            lemma_be_value_bound(bytes@);
            reveal_with_fuel(be_limit, 9);
        }
        if value == 0 {
            Err(TelemetryError::InvalidSpanId)
        } else {
            Ok(Self(value as u64))
        }
    }

    /// The identity as an integer.
    pub fn get(self) -> (value: u64)
        ensures
            value == self.0,
    {
        self.0
    }

    /// Sixteen lower-case hexadecimal digits.
    pub fn text(self) -> (text: String)
        ensures
            text@ == hex_fixed(self.0 as nat, 16),
    {
        hex_text(self.0 as u128, 16)
    }
}

/// Renders a number as fixed-width hexadecimal text.
pub fn hex_text(value: u128, width: usize) -> (text: String)
    ensures
        text@ == hex_fixed(value as nat, width as nat),
{
    let mut text = String::new();
    push_hex(&mut text, value, width);
    assert(text@ =~= hex_fixed(value as nat, width as nat));
    text
}

/// Identity of a resource context.
#[derive(Debug, Clone, Copy, PartialEq, Eq, PartialOrd, Ord, Hash, Structural)]
pub struct ResourceContextId(pub u128);

/// Identity of an instrumentation scope.
#[derive(Debug, Clone, Copy, PartialEq, Eq, PartialOrd, Ord, Hash, Structural)]
pub struct ScopeContextId(pub u128);

/// Identity of a metric series.
#[derive(Debug, Clone, Copy, PartialEq, Eq, PartialOrd, Ord, Hash, Structural)]
pub struct SeriesFingerprint(pub u128);

impl SeriesFingerprint {
    /// Wraps a known fingerprint.
    pub fn from_raw(value: u128) -> (fingerprint: Self)
        ensures
            fingerprint.0 == value,
    {
        Self(value)
    }

    /// The fingerprint as an integer.
    pub fn get(self) -> (value: u128)
        ensures
            value == self.0,
    {
        self.0
    }
}

/// Entity that produced telemetry.
#[derive(Debug, PartialEq, Eq)]
pub struct ResourceContext {
    /// Attributes of the entity.
    pub attributes: Arc<Vec<TelemetryAttribute>>,
    /// Attributes that the producer discarded.
    pub dropped_attributes_count: u32,
    /// Schema of the attributes.
    pub schema_url: String,
}

/// Canonical bytes of a resource context.
pub open spec fn canonical_resource(context: ResourceContext) -> Seq<u8> {
    spec_u64_to_le_bytes(context.attributes@.len() as u64) + canonical_attributes(
        context.attributes@,
    ) + spec_u32_to_le_bytes(context.dropped_attributes_count) + sized_text(context.schema_url@)
}

impl ResourceContext {
    /// The identity of this context.
    pub open spec fn identity(&self) -> ResourceContextId {
        ResourceContextId(identity_of(canonical_resource(*self)))
    }

    /// A context that says nothing.
    pub fn new() -> (context: Self)
        ensures
            context.attributes@ == Seq::<TelemetryAttribute>::empty(),
            context.dropped_attributes_count == 0,
            context.schema_url@ == Seq::<char>::empty(),
    {
        Self {
            attributes: Arc::new(Vec::new()),
            dropped_attributes_count: 0,
            schema_url: String::new(),
        }
    }

    /// Identity of this context.
    pub fn id(&self) -> (id: ResourceContextId)
        ensures
            id == self.identity(),
    {
        let mut encoding: Vec<u8> = Vec::new();
        encode_resource(self, &mut encoding);
        assert(encoding@ =~= canonical_resource(*self));
        ResourceContextId(identity(&encoding))
    }
}

/// Instrumentation scope that emitted telemetry.
#[derive(Debug, PartialEq, Eq)]
pub struct ScopeContext {
    /// Scope name.
    pub name: String,
    /// Scope version.
    pub version: String,
    /// Attributes of the scope.
    pub attributes: Arc<Vec<TelemetryAttribute>>,
    /// Attributes that the producer discarded.
    pub dropped_attributes_count: u32,
    /// Schema of the attributes.
    pub schema_url: String,
}

/// Canonical bytes of a scope context.
pub open spec fn canonical_scope(context: ScopeContext) -> Seq<u8> {
    sized_text(context.name@) + sized_text(context.version@) + spec_u64_to_le_bytes(
        context.attributes@.len() as u64,
    ) + canonical_attributes(context.attributes@) + spec_u32_to_le_bytes(
        context.dropped_attributes_count,
    ) + sized_text(context.schema_url@)
}

impl ScopeContext {
    /// The identity of this scope.
    pub open spec fn identity(&self) -> ScopeContextId {
        ScopeContextId(identity_of(canonical_scope(*self)))
    }

    /// A scope that says nothing.
    pub fn new() -> (context: Self)
        ensures
            context.name@ == Seq::<char>::empty(),
            context.version@ == Seq::<char>::empty(),
            context.attributes@ == Seq::<TelemetryAttribute>::empty(),
            context.dropped_attributes_count == 0,
            context.schema_url@ == Seq::<char>::empty(),
    {
        Self {
            name: String::new(),
            version: String::new(),
            attributes: Arc::new(Vec::new()),
            dropped_attributes_count: 0,
            schema_url: String::new(),
        }
    }

    /// Identity of this scope.
    pub fn id(&self) -> (id: ScopeContextId)
        ensures
            id == self.identity(),
    {
        let mut encoding: Vec<u8> = Vec::new();
        encode_scope(self, &mut encoding);
        assert(encoding@ =~= canonical_scope(*self));
        ScopeContextId(identity(&encoding))
    }
}

/// One indexed text field of a log record.
#[derive(Debug, PartialEq, Eq)]
pub struct MetadataField {
    /// Field name.
    pub key: String,
    /// Field value.
    pub value: String,
}

impl MetadataField {
    /// Creates a field.
    pub fn new(key: &str, value: &str) -> (field: Self)
        ensures
            field.key@ == key@,
            field.value@ == value@,
    {
        Self { key: key.to_owned(), value: value.to_owned() }
    }
}

/// One log record at its durable position.
#[derive(Debug, PartialEq, Eq)]
pub struct DurableLog {
    /// Stripe that owns the record.
    pub stream_shard_id: ShardId,
    /// Durable position.
    pub record_ref: TelemetryRecordRef,
    /// Event time.
    pub timestamp_unix_nanos: u64,
    /// Collection time, or zero.
    pub observed_timestamp_unix_nanos: u64,
    /// Typed body.
    pub body: Option<TelemetryValue>,
    /// Rendered body.
    pub message: String,
    /// Event name.
    pub event_name: String,
    /// Indexed text fields.
    pub fields: Arc<Vec<MetadataField>>,
    /// Record attributes.
    pub attributes: Arc<Vec<TelemetryAttribute>>,
    /// Producing entity.
    pub resource: Arc<ResourceContext>,
    /// Emitting scope.
    pub scope: Arc<ScopeContext>,
    /// Severity as a number.
    pub severity_number: i32,
    /// Severity as text.
    pub severity_text: String,
    /// Attributes that the producer discarded.
    pub dropped_attributes_count: u32,
    /// Record flags.
    pub flags: u32,
    /// Linked trace.
    pub trace_id: Option<TraceId>,
    /// Linked span.
    pub span_id: Option<SpanId>,
    /// Group of alike records that compress together.
    pub compression_cohort: CompressionCohortId,
}

impl DurableLog {
    /// A record with a message and nothing else.
    pub fn new(
        stream_shard_id: ShardId,
        partition: TopicPartition,
        offset: LogicalOffset,
        timestamp_unix_nanos: u64,
        message: &str,
        compression_cohort: CompressionCohortId,
    ) -> (log: Self)
        ensures
            log.stream_shard_id == stream_shard_id,
            log.record_ref == (TelemetryRecordRef {
                signal: TelemetrySignal::Logs,
                topic_partition: partition,
                offset,
            }),
            log.timestamp_unix_nanos == timestamp_unix_nanos,
            log.observed_timestamp_unix_nanos == 0,
            log.body is None,
            log.message@ == message@,
            log.event_name@ == Seq::<char>::empty(),
            log.fields@ == Seq::<MetadataField>::empty(),
            log.attributes@ == Seq::<TelemetryAttribute>::empty(),
            log.resource.attributes@ == Seq::<TelemetryAttribute>::empty(),
            log.resource.dropped_attributes_count == 0,
            log.resource.schema_url@ == Seq::<char>::empty(),
            log.scope.name@ == Seq::<char>::empty(),
            log.scope.version@ == Seq::<char>::empty(),
            log.scope.attributes@ == Seq::<TelemetryAttribute>::empty(),
            log.scope.dropped_attributes_count == 0,
            log.scope.schema_url@ == Seq::<char>::empty(),
            log.severity_number == 0,
            log.severity_text@ == Seq::<char>::empty(),
            log.dropped_attributes_count == 0,
            log.flags == 0,
            log.trace_id is None,
            log.span_id is None,
            log.compression_cohort == compression_cohort,
    {
        Self {
            stream_shard_id,
            record_ref: TelemetryRecordRef::for_signal(TelemetrySignal::Logs, partition, offset),
            timestamp_unix_nanos,
            observed_timestamp_unix_nanos: 0,
            body: None,
            message: message.to_owned(),
            event_name: String::new(),
            fields: Arc::new(Vec::new()),
            attributes: Arc::new(Vec::new()),
            resource: Arc::new(ResourceContext::new()),
            scope: Arc::new(ScopeContext::new()),
            severity_number: 0,
            severity_text: String::new(),
            dropped_attributes_count: 0,
            flags: 0,
            trace_id: None,
            span_id: None,
            compression_cohort,
        }
    }

    /// Identity of the producing entity.
    pub fn resource_id(&self) -> (id: ResourceContextId)
        ensures
            id == self.resource.identity(),
    {
        self.resource.id()
    }

    /// Identity of the emitting scope.
    pub fn scope_id(&self) -> (id: ScopeContextId)
        ensures
            id == self.scope.identity(),
    {
        self.scope.id()
    }
}

/// Timed annotation of a span.
#[derive(Debug, PartialEq, Eq)]
pub struct SpanEvent {
    /// Event time.
    pub timestamp_unix_nanos: u64,
    /// Event name.
    pub name: String,
    /// Event attributes.
    pub attributes: Arc<Vec<TelemetryAttribute>>,
    /// Attributes that the producer discarded.
    pub dropped_attributes_count: u32,
}

/// Link from a span to another span.
#[derive(Debug, PartialEq, Eq)]
pub struct SpanLink {
    /// Linked trace.
    pub trace_id: TraceId,
    /// Linked span.
    pub span_id: SpanId,
    /// W3C trace state.
    pub trace_state: String,
    /// Link attributes.
    pub attributes: Arc<Vec<TelemetryAttribute>>,
    /// Attributes that the producer discarded.
    pub dropped_attributes_count: u32,
    /// Link flags.
    pub flags: u32,
}

/// Outcome of a span.
#[derive(Debug, PartialEq, Eq)]
pub struct SpanStatus {
    /// Status text.
    pub message: String,
    /// Status code.
    pub code: i32,
}

/// One span at its durable position.
#[derive(Debug, PartialEq, Eq)]
pub struct DurableSpan {
    /// Stripe that owns the record.
    pub stream_shard_id: ShardId,
    /// Durable position.
    pub record_ref: TelemetryRecordRef,
    /// Owning tenant.
    pub tenant: String,
    /// Producing entity.
    pub resource: Arc<ResourceContext>,
    /// Emitting scope.
    pub scope: Arc<ScopeContext>,
    /// Trace identity.
    pub trace_id: TraceId,
    /// Span identity.
    pub span_id: SpanId,
    /// Parent span.
    pub parent_span_id: Option<SpanId>,
    /// W3C trace state.
    pub trace_state: String,
    /// Span flags.
    pub flags: u32,
    /// Operation name.
    pub name: String,
    /// Span kind.
    pub kind: i32,
    /// Start time.
    pub start_time_unix_nanos: u64,
    /// Duration.
    pub duration_nanos: u64,
    /// Span attributes.
    pub attributes: Arc<Vec<TelemetryAttribute>>,
    /// Attributes that the producer discarded.
    pub dropped_attributes_count: u32,
    /// Timed annotations.
    pub events: Arc<Vec<SpanEvent>>,
    /// Events that the producer discarded.
    pub dropped_events_count: u32,
    /// Links to other spans.
    pub links: Arc<Vec<SpanLink>>,
    /// Links that the producer discarded.
    pub dropped_links_count: u32,
    /// Outcome.
    pub status: Option<SpanStatus>,
}

impl DurableSpan {
    /// When the span ended, where that can be represented.
    pub open spec fn end_time(self) -> Option<u64> {
        if self.start_time_unix_nanos + self.duration_nanos <= u64::MAX {
            Some((self.start_time_unix_nanos + self.duration_nanos) as u64)
        } else {
            None
        }
    }

    /// When the span ended, where that can be represented.
    pub fn end_time_unix_nanos(&self) -> (end: Option<u64>)
        ensures
            end == self.end_time(),
    {
        self.start_time_unix_nanos.checked_add(self.duration_nanos)
    }

    /// Identity of the producing entity.
    pub fn resource_id(&self) -> (id: ResourceContextId)
        ensures
            id == self.resource.identity(),
    {
        self.resource.id()
    }

    /// Identity of the emitting scope.
    pub fn scope_id(&self) -> (id: ScopeContextId)
        ensures
            id == self.scope.identity(),
    {
        self.scope.id()
    }
}

/// A scalar measurement.
#[derive(Debug, Clone, Copy, PartialEq, Eq, Structural)]
pub enum NumberValue {
    /// Signed integer.
    Integer(i64),
    /// IEEE-754 bits of a double.
    DoubleBits(u64),
}

/// A histogram count.
#[derive(Debug, Clone, Copy, PartialEq, Eq, Structural)]
pub enum HistogramCount {
    /// Exact count.
    Integer(u64),
    /// IEEE-754 bits of a fractional count.
    DoubleBits(u64),
}

/// Histogram with explicit bucket bounds.
#[derive(Debug, PartialEq, Eq)]
pub struct ExplicitHistogramValue {
    /// Observations.
    pub count: HistogramCount,
    /// Bits of the sum of observations.
    pub sum_bits: Option<u64>,
    /// Observations of each bucket.
    pub bucket_counts: Arc<Vec<HistogramCount>>,
    /// Bits of the upper bounds of all buckets but the last.
    pub explicit_bounds_bits: Arc<Vec<u64>>,
    /// Bits of the smallest observation.
    pub min_bits: Option<u64>,
    /// Bits of the largest observation.
    pub max_bits: Option<u64>,
    /// Counter reset hint.
    pub reset_hint: i32,
}

/// Run of consecutive exponential buckets.
#[derive(Debug, Clone, Copy, PartialEq, Eq, Structural)]
pub struct HistogramBucketSpan {
    /// Distance from the end of the run before, or the first index.
    pub offset: i32,
    /// Buckets in the run.
    pub length: u32,
}

/// Sparse exponential buckets of one sign.
#[derive(Debug, PartialEq, Eq)]
pub struct ExponentialHistogramBuckets {
    /// Runs of consecutive buckets.
    pub spans: Arc<Vec<HistogramBucketSpan>>,
    /// Observations of each bucket, over all runs.
    pub bucket_counts: Arc<Vec<HistogramCount>>,
}

/// Histogram with exponential buckets.
#[derive(Debug, PartialEq, Eq)]
pub struct ExponentialHistogramValue {
    /// Observations.
    pub count: HistogramCount,
    /// Bits of the sum of observations.
    pub sum_bits: Option<u64>,
    /// Bucket resolution.
    pub scale: i32,
    /// Observations of zero.
    pub zero_count: HistogramCount,
    /// Positive buckets.
    pub positive: Option<ExponentialHistogramBuckets>,
    /// Negative buckets.
    pub negative: Option<ExponentialHistogramBuckets>,
    /// Bits of the smallest observation.
    pub min_bits: Option<u64>,
    /// Bits of the largest observation.
    pub max_bits: Option<u64>,
    /// Bits of the width of the zero bucket.
    pub zero_threshold_bits: u64,
    /// Counter reset hint.
    pub reset_hint: i32,
}

/// Quantile of a summary.
#[derive(Debug, Clone, Copy, PartialEq, Eq, Structural)]
pub struct SummaryQuantile {
    /// Bits of the quantile.
    pub quantile_bits: u64,
    /// Bits of its value.
    pub value_bits: u64,
}

/// Summary of observations.
#[derive(Debug, PartialEq, Eq)]
pub struct SummaryValue {
    /// Observations.
    pub count: u64,
    /// Bits of the sum of observations.
    pub sum_bits: u64,
    /// Reported quantiles.
    pub quantiles: Arc<Vec<SummaryQuantile>>,
}

/// Value of one metric point.
#[derive(Debug, PartialEq, Eq)]
pub enum MetricValue {
    /// Sampled value.
    Gauge(NumberValue),
    /// Accumulated value.
    Sum(NumberValue),
    /// Histogram with explicit bounds.
    ExplicitHistogram(ExplicitHistogramValue),
    /// Histogram with exponential buckets.
    ExponentialHistogram(ExponentialHistogramValue),
    /// Summary.
    Summary(SummaryValue),
}

/// Kind of a metric series.
#[allow(inconsistent_fields)]
#[derive(Debug, Clone, Copy, PartialEq, Eq, Structural)]
pub enum MetricKind {
    /// Sampled value.
    Gauge,
    /// Accumulated value.
    Sum {
        /// Aggregation temporality.
        temporality: i32,
        /// Whether the value only grows.
        monotonic: bool,
    },
    /// Histogram with explicit bounds.
    ExplicitHistogram {
        /// Aggregation temporality.
        temporality: i32,
    },
    /// Histogram with exponential buckets.
    ExponentialHistogram {
        /// Aggregation temporality.
        temporality: i32,
    },
    /// Summary.
    Summary,
}

/// What makes two points belong to one series.
#[derive(Debug, PartialEq, Eq)]
pub struct MetricIdentity {
    /// Owning tenant.
    pub tenant: String,
    /// Producing entity.
    pub resource: Arc<ResourceContext>,
    /// Emitting scope.
    pub scope: Arc<ScopeContext>,
    /// Metric name.
    pub name: String,
    /// Metric unit.
    pub unit: String,
    /// Metric kind.
    pub kind: MetricKind,
    /// Point attributes.
    pub point_attributes: Arc<Vec<TelemetryAttribute>>,
}

/// Canonical bytes of a metric kind.
pub open spec fn canonical_kind(kind: MetricKind) -> Seq<u8> {
    match kind {
        MetricKind::Gauge => seq![0u8],
        MetricKind::Sum { temporality, monotonic } => seq![
            1u8,
            if monotonic {
                1u8
            } else {
                0u8
            },
        ] + spec_u32_to_le_bytes(temporality as u32),
        MetricKind::ExplicitHistogram { temporality } => seq![2u8] + spec_u32_to_le_bytes(
            temporality as u32,
        ),
        MetricKind::ExponentialHistogram { temporality } => seq![3u8] + spec_u32_to_le_bytes(
            temporality as u32,
        ),
        MetricKind::Summary => seq![4u8],
    }
}

/// Canonical bytes of a series identity.
pub open spec fn canonical_series(series: MetricIdentity) -> Seq<u8> {
    sized_text(series.tenant@) + canonical_resource(*series.resource) + canonical_scope(
        *series.scope,
    ) + sized_text(series.name@) + sized_text(series.unit@) + canonical_kind(series.kind)
        + spec_u64_to_le_bytes(series.point_attributes@.len() as u64) + canonical_attributes(
        series.point_attributes@,
    )
}

impl MetricIdentity {
    /// The fingerprint of this series.
    pub open spec fn series(&self) -> SeriesFingerprint {
        SeriesFingerprint(identity_of(canonical_series(*self)))
    }

    /// Fingerprint of this series.
    pub fn fingerprint(&self) -> (fingerprint: SeriesFingerprint)
        ensures
            fingerprint == self.series(),
    {
        let mut encoding: Vec<u8> = Vec::new();
        push_sized_text(&mut encoding, self.tenant.as_str());
        encode_resource(&self.resource, &mut encoding);
        encode_scope(&self.scope, &mut encoding);
        push_sized_text(&mut encoding, self.name.as_str());
        push_sized_text(&mut encoding, self.unit.as_str());
        encode_kind(self.kind, &mut encoding);
        push_u64(&mut encoding, self.point_attributes.len() as u64);
        encode_attributes(&self.point_attributes, &mut encoding);
        assert(encoding@ =~= canonical_series(*self));
        SeriesFingerprint(identity(&encoding))
    }

    /// Identity of the producing entity.
    pub fn resource_id(&self) -> (id: ResourceContextId)
        ensures
            id == self.resource.identity(),
    {
        self.resource.id()
    }

    /// Identity of the emitting scope.
    pub fn scope_id(&self) -> (id: ScopeContextId)
        ensures
            id == self.scope.identity(),
    {
        self.scope.id()
    }
}

/// Appends the canonical bytes of a resource context.
pub fn encode_resource(context: &ResourceContext, output: &mut Vec<u8>)
    ensures
        final(output)@ == old(output)@ + canonical_resource(*context),
{
    push_u64(output, context.attributes.len() as u64);
    encode_attributes(&context.attributes, output);
    push_u32(output, context.dropped_attributes_count);
    push_sized_text(output, context.schema_url.as_str());
    assert(output@ =~= old(output)@ + canonical_resource(*context));
}

/// Appends the canonical bytes of a scope context.
pub fn encode_scope(context: &ScopeContext, output: &mut Vec<u8>)
    ensures
        final(output)@ == old(output)@ + canonical_scope(*context),
{
    push_sized_text(output, context.name.as_str());
    push_sized_text(output, context.version.as_str());
    push_u64(output, context.attributes.len() as u64);
    encode_attributes(&context.attributes, output);
    push_u32(output, context.dropped_attributes_count);
    push_sized_text(output, context.schema_url.as_str());
    assert(output@ =~= old(output)@ + canonical_scope(*context));
}

fn encode_kind(kind: MetricKind, output: &mut Vec<u8>)
    ensures
        final(output)@ == old(output)@ + canonical_kind(kind),
{
    match kind {
        MetricKind::Gauge => {
            output.push(0);
        },
        MetricKind::Sum { temporality, monotonic } => {
            output.push(1);
            output.push(if monotonic {
                1
            } else {
                0
            });
            push_u32(output, temporality as u32);
        },
        MetricKind::ExplicitHistogram { temporality } => {
            output.push(2);
            push_u32(output, temporality as u32);
        },
        MetricKind::ExponentialHistogram { temporality } => {
            output.push(3);
            push_u32(output, temporality as u32);
        },
        MetricKind::Summary => {
            output.push(4);
        },
    }
    assert(output@ =~= old(output)@ + canonical_kind(kind));
}

/// Sample measurement linked to a trace.
#[derive(Debug, PartialEq, Eq)]
pub struct MetricExemplar {
    /// Sample time.
    pub timestamp_unix_nanos: u64,
    /// Sampled value.
    pub value: NumberValue,
    /// Linked trace.
    pub trace_id: Option<TraceId>,
    /// Linked span.
    pub span_id: Option<SpanId>,
    /// Attributes that the aggregation removed.
    pub filtered_attributes: Arc<Vec<TelemetryAttribute>>,
}

/// One metric point at its durable position.
#[derive(Debug, PartialEq, Eq)]
pub struct DurableMetricPoint {
    /// Stripe that owns the record.
    pub stream_shard_id: ShardId,
    /// Durable position.
    pub record_ref: TelemetryRecordRef,
    /// Series of the point.
    pub identity: Arc<MetricIdentity>,
    /// Metric description.
    pub description: String,
    /// Metric metadata.
    pub metadata: Arc<Vec<TelemetryAttribute>>,
    /// Start of the aggregation interval, or zero.
    pub start_time_unix_nanos: u64,
    /// Time of the point.
    pub timestamp_unix_nanos: u64,
    /// Point flags.
    pub flags: u32,
    /// Value.
    pub value: MetricValue,
    /// Linked sample measurements.
    pub exemplars: Arc<Vec<MetricExemplar>>,
}

impl DurableMetricPoint {
    /// Fingerprint of the series of this point.
    pub fn series_fingerprint(&self) -> (fingerprint: SeriesFingerprint)
        ensures
            fingerprint == self.identity.series(),
    {
        self.identity.fingerprint()
    }
}

} // verus!
