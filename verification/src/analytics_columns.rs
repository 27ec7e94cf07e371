//! Relations and columns of the analytical schema.

use vstd::prelude::*;

use crate::text::same_str;

verus! {

/// Pinned ClickHouse release whose evaluator defines the SQL semantics.
pub const CLICKHOUSE_COMPATIBILITY_TARGET: &'static str = "26.3.17.56-lts";

/// The only pre-release analytical schema and protocol version.
pub const ANALYTICS_SCHEMA_VERSION: u16 = 1;

/// Exact timestamp order that the analytical storage layer may apply before
/// a bounded log scan is returned to ClickHouse.
#[derive(Debug, Clone, Copy, PartialEq, Eq, Structural)]
pub enum AnalyticsScanOrder {
    /// Oldest timestamp first, with durable offset as the stable tie-breaker.
    TimestampAscending,
    /// Newest timestamp first, with durable offset as the stable tie-breaker.
    TimestampDescending,
}

/// Encoding used by the authenticated analytical scan boundary.
#[derive(Debug, Clone, Copy, PartialEq, Eq, Structural)]
pub enum AnalyticsWireFormat {
    /// Standard Arrow IPC streaming format.
    ArrowStream,
    /// ClickHouse RowBinary using the requested relation projection.
    RowBinary,
    /// Newline-delimited JSON objects using the requested relation projection.
    ///
    /// This is intended for bounded analytical interchange, including DuckDB's
    /// built-in JSON reader. It is not an ingest protocol or a replacement for
    /// the typed Arrow stream on high-throughput analytical paths.
    JsonLines,
}

impl Default for AnalyticsWireFormat {
    fn default() -> (format: Self)
        ensures
            format is ArrowStream,
    {
        AnalyticsWireFormat::ArrowStream
    }
}

/// A stable telemetry relation exposed to ClickHouse.
#[derive(Debug, Clone, Copy, PartialEq, Eq, PartialOrd, Ord, Hash, Structural)]
pub enum AnalyticsRelation {
    /// One row per log record.
    Logs,
    /// One row per winning span version.
    Spans,
    /// One row per nested span event.
    SpanEvents,
    /// One row per nested span link.
    SpanLinks,
    /// One row per winning raw metric point.
    MetricPoints,
    /// One row per nested metric exemplar.
    MetricExemplars,
}

impl AnalyticsRelation {
    /// The v1 wire name.
    pub open spec fn wire_name(self) -> Seq<char> {
        match self {
            AnalyticsRelation::Logs => "logs"@,
            AnalyticsRelation::Spans => "spans"@,
            AnalyticsRelation::SpanEvents => "span_events"@,
            AnalyticsRelation::SpanLinks => "span_links"@,
            AnalyticsRelation::MetricPoints => "metric_points"@,
            AnalyticsRelation::MetricExemplars => "metric_exemplars"@,
        }
    }

    /// The parent signal.
    pub open spec fn parent_signal(self) -> Seq<char> {
        match self {
            AnalyticsRelation::Logs => "logs"@,
            AnalyticsRelation::Spans => "traces"@,
            AnalyticsRelation::SpanEvents => "traces"@,
            AnalyticsRelation::SpanLinks => "traces"@,
            AnalyticsRelation::MetricPoints => "metrics"@,
            AnalyticsRelation::MetricExemplars => "metrics"@,
        }
    }

    /// The relation that a wire name denotes; `metrics` is short for the points.
    pub open spec fn named(value: Seq<char>) -> Option<AnalyticsRelation> {
        if value == "logs"@ {
            Some(AnalyticsRelation::Logs)
        } else if value == "spans"@ {
            Some(AnalyticsRelation::Spans)
        } else if value == "span_events"@ {
            Some(AnalyticsRelation::SpanEvents)
        } else if value == "span_links"@ {
            Some(AnalyticsRelation::SpanLinks)
        } else if value == "metric_points"@ || value == "metrics"@ {
            Some(AnalyticsRelation::MetricPoints)
        } else if value == "metric_exemplars"@ {
            Some(AnalyticsRelation::MetricExemplars)
        } else {
            None
        }
    }

    /// The columns in wire order.
    pub open spec fn declared(self) -> Seq<AnalyticsColumn> {
        match self {
            AnalyticsRelation::Logs => seq![
                AnalyticsColumn::Tenant,
                AnalyticsColumn::Signal,
                AnalyticsColumn::Timestamp,
                AnalyticsColumn::ObservedTimestamp,
                AnalyticsColumn::Partition,
                AnalyticsColumn::Offset,
                AnalyticsColumn::ResourceId,
                AnalyticsColumn::ScopeId,
                AnalyticsColumn::TraceId,
                AnalyticsColumn::SpanId,
                AnalyticsColumn::Message,
                AnalyticsColumn::BodyJson,
                AnalyticsColumn::SeverityNumber,
                AnalyticsColumn::SeverityText,
                AnalyticsColumn::EventName,
                AnalyticsColumn::Flags,
                AnalyticsColumn::DroppedAttributesCount,
                AnalyticsColumn::Labels,
                AnalyticsColumn::Metadata,
                AnalyticsColumn::Attributes,
                AnalyticsColumn::ResourceAttributes,
                AnalyticsColumn::ScopeAttributes,
                AnalyticsColumn::AttributeIds,
                AnalyticsColumn::ResourceAttributeIds,
                AnalyticsColumn::ScopeAttributeIds,
                AnalyticsColumn::AttributesJson,
                AnalyticsColumn::ResourceAttributesJson,
                AnalyticsColumn::ScopeAttributesJson,
            ],
            AnalyticsRelation::Spans => seq![
                AnalyticsColumn::Tenant,
                AnalyticsColumn::Signal,
                AnalyticsColumn::Timestamp,
                AnalyticsColumn::EndTimestamp,
                AnalyticsColumn::Partition,
                AnalyticsColumn::Offset,
                AnalyticsColumn::ResourceId,
                AnalyticsColumn::ScopeId,
                AnalyticsColumn::TraceId,
                AnalyticsColumn::SpanId,
                AnalyticsColumn::ParentSpanId,
                AnalyticsColumn::Name,
                AnalyticsColumn::Kind,
                AnalyticsColumn::DurationNanos,
                AnalyticsColumn::StatusCode,
                AnalyticsColumn::StatusMessage,
                AnalyticsColumn::TraceState,
                AnalyticsColumn::Flags,
                AnalyticsColumn::DroppedAttributesCount,
                AnalyticsColumn::DroppedEventsCount,
                AnalyticsColumn::DroppedLinksCount,
                AnalyticsColumn::Attributes,
                AnalyticsColumn::ResourceAttributes,
                AnalyticsColumn::ScopeAttributes,
                AnalyticsColumn::AttributeIds,
                AnalyticsColumn::ResourceAttributeIds,
                AnalyticsColumn::ScopeAttributeIds,
                AnalyticsColumn::AttributesJson,
                AnalyticsColumn::ResourceAttributesJson,
                AnalyticsColumn::ScopeAttributesJson,
                AnalyticsColumn::EventsJson,
                AnalyticsColumn::LinksJson,
            ],
            AnalyticsRelation::SpanEvents => seq![
                AnalyticsColumn::Tenant,
                AnalyticsColumn::Signal,
                AnalyticsColumn::Timestamp,
                AnalyticsColumn::ParentTimestamp,
                AnalyticsColumn::Partition,
                AnalyticsColumn::Offset,
                AnalyticsColumn::ResourceId,
                AnalyticsColumn::ScopeId,
                AnalyticsColumn::TraceId,
                AnalyticsColumn::SpanId,
                AnalyticsColumn::Ordinal,
                AnalyticsColumn::Name,
                AnalyticsColumn::DroppedAttributesCount,
                AnalyticsColumn::Attributes,
                AnalyticsColumn::ResourceAttributes,
                AnalyticsColumn::ScopeAttributes,
                AnalyticsColumn::AttributeIds,
                AnalyticsColumn::AttributesJson,
                AnalyticsColumn::ResourceAttributesJson,
                AnalyticsColumn::ScopeAttributesJson,
            ],
            AnalyticsRelation::SpanLinks => seq![
                AnalyticsColumn::Tenant,
                AnalyticsColumn::Signal,
                AnalyticsColumn::Timestamp,
                AnalyticsColumn::Partition,
                AnalyticsColumn::Offset,
                AnalyticsColumn::ResourceId,
                AnalyticsColumn::ScopeId,
                AnalyticsColumn::TraceId,
                AnalyticsColumn::SpanId,
                AnalyticsColumn::Ordinal,
                AnalyticsColumn::LinkedTraceId,
                AnalyticsColumn::LinkedSpanId,
                AnalyticsColumn::TraceState,
                AnalyticsColumn::Flags,
                AnalyticsColumn::DroppedAttributesCount,
                AnalyticsColumn::Attributes,
                AnalyticsColumn::ResourceAttributes,
                AnalyticsColumn::ScopeAttributes,
                AnalyticsColumn::AttributeIds,
                AnalyticsColumn::AttributesJson,
                AnalyticsColumn::ResourceAttributesJson,
                AnalyticsColumn::ScopeAttributesJson,
            ],
            AnalyticsRelation::MetricPoints => seq![
                AnalyticsColumn::Tenant,
                AnalyticsColumn::Signal,
                AnalyticsColumn::Timestamp,
                AnalyticsColumn::StartTimestamp,
                AnalyticsColumn::Partition,
                AnalyticsColumn::Offset,
                AnalyticsColumn::ResourceId,
                AnalyticsColumn::ScopeId,
                AnalyticsColumn::SeriesId,
                AnalyticsColumn::Name,
                AnalyticsColumn::Description,
                AnalyticsColumn::Unit,
                AnalyticsColumn::MetricKind,
                AnalyticsColumn::Temporality,
                AnalyticsColumn::Monotonic,
                AnalyticsColumn::Flags,
                AnalyticsColumn::ValueType,
                AnalyticsColumn::ScalarInteger,
                AnalyticsColumn::ScalarDoubleBits,
                AnalyticsColumn::ValueJson,
                AnalyticsColumn::Labels,
                AnalyticsColumn::Metadata,
                AnalyticsColumn::Attributes,
                AnalyticsColumn::ResourceAttributes,
                AnalyticsColumn::ScopeAttributes,
                AnalyticsColumn::AttributeIds,
                AnalyticsColumn::ResourceAttributeIds,
                AnalyticsColumn::ScopeAttributeIds,
                AnalyticsColumn::AttributesJson,
                AnalyticsColumn::ResourceAttributesJson,
                AnalyticsColumn::ScopeAttributesJson,
                AnalyticsColumn::ExemplarsJson,
            ],
            AnalyticsRelation::MetricExemplars => seq![
                AnalyticsColumn::Tenant,
                AnalyticsColumn::Signal,
                AnalyticsColumn::Timestamp,
                AnalyticsColumn::ParentTimestamp,
                AnalyticsColumn::Partition,
                AnalyticsColumn::Offset,
                AnalyticsColumn::ResourceId,
                AnalyticsColumn::ScopeId,
                AnalyticsColumn::TraceId,
                AnalyticsColumn::SpanId,
                AnalyticsColumn::SeriesId,
                AnalyticsColumn::Ordinal,
                AnalyticsColumn::Name,
                AnalyticsColumn::ValueType,
                AnalyticsColumn::ScalarInteger,
                AnalyticsColumn::ScalarDoubleBits,
                AnalyticsColumn::Attributes,
                AnalyticsColumn::AttributeIds,
                AnalyticsColumn::AttributesJson,
                AnalyticsColumn::Labels,
                AnalyticsColumn::Metadata,
            ],
        }
    }

    /// Stable v1 wire name.
    #[must_use]
    pub fn name(self) -> (name: &'static str)
        ensures
            name@ == self.wire_name(),
    {
        match self {
            AnalyticsRelation::Logs => "logs",
            AnalyticsRelation::Spans => "spans",
            AnalyticsRelation::SpanEvents => "span_events",
            AnalyticsRelation::SpanLinks => "span_links",
            AnalyticsRelation::MetricPoints => "metric_points",
            AnalyticsRelation::MetricExemplars => "metric_exemplars",
        }
    }

    /// Relation of a wire name.
    pub fn parse(value: &str) -> (relation: Option<Self>)
        ensures
            relation == Self::named(value@),
    {
        if same_str(value, "logs") {
            Some(AnalyticsRelation::Logs)
        } else if same_str(value, "spans") {
            Some(AnalyticsRelation::Spans)
        } else if same_str(value, "span_events") {
            Some(AnalyticsRelation::SpanEvents)
        } else if same_str(value, "span_links") {
            Some(AnalyticsRelation::SpanLinks)
        } else if same_str(value, "metric_points") || same_str(value, "metrics") {
            Some(AnalyticsRelation::MetricPoints)
        } else if same_str(value, "metric_exemplars") {
            Some(AnalyticsRelation::MetricExemplars)
        } else {
            None
        }
    }

    /// Columns available from this relation in stable wire order.
    #[must_use]
    pub fn columns(self) -> (columns: Vec<AnalyticsColumn>)
        ensures
            columns@ == self.declared(),
    {
        let columns = match self {
            AnalyticsRelation::Logs => vec![
                AnalyticsColumn::Tenant,
                AnalyticsColumn::Signal,
                AnalyticsColumn::Timestamp,
                AnalyticsColumn::ObservedTimestamp,
                AnalyticsColumn::Partition,
                AnalyticsColumn::Offset,
                AnalyticsColumn::ResourceId,
                AnalyticsColumn::ScopeId,
                AnalyticsColumn::TraceId,
                AnalyticsColumn::SpanId,
                AnalyticsColumn::Message,
                AnalyticsColumn::BodyJson,
                AnalyticsColumn::SeverityNumber,
                AnalyticsColumn::SeverityText,
                AnalyticsColumn::EventName,
                AnalyticsColumn::Flags,
                AnalyticsColumn::DroppedAttributesCount,
                AnalyticsColumn::Labels,
                AnalyticsColumn::Metadata,
                AnalyticsColumn::Attributes,
                AnalyticsColumn::ResourceAttributes,
                AnalyticsColumn::ScopeAttributes,
                AnalyticsColumn::AttributeIds,
                AnalyticsColumn::ResourceAttributeIds,
                AnalyticsColumn::ScopeAttributeIds,
                AnalyticsColumn::AttributesJson,
                AnalyticsColumn::ResourceAttributesJson,
                AnalyticsColumn::ScopeAttributesJson,
            ],
            AnalyticsRelation::Spans => vec![
                AnalyticsColumn::Tenant,
                AnalyticsColumn::Signal,
                AnalyticsColumn::Timestamp,
                AnalyticsColumn::EndTimestamp,
                AnalyticsColumn::Partition,
                AnalyticsColumn::Offset,
                AnalyticsColumn::ResourceId,
                AnalyticsColumn::ScopeId,
                AnalyticsColumn::TraceId,
                AnalyticsColumn::SpanId,
                AnalyticsColumn::ParentSpanId,
                AnalyticsColumn::Name,
                AnalyticsColumn::Kind,
                AnalyticsColumn::DurationNanos,
                AnalyticsColumn::StatusCode,
                AnalyticsColumn::StatusMessage,
                AnalyticsColumn::TraceState,
                AnalyticsColumn::Flags,
                AnalyticsColumn::DroppedAttributesCount,
                AnalyticsColumn::DroppedEventsCount,
                AnalyticsColumn::DroppedLinksCount,
                AnalyticsColumn::Attributes,
                AnalyticsColumn::ResourceAttributes,
                AnalyticsColumn::ScopeAttributes,
                AnalyticsColumn::AttributeIds,
                AnalyticsColumn::ResourceAttributeIds,
                AnalyticsColumn::ScopeAttributeIds,
                AnalyticsColumn::AttributesJson,
                AnalyticsColumn::ResourceAttributesJson,
                AnalyticsColumn::ScopeAttributesJson,
                AnalyticsColumn::EventsJson,
                AnalyticsColumn::LinksJson,
            ],
            AnalyticsRelation::SpanEvents => vec![
                AnalyticsColumn::Tenant,
                AnalyticsColumn::Signal,
                AnalyticsColumn::Timestamp,
                AnalyticsColumn::ParentTimestamp,
                AnalyticsColumn::Partition,
                AnalyticsColumn::Offset,
                AnalyticsColumn::ResourceId,
                AnalyticsColumn::ScopeId,
                AnalyticsColumn::TraceId,
                AnalyticsColumn::SpanId,
                AnalyticsColumn::Ordinal,
                AnalyticsColumn::Name,
                AnalyticsColumn::DroppedAttributesCount,
                AnalyticsColumn::Attributes,
                AnalyticsColumn::ResourceAttributes,
                AnalyticsColumn::ScopeAttributes,
                AnalyticsColumn::AttributeIds,
                AnalyticsColumn::AttributesJson,
                AnalyticsColumn::ResourceAttributesJson,
                AnalyticsColumn::ScopeAttributesJson,
            ],
            AnalyticsRelation::SpanLinks => vec![
                AnalyticsColumn::Tenant,
                AnalyticsColumn::Signal,
                AnalyticsColumn::Timestamp,
                AnalyticsColumn::Partition,
                AnalyticsColumn::Offset,
                AnalyticsColumn::ResourceId,
                AnalyticsColumn::ScopeId,
                AnalyticsColumn::TraceId,
                AnalyticsColumn::SpanId,
                AnalyticsColumn::Ordinal,
                AnalyticsColumn::LinkedTraceId,
                AnalyticsColumn::LinkedSpanId,
                AnalyticsColumn::TraceState,
                AnalyticsColumn::Flags,
                AnalyticsColumn::DroppedAttributesCount,
                AnalyticsColumn::Attributes,
                AnalyticsColumn::ResourceAttributes,
                AnalyticsColumn::ScopeAttributes,
                AnalyticsColumn::AttributeIds,
                AnalyticsColumn::AttributesJson,
                AnalyticsColumn::ResourceAttributesJson,
                AnalyticsColumn::ScopeAttributesJson,
            ],
            AnalyticsRelation::MetricPoints => vec![
                AnalyticsColumn::Tenant,
                AnalyticsColumn::Signal,
                AnalyticsColumn::Timestamp,
                AnalyticsColumn::StartTimestamp,
                AnalyticsColumn::Partition,
                AnalyticsColumn::Offset,
                AnalyticsColumn::ResourceId,
                AnalyticsColumn::ScopeId,
                AnalyticsColumn::SeriesId,
                AnalyticsColumn::Name,
                AnalyticsColumn::Description,
                AnalyticsColumn::Unit,
                AnalyticsColumn::MetricKind,
                AnalyticsColumn::Temporality,
                AnalyticsColumn::Monotonic,
                AnalyticsColumn::Flags,
                AnalyticsColumn::ValueType,
                AnalyticsColumn::ScalarInteger,
                AnalyticsColumn::ScalarDoubleBits,
                AnalyticsColumn::ValueJson,
                AnalyticsColumn::Labels,
                AnalyticsColumn::Metadata,
                AnalyticsColumn::Attributes,
                AnalyticsColumn::ResourceAttributes,
                AnalyticsColumn::ScopeAttributes,
                AnalyticsColumn::AttributeIds,
                AnalyticsColumn::ResourceAttributeIds,
                AnalyticsColumn::ScopeAttributeIds,
                AnalyticsColumn::AttributesJson,
                AnalyticsColumn::ResourceAttributesJson,
                AnalyticsColumn::ScopeAttributesJson,
                AnalyticsColumn::ExemplarsJson,
            ],
            AnalyticsRelation::MetricExemplars => vec![
                AnalyticsColumn::Tenant,
                AnalyticsColumn::Signal,
                AnalyticsColumn::Timestamp,
                AnalyticsColumn::ParentTimestamp,
                AnalyticsColumn::Partition,
                AnalyticsColumn::Offset,
                AnalyticsColumn::ResourceId,
                AnalyticsColumn::ScopeId,
                AnalyticsColumn::TraceId,
                AnalyticsColumn::SpanId,
                AnalyticsColumn::SeriesId,
                AnalyticsColumn::Ordinal,
                AnalyticsColumn::Name,
                AnalyticsColumn::ValueType,
                AnalyticsColumn::ScalarInteger,
                AnalyticsColumn::ScalarDoubleBits,
                AnalyticsColumn::Attributes,
                AnalyticsColumn::AttributeIds,
                AnalyticsColumn::AttributesJson,
                AnalyticsColumn::Labels,
                AnalyticsColumn::Metadata,
            ],
        };
        assert(columns@ =~= self.declared());
        columns
    }

    /// Parent telemetry signal containing this relation.
    #[must_use]
    pub fn signal(self) -> (signal: &'static str)
        ensures
            signal@ == self.parent_signal(),
    {
        match self {
            AnalyticsRelation::Logs => "logs",
            AnalyticsRelation::Spans => "traces",
            AnalyticsRelation::SpanEvents => "traces",
            AnalyticsRelation::SpanLinks => "traces",
            AnalyticsRelation::MetricPoints => "metrics",
            AnalyticsRelation::MetricExemplars => "metrics",
        }
    }
}

/// How the values of a column are represented.
#[derive(Debug, Clone, Copy, PartialEq, Eq, Structural)]
pub enum ColumnKind {
    /// UTF-8 text.
    Text,
    /// UTC nanoseconds.
    Timestamp,
    /// Unsigned 32-bit integer.
    UInt32,
    /// Unsigned 64-bit integer.
    UInt64,
    /// Signed 32-bit integer.
    Int32,
    /// Signed 64-bit integer.
    Int64,
    /// Boolean.
    Boolean,
    /// Map from text to text.
    TextMap,
}

/// One stable column available from at least one analytical relation.
#[derive(Debug, Clone, Copy, PartialEq, Eq, PartialOrd, Ord, Hash, Structural)]
pub enum AnalyticsColumn {
    /// Column `tenant`.
    Tenant,
    /// Column `signal`.
    Signal,
    /// Column `timestamp`.
    Timestamp,
    /// Column `parent_timestamp`.
    ParentTimestamp,
    /// Column `observed_timestamp`.
    ObservedTimestamp,
    /// Column `start_timestamp`.
    StartTimestamp,
    /// Column `end_timestamp`.
    EndTimestamp,
    /// Column `partition`.
    Partition,
    /// Column `offset`.
    Offset,
    /// Column `ordinal`.
    Ordinal,
    /// Column `resource_id`.
    ResourceId,
    /// Column `scope_id`.
    ScopeId,
    /// Column `trace_id`.
    TraceId,
    /// Column `span_id`.
    SpanId,
    /// Column `parent_span_id`.
    ParentSpanId,
    /// Column `linked_trace_id`.
    LinkedTraceId,
    /// Column `linked_span_id`.
    LinkedSpanId,
    /// Column `series_id`.
    SeriesId,
    /// Column `message`.
    Message,
    /// Column `body_json`.
    BodyJson,
    /// Column `name`.
    Name,
    /// Column `event_name`.
    EventName,
    /// Column `severity_number`.
    SeverityNumber,
    /// Column `severity_text`.
    SeverityText,
    /// Column `kind`.
    Kind,
    /// Column `duration_nanos`.
    DurationNanos,
    /// Column `status_code`.
    StatusCode,
    /// Column `status_message`.
    StatusMessage,
    /// Column `trace_state`.
    TraceState,
    /// Column `flags`.
    Flags,
    /// Column `dropped_attributes_count`.
    DroppedAttributesCount,
    /// Column `dropped_events_count`.
    DroppedEventsCount,
    /// Column `dropped_links_count`.
    DroppedLinksCount,
    /// Column `labels`.
    Labels,
    /// Column `metadata`.
    Metadata,
    /// Column `attributes`.
    Attributes,
    /// Column `resource_attributes`.
    ResourceAttributes,
    /// Column `scope_attributes`.
    ScopeAttributes,
    /// Column `attribute_ids`.
    AttributeIds,
    /// Column `resource_attribute_ids`.
    ResourceAttributeIds,
    /// Column `scope_attribute_ids`.
    ScopeAttributeIds,
    /// Column `attributes_json`.
    AttributesJson,
    /// Column `resource_attributes_json`.
    ResourceAttributesJson,
    /// Column `scope_attributes_json`.
    ScopeAttributesJson,
    /// Column `events_json`.
    EventsJson,
    /// Column `links_json`.
    LinksJson,
    /// Column `description`.
    Description,
    /// Column `unit`.
    Unit,
    /// Column `metric_kind`.
    MetricKind,
    /// Column `temporality`.
    Temporality,
    /// Column `monotonic`.
    Monotonic,
    /// Column `value_type`.
    ValueType,
    /// Column `scalar_integer`.
    ScalarInteger,
    /// Column `scalar_double_bits`.
    ScalarDoubleBits,
    /// Column `value_json`.
    ValueJson,
    /// Column `exemplars_json`.
    ExemplarsJson,
}

impl AnalyticsColumn {
    /// The column name.
    pub open spec fn wire_name(self) -> Seq<char> {
        match self {
            AnalyticsColumn::Tenant => "tenant"@,
            AnalyticsColumn::Signal => "signal"@,
            AnalyticsColumn::Timestamp => "timestamp"@,
            AnalyticsColumn::ParentTimestamp => "parent_timestamp"@,
            AnalyticsColumn::ObservedTimestamp => "observed_timestamp"@,
            AnalyticsColumn::StartTimestamp => "start_timestamp"@,
            AnalyticsColumn::EndTimestamp => "end_timestamp"@,
            AnalyticsColumn::Partition => "partition"@,
            AnalyticsColumn::Offset => "offset"@,
            AnalyticsColumn::Ordinal => "ordinal"@,
            AnalyticsColumn::ResourceId => "resource_id"@,
            AnalyticsColumn::ScopeId => "scope_id"@,
            AnalyticsColumn::TraceId => "trace_id"@,
            AnalyticsColumn::SpanId => "span_id"@,
            AnalyticsColumn::ParentSpanId => "parent_span_id"@,
            AnalyticsColumn::LinkedTraceId => "linked_trace_id"@,
            AnalyticsColumn::LinkedSpanId => "linked_span_id"@,
            AnalyticsColumn::SeriesId => "series_id"@,
            AnalyticsColumn::Message => "message"@,
            AnalyticsColumn::BodyJson => "body_json"@,
            AnalyticsColumn::Name => "name"@,
            AnalyticsColumn::EventName => "event_name"@,
            AnalyticsColumn::SeverityNumber => "severity_number"@,
            AnalyticsColumn::SeverityText => "severity_text"@,
            AnalyticsColumn::Kind => "kind"@,
            AnalyticsColumn::DurationNanos => "duration_nanos"@,
            AnalyticsColumn::StatusCode => "status_code"@,
            AnalyticsColumn::StatusMessage => "status_message"@,
            AnalyticsColumn::TraceState => "trace_state"@,
            AnalyticsColumn::Flags => "flags"@,
            AnalyticsColumn::DroppedAttributesCount => "dropped_attributes_count"@,
            AnalyticsColumn::DroppedEventsCount => "dropped_events_count"@,
            AnalyticsColumn::DroppedLinksCount => "dropped_links_count"@,
            AnalyticsColumn::Labels => "labels"@,
            AnalyticsColumn::Metadata => "metadata"@,
            AnalyticsColumn::Attributes => "attributes"@,
            AnalyticsColumn::ResourceAttributes => "resource_attributes"@,
            AnalyticsColumn::ScopeAttributes => "scope_attributes"@,
            AnalyticsColumn::AttributeIds => "attribute_ids"@,
            AnalyticsColumn::ResourceAttributeIds => "resource_attribute_ids"@,
            AnalyticsColumn::ScopeAttributeIds => "scope_attribute_ids"@,
            AnalyticsColumn::AttributesJson => "attributes_json"@,
            AnalyticsColumn::ResourceAttributesJson => "resource_attributes_json"@,
            AnalyticsColumn::ScopeAttributesJson => "scope_attributes_json"@,
            AnalyticsColumn::EventsJson => "events_json"@,
            AnalyticsColumn::LinksJson => "links_json"@,
            AnalyticsColumn::Description => "description"@,
            AnalyticsColumn::Unit => "unit"@,
            AnalyticsColumn::MetricKind => "metric_kind"@,
            AnalyticsColumn::Temporality => "temporality"@,
            AnalyticsColumn::Monotonic => "monotonic"@,
            AnalyticsColumn::ValueType => "value_type"@,
            AnalyticsColumn::ScalarInteger => "scalar_integer"@,
            AnalyticsColumn::ScalarDoubleBits => "scalar_double_bits"@,
            AnalyticsColumn::ValueJson => "value_json"@,
            AnalyticsColumn::ExemplarsJson => "exemplars_json"@,
        }
    }

    /// Whether a row may lack a value.
    pub open spec fn optional(self) -> bool {
        match self {
            AnalyticsColumn::Tenant => false,
            AnalyticsColumn::Signal => false,
            AnalyticsColumn::Timestamp => false,
            AnalyticsColumn::Partition => false,
            AnalyticsColumn::Offset => false,
            AnalyticsColumn::Labels => false,
            AnalyticsColumn::Metadata => false,
            AnalyticsColumn::Attributes => false,
            AnalyticsColumn::ResourceAttributes => false,
            AnalyticsColumn::ScopeAttributes => false,
            AnalyticsColumn::AttributeIds => false,
            AnalyticsColumn::ResourceAttributeIds => false,
            AnalyticsColumn::ScopeAttributeIds => false,
            _ => true,
        }
    }

    /// How values are represented.
    pub open spec fn representation(self) -> ColumnKind {
        match self {
            AnalyticsColumn::Timestamp => ColumnKind::Timestamp,
            AnalyticsColumn::ParentTimestamp => ColumnKind::Timestamp,
            AnalyticsColumn::ObservedTimestamp => ColumnKind::Timestamp,
            AnalyticsColumn::StartTimestamp => ColumnKind::Timestamp,
            AnalyticsColumn::EndTimestamp => ColumnKind::Timestamp,
            AnalyticsColumn::Partition => ColumnKind::UInt32,
            AnalyticsColumn::Offset => ColumnKind::UInt64,
            AnalyticsColumn::Ordinal => ColumnKind::UInt32,
            AnalyticsColumn::SeverityNumber => ColumnKind::Int32,
            AnalyticsColumn::Kind => ColumnKind::Int32,
            AnalyticsColumn::DurationNanos => ColumnKind::UInt64,
            AnalyticsColumn::StatusCode => ColumnKind::Int32,
            AnalyticsColumn::Flags => ColumnKind::UInt32,
            AnalyticsColumn::DroppedAttributesCount => ColumnKind::UInt32,
            AnalyticsColumn::DroppedEventsCount => ColumnKind::UInt32,
            AnalyticsColumn::DroppedLinksCount => ColumnKind::UInt32,
            AnalyticsColumn::Labels => ColumnKind::TextMap,
            AnalyticsColumn::Metadata => ColumnKind::TextMap,
            AnalyticsColumn::Attributes => ColumnKind::TextMap,
            AnalyticsColumn::ResourceAttributes => ColumnKind::TextMap,
            AnalyticsColumn::ScopeAttributes => ColumnKind::TextMap,
            AnalyticsColumn::AttributeIds => ColumnKind::TextMap,
            AnalyticsColumn::ResourceAttributeIds => ColumnKind::TextMap,
            AnalyticsColumn::ScopeAttributeIds => ColumnKind::TextMap,
            AnalyticsColumn::Temporality => ColumnKind::Int32,
            AnalyticsColumn::Monotonic => ColumnKind::Boolean,
            AnalyticsColumn::ScalarInteger => ColumnKind::Int64,
            AnalyticsColumn::ScalarDoubleBits => ColumnKind::UInt64,
            _ => ColumnKind::Text,
        }
    }

    /// Every column of the schema.
    pub open spec fn catalog() -> Seq<AnalyticsColumn> {
        seq![
            AnalyticsColumn::Tenant,
            AnalyticsColumn::Signal,
            AnalyticsColumn::Timestamp,
            AnalyticsColumn::ParentTimestamp,
            AnalyticsColumn::ObservedTimestamp,
            AnalyticsColumn::StartTimestamp,
            AnalyticsColumn::EndTimestamp,
            AnalyticsColumn::Partition,
            AnalyticsColumn::Offset,
            AnalyticsColumn::Ordinal,
            AnalyticsColumn::ResourceId,
            AnalyticsColumn::ScopeId,
            AnalyticsColumn::TraceId,
            AnalyticsColumn::SpanId,
            AnalyticsColumn::ParentSpanId,
            AnalyticsColumn::LinkedTraceId,
            AnalyticsColumn::LinkedSpanId,
            AnalyticsColumn::SeriesId,
            AnalyticsColumn::Message,
            AnalyticsColumn::BodyJson,
            AnalyticsColumn::Name,
            AnalyticsColumn::EventName,
            AnalyticsColumn::SeverityNumber,
            AnalyticsColumn::SeverityText,
            AnalyticsColumn::Kind,
            AnalyticsColumn::DurationNanos,
            AnalyticsColumn::StatusCode,
            AnalyticsColumn::StatusMessage,
            AnalyticsColumn::TraceState,
            AnalyticsColumn::Flags,
            AnalyticsColumn::DroppedAttributesCount,
            AnalyticsColumn::DroppedEventsCount,
            AnalyticsColumn::DroppedLinksCount,
            AnalyticsColumn::Labels,
            AnalyticsColumn::Metadata,
            AnalyticsColumn::Attributes,
            AnalyticsColumn::ResourceAttributes,
            AnalyticsColumn::ScopeAttributes,
            AnalyticsColumn::AttributeIds,
            AnalyticsColumn::ResourceAttributeIds,
            AnalyticsColumn::ScopeAttributeIds,
            AnalyticsColumn::AttributesJson,
            AnalyticsColumn::ResourceAttributesJson,
            AnalyticsColumn::ScopeAttributesJson,
            AnalyticsColumn::EventsJson,
            AnalyticsColumn::LinksJson,
            AnalyticsColumn::Description,
            AnalyticsColumn::Unit,
            AnalyticsColumn::MetricKind,
            AnalyticsColumn::Temporality,
            AnalyticsColumn::Monotonic,
            AnalyticsColumn::ValueType,
            AnalyticsColumn::ScalarInteger,
            AnalyticsColumn::ScalarDoubleBits,
            AnalyticsColumn::ValueJson,
            AnalyticsColumn::ExemplarsJson,
        ]
    }

    /// Position in the catalog.
    pub open spec fn position(self) -> int {
        match self {
            AnalyticsColumn::Tenant => 0,
            AnalyticsColumn::Signal => 1,
            AnalyticsColumn::Timestamp => 2,
            AnalyticsColumn::ParentTimestamp => 3,
            AnalyticsColumn::ObservedTimestamp => 4,
            AnalyticsColumn::StartTimestamp => 5,
            AnalyticsColumn::EndTimestamp => 6,
            AnalyticsColumn::Partition => 7,
            AnalyticsColumn::Offset => 8,
            AnalyticsColumn::Ordinal => 9,
            AnalyticsColumn::ResourceId => 10,
            AnalyticsColumn::ScopeId => 11,
            AnalyticsColumn::TraceId => 12,
            AnalyticsColumn::SpanId => 13,
            AnalyticsColumn::ParentSpanId => 14,
            AnalyticsColumn::LinkedTraceId => 15,
            AnalyticsColumn::LinkedSpanId => 16,
            AnalyticsColumn::SeriesId => 17,
            AnalyticsColumn::Message => 18,
            AnalyticsColumn::BodyJson => 19,
            AnalyticsColumn::Name => 20,
            AnalyticsColumn::EventName => 21,
            AnalyticsColumn::SeverityNumber => 22,
            AnalyticsColumn::SeverityText => 23,
            AnalyticsColumn::Kind => 24,
            AnalyticsColumn::DurationNanos => 25,
            AnalyticsColumn::StatusCode => 26,
            AnalyticsColumn::StatusMessage => 27,
            AnalyticsColumn::TraceState => 28,
            AnalyticsColumn::Flags => 29,
            AnalyticsColumn::DroppedAttributesCount => 30,
            AnalyticsColumn::DroppedEventsCount => 31,
            AnalyticsColumn::DroppedLinksCount => 32,
            AnalyticsColumn::Labels => 33,
            AnalyticsColumn::Metadata => 34,
            AnalyticsColumn::Attributes => 35,
            AnalyticsColumn::ResourceAttributes => 36,
            AnalyticsColumn::ScopeAttributes => 37,
            AnalyticsColumn::AttributeIds => 38,
            AnalyticsColumn::ResourceAttributeIds => 39,
            AnalyticsColumn::ScopeAttributeIds => 40,
            AnalyticsColumn::AttributesJson => 41,
            AnalyticsColumn::ResourceAttributesJson => 42,
            AnalyticsColumn::ScopeAttributesJson => 43,
            AnalyticsColumn::EventsJson => 44,
            AnalyticsColumn::LinksJson => 45,
            AnalyticsColumn::Description => 46,
            AnalyticsColumn::Unit => 47,
            AnalyticsColumn::MetricKind => 48,
            AnalyticsColumn::Temporality => 49,
            AnalyticsColumn::Monotonic => 50,
            AnalyticsColumn::ValueType => 51,
            AnalyticsColumn::ScalarInteger => 52,
            AnalyticsColumn::ScalarDoubleBits => 53,
            AnalyticsColumn::ValueJson => 54,
            AnalyticsColumn::ExemplarsJson => 55,
        }
    }

    /// Stable Arrow, JSON, and ClickHouse column name.
    #[must_use]
    pub fn name(self) -> (name: &'static str)
        ensures
            name@ == self.wire_name(),
    {
        match self {
            AnalyticsColumn::Tenant => "tenant",
            AnalyticsColumn::Signal => "signal",
            AnalyticsColumn::Timestamp => "timestamp",
            AnalyticsColumn::ParentTimestamp => "parent_timestamp",
            AnalyticsColumn::ObservedTimestamp => "observed_timestamp",
            AnalyticsColumn::StartTimestamp => "start_timestamp",
            AnalyticsColumn::EndTimestamp => "end_timestamp",
            AnalyticsColumn::Partition => "partition",
            AnalyticsColumn::Offset => "offset",
            AnalyticsColumn::Ordinal => "ordinal",
            AnalyticsColumn::ResourceId => "resource_id",
            AnalyticsColumn::ScopeId => "scope_id",
            AnalyticsColumn::TraceId => "trace_id",
            AnalyticsColumn::SpanId => "span_id",
            AnalyticsColumn::ParentSpanId => "parent_span_id",
            AnalyticsColumn::LinkedTraceId => "linked_trace_id",
            AnalyticsColumn::LinkedSpanId => "linked_span_id",
            AnalyticsColumn::SeriesId => "series_id",
            AnalyticsColumn::Message => "message",
            AnalyticsColumn::BodyJson => "body_json",
            AnalyticsColumn::Name => "name",
            AnalyticsColumn::EventName => "event_name",
            AnalyticsColumn::SeverityNumber => "severity_number",
            AnalyticsColumn::SeverityText => "severity_text",
            AnalyticsColumn::Kind => "kind",
            AnalyticsColumn::DurationNanos => "duration_nanos",
            AnalyticsColumn::StatusCode => "status_code",
            AnalyticsColumn::StatusMessage => "status_message",
            AnalyticsColumn::TraceState => "trace_state",
            AnalyticsColumn::Flags => "flags",
            AnalyticsColumn::DroppedAttributesCount => "dropped_attributes_count",
            AnalyticsColumn::DroppedEventsCount => "dropped_events_count",
            AnalyticsColumn::DroppedLinksCount => "dropped_links_count",
            AnalyticsColumn::Labels => "labels",
            AnalyticsColumn::Metadata => "metadata",
            AnalyticsColumn::Attributes => "attributes",
            AnalyticsColumn::ResourceAttributes => "resource_attributes",
            AnalyticsColumn::ScopeAttributes => "scope_attributes",
            AnalyticsColumn::AttributeIds => "attribute_ids",
            AnalyticsColumn::ResourceAttributeIds => "resource_attribute_ids",
            AnalyticsColumn::ScopeAttributeIds => "scope_attribute_ids",
            AnalyticsColumn::AttributesJson => "attributes_json",
            AnalyticsColumn::ResourceAttributesJson => "resource_attributes_json",
            AnalyticsColumn::ScopeAttributesJson => "scope_attributes_json",
            AnalyticsColumn::EventsJson => "events_json",
            AnalyticsColumn::LinksJson => "links_json",
            AnalyticsColumn::Description => "description",
            AnalyticsColumn::Unit => "unit",
            AnalyticsColumn::MetricKind => "metric_kind",
            AnalyticsColumn::Temporality => "temporality",
            AnalyticsColumn::Monotonic => "monotonic",
            AnalyticsColumn::ValueType => "value_type",
            AnalyticsColumn::ScalarInteger => "scalar_integer",
            AnalyticsColumn::ScalarDoubleBits => "scalar_double_bits",
            AnalyticsColumn::ValueJson => "value_json",
            AnalyticsColumn::ExemplarsJson => "exemplars_json",
        }
    }

    /// Every column of the schema, in catalog order.
    pub fn all() -> (columns: Vec<AnalyticsColumn>)
        ensures
            columns@ == Self::catalog(),
    {
        let columns = vec![
            AnalyticsColumn::Tenant,
            AnalyticsColumn::Signal,
            AnalyticsColumn::Timestamp,
            AnalyticsColumn::ParentTimestamp,
            AnalyticsColumn::ObservedTimestamp,
            AnalyticsColumn::StartTimestamp,
            AnalyticsColumn::EndTimestamp,
            AnalyticsColumn::Partition,
            AnalyticsColumn::Offset,
            AnalyticsColumn::Ordinal,
            AnalyticsColumn::ResourceId,
            AnalyticsColumn::ScopeId,
            AnalyticsColumn::TraceId,
            AnalyticsColumn::SpanId,
            AnalyticsColumn::ParentSpanId,
            AnalyticsColumn::LinkedTraceId,
            AnalyticsColumn::LinkedSpanId,
            AnalyticsColumn::SeriesId,
            AnalyticsColumn::Message,
            AnalyticsColumn::BodyJson,
            AnalyticsColumn::Name,
            AnalyticsColumn::EventName,
            AnalyticsColumn::SeverityNumber,
            AnalyticsColumn::SeverityText,
            AnalyticsColumn::Kind,
            AnalyticsColumn::DurationNanos,
            AnalyticsColumn::StatusCode,
            AnalyticsColumn::StatusMessage,
            AnalyticsColumn::TraceState,
            AnalyticsColumn::Flags,
            AnalyticsColumn::DroppedAttributesCount,
            AnalyticsColumn::DroppedEventsCount,
            AnalyticsColumn::DroppedLinksCount,
            AnalyticsColumn::Labels,
            AnalyticsColumn::Metadata,
            AnalyticsColumn::Attributes,
            AnalyticsColumn::ResourceAttributes,
            AnalyticsColumn::ScopeAttributes,
            AnalyticsColumn::AttributeIds,
            AnalyticsColumn::ResourceAttributeIds,
            AnalyticsColumn::ScopeAttributeIds,
            AnalyticsColumn::AttributesJson,
            AnalyticsColumn::ResourceAttributesJson,
            AnalyticsColumn::ScopeAttributesJson,
            AnalyticsColumn::EventsJson,
            AnalyticsColumn::LinksJson,
            AnalyticsColumn::Description,
            AnalyticsColumn::Unit,
            AnalyticsColumn::MetricKind,
            AnalyticsColumn::Temporality,
            AnalyticsColumn::Monotonic,
            AnalyticsColumn::ValueType,
            AnalyticsColumn::ScalarInteger,
            AnalyticsColumn::ScalarDoubleBits,
            AnalyticsColumn::ValueJson,
            AnalyticsColumn::ExemplarsJson,
        ];
        assert(columns@ =~= Self::catalog());
        columns
    }

    /// Column of a name.
    pub fn parse(value: &str) -> (column: Option<Self>)
        ensures
            match column {
                Some(found) => found.wire_name() == value@,
                None => forall|other: AnalyticsColumn| #[trigger] other.wire_name() != value@,
            },
    {
        let columns = Self::all();
        let mut index: usize = 0;
        while index < columns.len()
            invariant
                columns@ == Self::catalog(),
                forall|i: int|
                    0 <= i < index ==> (#[trigger] Self::catalog()[i]).wire_name() != value@,
            decreases columns@.len() - index,
        {
            if same_str(columns[index].name(), value) {
                return Some(columns[index]);
            }
            index = index + 1;
        }
        assert forall|other: AnalyticsColumn| #[trigger] other.wire_name() != value@ by {
            catalog_lists_every_column(other);
            assert(Self::catalog()[other.position()] == other);
        }
        None
    }

    /// Whether a row may lack a value of this column.
    pub fn nullable(self) -> (nullable: bool)
        ensures
            nullable == self.optional(),
    {
        match self {
            AnalyticsColumn::Tenant => false,
            AnalyticsColumn::Signal => false,
            AnalyticsColumn::Timestamp => false,
            AnalyticsColumn::Partition => false,
            AnalyticsColumn::Offset => false,
            AnalyticsColumn::Labels => false,
            AnalyticsColumn::Metadata => false,
            AnalyticsColumn::Attributes => false,
            AnalyticsColumn::ResourceAttributes => false,
            AnalyticsColumn::ScopeAttributes => false,
            AnalyticsColumn::AttributeIds => false,
            AnalyticsColumn::ResourceAttributeIds => false,
            AnalyticsColumn::ScopeAttributeIds => false,
            _ => true,
        }
    }

    /// How the values of this column are represented.
    pub fn kind(self) -> (kind: ColumnKind)
        ensures
            kind == self.representation(),
    {
        match self {
            AnalyticsColumn::Timestamp => ColumnKind::Timestamp,
            AnalyticsColumn::ParentTimestamp => ColumnKind::Timestamp,
            AnalyticsColumn::ObservedTimestamp => ColumnKind::Timestamp,
            AnalyticsColumn::StartTimestamp => ColumnKind::Timestamp,
            AnalyticsColumn::EndTimestamp => ColumnKind::Timestamp,
            AnalyticsColumn::Partition => ColumnKind::UInt32,
            AnalyticsColumn::Offset => ColumnKind::UInt64,
            AnalyticsColumn::Ordinal => ColumnKind::UInt32,
            AnalyticsColumn::SeverityNumber => ColumnKind::Int32,
            AnalyticsColumn::Kind => ColumnKind::Int32,
            AnalyticsColumn::DurationNanos => ColumnKind::UInt64,
            AnalyticsColumn::StatusCode => ColumnKind::Int32,
            AnalyticsColumn::Flags => ColumnKind::UInt32,
            AnalyticsColumn::DroppedAttributesCount => ColumnKind::UInt32,
            AnalyticsColumn::DroppedEventsCount => ColumnKind::UInt32,
            AnalyticsColumn::DroppedLinksCount => ColumnKind::UInt32,
            AnalyticsColumn::Labels => ColumnKind::TextMap,
            AnalyticsColumn::Metadata => ColumnKind::TextMap,
            AnalyticsColumn::Attributes => ColumnKind::TextMap,
            AnalyticsColumn::ResourceAttributes => ColumnKind::TextMap,
            AnalyticsColumn::ScopeAttributes => ColumnKind::TextMap,
            AnalyticsColumn::AttributeIds => ColumnKind::TextMap,
            AnalyticsColumn::ResourceAttributeIds => ColumnKind::TextMap,
            AnalyticsColumn::ScopeAttributeIds => ColumnKind::TextMap,
            AnalyticsColumn::Temporality => ColumnKind::Int32,
            AnalyticsColumn::Monotonic => ColumnKind::Boolean,
            AnalyticsColumn::ScalarInteger => ColumnKind::Int64,
            AnalyticsColumn::ScalarDoubleBits => ColumnKind::UInt64,
            _ => ColumnKind::Text,
        }
    }
}

/// The catalog lists every column, once, at its position.
pub proof fn catalog_lists_every_column(column: AnalyticsColumn)
    ensures
        0 <= column.position() < AnalyticsColumn::catalog().len(),
        AnalyticsColumn::catalog()[column.position()] == column,
{
}

/// Every relation name denotes its own relation.
pub proof fn relation_names_read_back(relation: AnalyticsRelation)
    ensures
        AnalyticsRelation::named(relation.wire_name()) == Some(relation),
{
    reveal_strlit("logs");
    reveal_strlit("spans");
    reveal_strlit("span_events");
    reveal_strlit("span_links");
    reveal_strlit("metric_points");
    reveal_strlit("metric_exemplars");
    reveal_strlit("metrics");
    assert("logs"@.len() == 4);
    assert("spans"@.len() == 5);
    assert("span_events"@.len() == 11);
    assert("span_links"@.len() == 10);
    assert("metric_points"@.len() == 13);
    assert("metric_exemplars"@.len() == 16);
    assert("metrics"@.len() == 7);
}

/// No relation declares a column twice.
pub proof fn relation_columns_are_unique(relation: AnalyticsRelation)
    ensures
        relation.declared().no_duplicates(),
{
}

/// No two columns share a name.
#[verifier::rlimit(60)]
pub proof fn column_names_are_distinct(left: AnalyticsColumn, right: AnalyticsColumn)
    requires
        left.wire_name() == right.wire_name(),
    ensures
        left == right,
{
    reveal_strlit("tenant");
    reveal_strlit("signal");
    reveal_strlit("timestamp");
    reveal_strlit("parent_timestamp");
    reveal_strlit("observed_timestamp");
    reveal_strlit("start_timestamp");
    reveal_strlit("end_timestamp");
    reveal_strlit("partition");
    reveal_strlit("offset");
    reveal_strlit("ordinal");
    reveal_strlit("resource_id");
    reveal_strlit("scope_id");
    reveal_strlit("trace_id");
    reveal_strlit("span_id");
    reveal_strlit("parent_span_id");
    reveal_strlit("linked_trace_id");
    reveal_strlit("linked_span_id");
    reveal_strlit("series_id");
    reveal_strlit("message");
    reveal_strlit("body_json");
    reveal_strlit("name");
    reveal_strlit("event_name");
    reveal_strlit("severity_number");
    reveal_strlit("severity_text");
    reveal_strlit("kind");
    reveal_strlit("duration_nanos");
    reveal_strlit("status_code");
    reveal_strlit("status_message");
    reveal_strlit("trace_state");
    reveal_strlit("flags");
    reveal_strlit("dropped_attributes_count");
    reveal_strlit("dropped_events_count");
    reveal_strlit("dropped_links_count");
    reveal_strlit("labels");
    reveal_strlit("metadata");
    reveal_strlit("attributes");
    reveal_strlit("resource_attributes");
    reveal_strlit("scope_attributes");
    reveal_strlit("attribute_ids");
    reveal_strlit("resource_attribute_ids");
    reveal_strlit("scope_attribute_ids");
    reveal_strlit("attributes_json");
    reveal_strlit("resource_attributes_json");
    reveal_strlit("scope_attributes_json");
    reveal_strlit("events_json");
    reveal_strlit("links_json");
    reveal_strlit("description");
    reveal_strlit("unit");
    reveal_strlit("metric_kind");
    reveal_strlit("temporality");
    reveal_strlit("monotonic");
    reveal_strlit("value_type");
    reveal_strlit("scalar_integer");
    reveal_strlit("scalar_double_bits");
    reveal_strlit("value_json");
    reveal_strlit("exemplars_json");
    assert("tenant"@.len() == 6);
    assert("signal"@.len() == 6);
    assert("timestamp"@.len() == 9);
    assert("parent_timestamp"@.len() == 16);
    assert("observed_timestamp"@.len() == 18);
    assert("start_timestamp"@.len() == 15);
    assert("end_timestamp"@.len() == 13);
    assert("partition"@.len() == 9);
    assert("offset"@.len() == 6);
    assert("ordinal"@.len() == 7);
    assert("resource_id"@.len() == 11);
    assert("scope_id"@.len() == 8);
    assert("trace_id"@.len() == 8);
    assert("span_id"@.len() == 7);
    assert("parent_span_id"@.len() == 14);
    assert("linked_trace_id"@.len() == 15);
    assert("linked_span_id"@.len() == 14);
    assert("series_id"@.len() == 9);
    assert("message"@.len() == 7);
    assert("body_json"@.len() == 9);
    assert("name"@.len() == 4);
    assert("event_name"@.len() == 10);
    assert("severity_number"@.len() == 15);
    assert("severity_text"@.len() == 13);
    assert("kind"@.len() == 4);
    assert("duration_nanos"@.len() == 14);
    assert("status_code"@.len() == 11);
    assert("status_message"@.len() == 14);
    assert("trace_state"@.len() == 11);
    assert("flags"@.len() == 5);
    assert("dropped_attributes_count"@.len() == 24);
    assert("dropped_events_count"@.len() == 20);
    assert("dropped_links_count"@.len() == 19);
    assert("labels"@.len() == 6);
    assert("metadata"@.len() == 8);
    assert("attributes"@.len() == 10);
    assert("resource_attributes"@.len() == 19);
    assert("scope_attributes"@.len() == 16);
    assert("attribute_ids"@.len() == 13);
    assert("resource_attribute_ids"@.len() == 22);
    assert("scope_attribute_ids"@.len() == 19);
    assert("attributes_json"@.len() == 15);
    assert("resource_attributes_json"@.len() == 24);
    assert("scope_attributes_json"@.len() == 21);
    assert("events_json"@.len() == 11);
    assert("links_json"@.len() == 10);
    assert("description"@.len() == 11);
    assert("unit"@.len() == 4);
    assert("metric_kind"@.len() == 11);
    assert("temporality"@.len() == 11);
    assert("monotonic"@.len() == 9);
    assert("value_type"@.len() == 10);
    assert("scalar_integer"@.len() == 14);
    assert("scalar_double_bits"@.len() == 18);
    assert("value_json"@.len() == 10);
    assert("exemplars_json"@.len() == 14);
    assert("tenant"@[0] != "signal"@[0]);
    assert("tenant"@[0] != "offset"@[0]);
    assert("tenant"@[0] != "labels"@[0]);
    assert("signal"@[0] != "offset"@[0]);
    assert("signal"@[0] != "labels"@[0]);
    assert("timestamp"@[0] != "partition"@[0]);
    assert("timestamp"@[0] != "series_id"@[0]);
    assert("timestamp"@[0] != "body_json"@[0]);
    assert("timestamp"@[0] != "monotonic"@[0]);
    assert("parent_timestamp"@[0] != "scope_attributes"@[0]);
    assert("observed_timestamp"@[0] != "scalar_double_bits"@[0]);
    assert("start_timestamp"@[0] != "linked_trace_id"@[0]);
    assert("start_timestamp"@[1] != "severity_number"@[1]);
    assert("start_timestamp"@[0] != "attributes_json"@[0]);
    assert("end_timestamp"@[0] != "severity_text"@[0]);
    assert("end_timestamp"@[0] != "attribute_ids"@[0]);
    assert("partition"@[0] != "series_id"@[0]);
    assert("partition"@[0] != "body_json"@[0]);
    assert("partition"@[0] != "monotonic"@[0]);
    assert("offset"@[0] != "labels"@[0]);
    assert("ordinal"@[0] != "span_id"@[0]);
    assert("ordinal"@[0] != "message"@[0]);
    assert("resource_id"@[0] != "status_code"@[0]);
    assert("resource_id"@[0] != "trace_state"@[0]);
    assert("resource_id"@[0] != "events_json"@[0]);
    assert("resource_id"@[0] != "description"@[0]);
    assert("resource_id"@[0] != "metric_kind"@[0]);
    assert("resource_id"@[0] != "temporality"@[0]);
    assert("scope_id"@[0] != "trace_id"@[0]);
    assert("scope_id"@[0] != "metadata"@[0]);
    assert("trace_id"@[0] != "metadata"@[0]);
    assert("span_id"@[0] != "message"@[0]);
    assert("parent_span_id"@[0] != "linked_span_id"@[0]);
    assert("parent_span_id"@[0] != "duration_nanos"@[0]);
    assert("parent_span_id"@[0] != "status_message"@[0]);
    assert("parent_span_id"@[0] != "scalar_integer"@[0]);
    assert("parent_span_id"@[0] != "exemplars_json"@[0]);
    assert("linked_trace_id"@[0] != "severity_number"@[0]);
    assert("linked_trace_id"@[0] != "attributes_json"@[0]);
    assert("linked_span_id"@[0] != "duration_nanos"@[0]);
    assert("linked_span_id"@[0] != "status_message"@[0]);
    assert("linked_span_id"@[0] != "scalar_integer"@[0]);
    assert("linked_span_id"@[0] != "exemplars_json"@[0]);
    assert("series_id"@[0] != "body_json"@[0]);
    assert("series_id"@[0] != "monotonic"@[0]);
    assert("body_json"@[0] != "monotonic"@[0]);
    assert("name"@[0] != "kind"@[0]);
    assert("name"@[0] != "unit"@[0]);
    assert("event_name"@[0] != "attributes"@[0]);
    assert("event_name"@[0] != "links_json"@[0]);
    assert("event_name"@[0] != "value_type"@[0]);
    assert("event_name"@[0] != "value_json"@[0]);
    assert("severity_number"@[0] != "attributes_json"@[0]);
    assert("severity_text"@[0] != "attribute_ids"@[0]);
    assert("kind"@[0] != "unit"@[0]);
    assert("duration_nanos"@[0] != "status_message"@[0]);
    assert("duration_nanos"@[0] != "scalar_integer"@[0]);
    assert("duration_nanos"@[0] != "exemplars_json"@[0]);
    assert("status_code"@[0] != "trace_state"@[0]);
    assert("status_code"@[0] != "events_json"@[0]);
    assert("status_code"@[0] != "description"@[0]);
    assert("status_code"@[0] != "metric_kind"@[0]);
    assert("status_code"@[0] != "temporality"@[0]);
    assert("status_message"@[1] != "scalar_integer"@[1]);
    assert("status_message"@[0] != "exemplars_json"@[0]);
    assert("trace_state"@[0] != "events_json"@[0]);
    assert("trace_state"@[0] != "description"@[0]);
    assert("trace_state"@[0] != "metric_kind"@[0]);
    assert("trace_state"@[1] != "temporality"@[1]);
    assert("dropped_attributes_count"@[0] != "resource_attributes_json"@[0]);
    assert("dropped_links_count"@[0] != "resource_attributes"@[0]);
    assert("dropped_links_count"@[0] != "scope_attribute_ids"@[0]);
    assert("attributes"@[0] != "links_json"@[0]);
    assert("attributes"@[0] != "value_type"@[0]);
    assert("attributes"@[0] != "value_json"@[0]);
    assert("resource_attributes"@[0] != "scope_attribute_ids"@[0]);
    assert("events_json"@[0] != "description"@[0]);
    assert("events_json"@[0] != "metric_kind"@[0]);
    assert("events_json"@[0] != "temporality"@[0]);
    assert("links_json"@[0] != "value_type"@[0]);
    assert("links_json"@[0] != "value_json"@[0]);
    assert("description"@[0] != "metric_kind"@[0]);
    assert("description"@[0] != "temporality"@[0]);
    assert("metric_kind"@[0] != "temporality"@[0]);
    assert("value_type"@[6] != "value_json"@[6]);
    assert("scalar_integer"@[0] != "exemplars_json"@[0]);
}

} // verus!
