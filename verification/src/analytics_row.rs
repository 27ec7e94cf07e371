//! Normalized analytical rows.

use vstd::prelude::*;

use crate::analytics_columns::AnalyticsColumn;
use crate::error::{ApiErrorKind, LokiApiError};
use crate::string_map::StringMap;

verus! {

/// One value of one column.
#[verifier::ext_equal]
pub enum Cell {
    /// No value.
    Null,
    /// Text.
    Text(Seq<char>),
    /// UTC nanoseconds.
    Timestamp(i64),
    /// Unsigned 32-bit integer.
    UInt32(u32),
    /// Unsigned 64-bit integer.
    UInt64(u64),
    /// Signed 32-bit integer.
    Int32(i32),
    /// Signed 64-bit integer.
    Int64(i64),
    /// Boolean.
    Boolean(bool),
    /// Map from text to text.
    TextMap(Map<Seq<char>, Seq<char>>),
}

/// Optional text as a cell.
pub open spec fn text_cell(text: Option<String>) -> Cell {
    match text {
        Some(found) => Cell::Text(found@),
        None => Cell::Null,
    }
}

/// Optional time as a cell.
pub open spec fn timestamp_cell(time: Option<i64>) -> Cell {
    match time {
        Some(found) => Cell::Timestamp(found),
        None => Cell::Null,
    }
}

/// Optional unsigned 32-bit integer as a cell.
pub open spec fn u32_cell(number: Option<u32>) -> Cell {
    match number {
        Some(found) => Cell::UInt32(found),
        None => Cell::Null,
    }
}

/// Optional unsigned 64-bit integer as a cell.
pub open spec fn u64_cell(number: Option<u64>) -> Cell {
    match number {
        Some(found) => Cell::UInt64(found),
        None => Cell::Null,
    }
}

/// Optional signed 32-bit integer as a cell.
pub open spec fn i32_cell(number: Option<i32>) -> Cell {
    match number {
        Some(found) => Cell::Int32(found),
        None => Cell::Null,
    }
}

/// Optional signed 64-bit integer as a cell.
pub open spec fn i64_cell(number: Option<i64>) -> Cell {
    match number {
        Some(found) => Cell::Int64(found),
        None => Cell::Null,
    }
}

/// Optional boolean as a cell.
pub open spec fn bool_cell(flag: Option<bool>) -> Cell {
    match flag {
        Some(found) => Cell::Boolean(found),
        None => Cell::Null,
    }
}

/// One normalized row shared by the relation-specific writers.
#[derive(Debug, PartialEq, Eq)]
pub struct AnalyticsRow {
    /// Value of column `tenant`.
    pub tenant: String,
    /// Value of column `signal`.
    pub signal: String,
    /// Value of column `timestamp`.
    pub timestamp_unix_nanos: i64,
    /// Value of column `parent_timestamp`.
    pub parent_timestamp_unix_nanos: Option<i64>,
    /// Value of column `observed_timestamp`.
    pub observed_timestamp_unix_nanos: Option<i64>,
    /// Value of column `start_timestamp`.
    pub start_timestamp_unix_nanos: Option<i64>,
    /// Value of column `end_timestamp`.
    pub end_timestamp_unix_nanos: Option<i64>,
    /// Value of column `partition`.
    pub partition: u32,
    /// Value of column `offset`.
    pub offset: u64,
    /// Value of column `ordinal`.
    pub ordinal: Option<u32>,
    /// Value of column `resource_id`.
    pub resource_id: Option<String>,
    /// Value of column `scope_id`.
    pub scope_id: Option<String>,
    /// Value of column `trace_id`.
    pub trace_id: Option<String>,
    /// Value of column `span_id`.
    pub span_id: Option<String>,
    /// Value of column `parent_span_id`.
    pub parent_span_id: Option<String>,
    /// Value of column `linked_trace_id`.
    pub linked_trace_id: Option<String>,
    /// Value of column `linked_span_id`.
    pub linked_span_id: Option<String>,
    /// Value of column `series_id`.
    pub series_id: Option<String>,
    /// Value of column `message`.
    pub message: Option<String>,
    /// Value of column `body_json`.
    pub body_json: Option<String>,
    /// Value of column `name`.
    pub name: Option<String>,
    /// Value of column `event_name`.
    pub event_name: Option<String>,
    /// Value of column `severity_number`.
    pub severity_number: Option<i32>,
    /// Value of column `severity_text`.
    pub severity_text: Option<String>,
    /// Value of column `kind`.
    pub kind: Option<i32>,
    /// Value of column `duration_nanos`.
    pub duration_nanos: Option<u64>,
    /// Value of column `status_code`.
    pub status_code: Option<i32>,
    /// Value of column `status_message`.
    pub status_message: Option<String>,
    /// Value of column `trace_state`.
    pub trace_state: Option<String>,
    /// Value of column `flags`.
    pub flags: Option<u32>,
    /// Value of column `dropped_attributes_count`.
    pub dropped_attributes_count: Option<u32>,
    /// Value of column `dropped_events_count`.
    pub dropped_events_count: Option<u32>,
    /// Value of column `dropped_links_count`.
    pub dropped_links_count: Option<u32>,
    /// Value of column `labels`.
    pub labels: StringMap,
    /// Value of column `metadata`.
    pub metadata: StringMap,
    /// Value of column `attributes`.
    pub attributes: StringMap,
    /// Value of column `resource_attributes`.
    pub resource_attributes: StringMap,
    /// Value of column `scope_attributes`.
    pub scope_attributes: StringMap,
    /// Value of column `attribute_ids`.
    pub attribute_ids: StringMap,
    /// Value of column `resource_attribute_ids`.
    pub resource_attribute_ids: StringMap,
    /// Value of column `scope_attribute_ids`.
    pub scope_attribute_ids: StringMap,
    /// Value of column `attributes_json`.
    pub attributes_json: Option<String>,
    /// Value of column `resource_attributes_json`.
    pub resource_attributes_json: Option<String>,
    /// Value of column `scope_attributes_json`.
    pub scope_attributes_json: Option<String>,
    /// Value of column `events_json`.
    pub events_json: Option<String>,
    /// Value of column `links_json`.
    pub links_json: Option<String>,
    /// Value of column `description`.
    pub description: Option<String>,
    /// Value of column `unit`.
    pub unit: Option<String>,
    /// Value of column `metric_kind`.
    pub metric_kind: Option<String>,
    /// Value of column `temporality`.
    pub temporality: Option<i32>,
    /// Value of column `monotonic`.
    pub monotonic: Option<bool>,
    /// Value of column `value_type`.
    pub value_type: Option<String>,
    /// Value of column `scalar_integer`.
    pub scalar_integer: Option<i64>,
    /// Value of column `scalar_double_bits`.
    pub scalar_double_bits: Option<u64>,
    /// Value of column `value_json`.
    pub value_json: Option<String>,
    /// Value of column `exemplars_json`.
    pub exemplars_json: Option<String>,
}

impl AnalyticsRow {
    /// The value of one column.
    pub open spec fn cell(&self, column: AnalyticsColumn) -> Cell {
        match column {
            AnalyticsColumn::Tenant => Cell::Text(self.tenant@),
            AnalyticsColumn::Signal => Cell::Text(self.signal@),
            AnalyticsColumn::Timestamp => Cell::Timestamp(self.timestamp_unix_nanos),
            AnalyticsColumn::ParentTimestamp => timestamp_cell(self.parent_timestamp_unix_nanos),
            AnalyticsColumn::ObservedTimestamp => timestamp_cell(self.observed_timestamp_unix_nanos),
            AnalyticsColumn::StartTimestamp => timestamp_cell(self.start_timestamp_unix_nanos),
            AnalyticsColumn::EndTimestamp => timestamp_cell(self.end_timestamp_unix_nanos),
            AnalyticsColumn::Partition => Cell::UInt32(self.partition),
            AnalyticsColumn::Offset => Cell::UInt64(self.offset),
            AnalyticsColumn::Ordinal => u32_cell(self.ordinal),
            AnalyticsColumn::ResourceId => text_cell(self.resource_id),
            AnalyticsColumn::ScopeId => text_cell(self.scope_id),
            AnalyticsColumn::TraceId => text_cell(self.trace_id),
            AnalyticsColumn::SpanId => text_cell(self.span_id),
            AnalyticsColumn::ParentSpanId => text_cell(self.parent_span_id),
            AnalyticsColumn::LinkedTraceId => text_cell(self.linked_trace_id),
            AnalyticsColumn::LinkedSpanId => text_cell(self.linked_span_id),
            AnalyticsColumn::SeriesId => text_cell(self.series_id),
            AnalyticsColumn::Message => text_cell(self.message),
            AnalyticsColumn::BodyJson => text_cell(self.body_json),
            AnalyticsColumn::Name => text_cell(self.name),
            AnalyticsColumn::EventName => text_cell(self.event_name),
            AnalyticsColumn::SeverityNumber => i32_cell(self.severity_number),
            AnalyticsColumn::SeverityText => text_cell(self.severity_text),
            AnalyticsColumn::Kind => i32_cell(self.kind),
            AnalyticsColumn::DurationNanos => u64_cell(self.duration_nanos),
            AnalyticsColumn::StatusCode => i32_cell(self.status_code),
            AnalyticsColumn::StatusMessage => text_cell(self.status_message),
            AnalyticsColumn::TraceState => text_cell(self.trace_state),
            AnalyticsColumn::Flags => u32_cell(self.flags),
            AnalyticsColumn::DroppedAttributesCount => u32_cell(self.dropped_attributes_count),
            AnalyticsColumn::DroppedEventsCount => u32_cell(self.dropped_events_count),
            AnalyticsColumn::DroppedLinksCount => u32_cell(self.dropped_links_count),
            AnalyticsColumn::Labels => Cell::TextMap(self.labels@),
            AnalyticsColumn::Metadata => Cell::TextMap(self.metadata@),
            AnalyticsColumn::Attributes => Cell::TextMap(self.attributes@),
            AnalyticsColumn::ResourceAttributes => Cell::TextMap(self.resource_attributes@),
            AnalyticsColumn::ScopeAttributes => Cell::TextMap(self.scope_attributes@),
            AnalyticsColumn::AttributeIds => Cell::TextMap(self.attribute_ids@),
            AnalyticsColumn::ResourceAttributeIds => Cell::TextMap(self.resource_attribute_ids@),
            AnalyticsColumn::ScopeAttributeIds => Cell::TextMap(self.scope_attribute_ids@),
            AnalyticsColumn::AttributesJson => text_cell(self.attributes_json),
            AnalyticsColumn::ResourceAttributesJson => text_cell(self.resource_attributes_json),
            AnalyticsColumn::ScopeAttributesJson => text_cell(self.scope_attributes_json),
            AnalyticsColumn::EventsJson => text_cell(self.events_json),
            AnalyticsColumn::LinksJson => text_cell(self.links_json),
            AnalyticsColumn::Description => text_cell(self.description),
            AnalyticsColumn::Unit => text_cell(self.unit),
            AnalyticsColumn::MetricKind => text_cell(self.metric_kind),
            AnalyticsColumn::Temporality => i32_cell(self.temporality),
            AnalyticsColumn::Monotonic => bool_cell(self.monotonic),
            AnalyticsColumn::ValueType => text_cell(self.value_type),
            AnalyticsColumn::ScalarInteger => i64_cell(self.scalar_integer),
            AnalyticsColumn::ScalarDoubleBits => u64_cell(self.scalar_double_bits),
            AnalyticsColumn::ValueJson => text_cell(self.value_json),
            AnalyticsColumn::ExemplarsJson => text_cell(self.exemplars_json),
        }
    }

    /// Whether a row holds only where and when its record is.
    pub open spec fn is_base(
        &self,
        tenant: Seq<char>,
        signal: Seq<char>,
        timestamp_unix_nanos: u64,
        partition: u32,
        offset: u64,
    ) -> bool {
        &&& self.tenant@ == tenant
        &&& self.signal@ == signal
        &&& self.timestamp_unix_nanos == timestamp_unix_nanos
        &&& self.parent_timestamp_unix_nanos is None
        &&& self.observed_timestamp_unix_nanos is None
        &&& self.start_timestamp_unix_nanos is None
        &&& self.end_timestamp_unix_nanos is None
        &&& self.partition == partition
        &&& self.offset == offset
        &&& self.ordinal is None
        &&& self.resource_id is None
        &&& self.scope_id is None
        &&& self.trace_id is None
        &&& self.span_id is None
        &&& self.parent_span_id is None
        &&& self.linked_trace_id is None
        &&& self.linked_span_id is None
        &&& self.series_id is None
        &&& self.message is None
        &&& self.body_json is None
        &&& self.name is None
        &&& self.event_name is None
        &&& self.severity_number is None
        &&& self.severity_text is None
        &&& self.kind is None
        &&& self.duration_nanos is None
        &&& self.status_code is None
        &&& self.status_message is None
        &&& self.trace_state is None
        &&& self.flags is None
        &&& self.dropped_attributes_count is None
        &&& self.dropped_events_count is None
        &&& self.dropped_links_count is None
        &&& self.labels@ == Map::<Seq<char>, Seq<char>>::empty()
        &&& self.metadata@ == Map::<Seq<char>, Seq<char>>::empty()
        &&& self.attributes@ == Map::<Seq<char>, Seq<char>>::empty()
        &&& self.resource_attributes@ == Map::<Seq<char>, Seq<char>>::empty()
        &&& self.scope_attributes@ == Map::<Seq<char>, Seq<char>>::empty()
        &&& self.attribute_ids@ == Map::<Seq<char>, Seq<char>>::empty()
        &&& self.resource_attribute_ids@ == Map::<Seq<char>, Seq<char>>::empty()
        &&& self.scope_attribute_ids@ == Map::<Seq<char>, Seq<char>>::empty()
        &&& self.attributes_json is None
        &&& self.resource_attributes_json is None
        &&& self.scope_attributes_json is None
        &&& self.events_json is None
        &&& self.links_json is None
        &&& self.description is None
        &&& self.unit is None
        &&& self.metric_kind is None
        &&& self.temporality is None
        &&& self.monotonic is None
        &&& self.value_type is None
        &&& self.scalar_integer is None
        &&& self.scalar_double_bits is None
        &&& self.value_json is None
        &&& self.exemplars_json is None
    }

    /// A row that holds only where and when its record is.
    pub fn empty(
        tenant: &str,
        signal: &str,
        timestamp_unix_nanos: u64,
        partition: u32,
        offset: u64,
    ) -> (result: Result<Self, LokiApiError>)
        ensures
            match result {
                Ok(row) => timestamp_unix_nanos <= i64::MAX && row.is_base(
                    tenant@,
                    signal@,
                    timestamp_unix_nanos,
                    partition,
                    offset,
                ),
                Err(error) => timestamp_unix_nanos > i64::MAX && error.says(
                    ApiErrorKind::Internal,
                    "timestamp exceeds ClickHouse i64 range"@,
                ),
            },
    {
        let timestamp = match timestamp_i64(timestamp_unix_nanos) {
            Ok(timestamp) => timestamp,
            Err(error) => {
                return Err(error);
            },
        };
        Ok(Self {
            tenant: tenant.to_owned(),
            signal: signal.to_owned(),
            timestamp_unix_nanos: timestamp,
            parent_timestamp_unix_nanos: None,
            observed_timestamp_unix_nanos: None,
            start_timestamp_unix_nanos: None,
            end_timestamp_unix_nanos: None,
            partition,
            offset,
            ordinal: None,
            resource_id: None,
            scope_id: None,
            trace_id: None,
            span_id: None,
            parent_span_id: None,
            linked_trace_id: None,
            linked_span_id: None,
            series_id: None,
            message: None,
            body_json: None,
            name: None,
            event_name: None,
            severity_number: None,
            severity_text: None,
            kind: None,
            duration_nanos: None,
            status_code: None,
            status_message: None,
            trace_state: None,
            flags: None,
            dropped_attributes_count: None,
            dropped_events_count: None,
            dropped_links_count: None,
            labels: StringMap::new(),
            metadata: StringMap::new(),
            attributes: StringMap::new(),
            resource_attributes: StringMap::new(),
            scope_attributes: StringMap::new(),
            attribute_ids: StringMap::new(),
            resource_attribute_ids: StringMap::new(),
            scope_attribute_ids: StringMap::new(),
            attributes_json: None,
            resource_attributes_json: None,
            scope_attributes_json: None,
            events_json: None,
            links_json: None,
            description: None,
            unit: None,
            metric_kind: None,
            temporality: None,
            monotonic: None,
            value_type: None,
            scalar_integer: None,
            scalar_double_bits: None,
            value_json: None,
            exemplars_json: None,
        })
    }
}

/// The cell of a column that a row does not fill.
pub open spec fn blank(column: AnalyticsColumn) -> Cell {
    if column.representation() is TextMap {
        Cell::TextMap(Map::empty())
    } else {
        Cell::Null
    }
}

/// The cell of a column of a row that holds only where and when its record is.
pub open spec fn base_cell(
    tenant: Seq<char>,
    signal: Seq<char>,
    timestamp_unix_nanos: u64,
    partition: u32,
    offset: u64,
    column: AnalyticsColumn,
) -> Cell {
    match column {
        AnalyticsColumn::Tenant => Cell::Text(tenant),
        AnalyticsColumn::Signal => Cell::Text(signal),
        AnalyticsColumn::Timestamp => Cell::Timestamp(timestamp_unix_nanos as i64),
        AnalyticsColumn::Partition => Cell::UInt32(partition),
        AnalyticsColumn::Offset => Cell::UInt64(offset),
        _ => blank(column),
    }
}

/// Converts a time to the signed range of ClickHouse.
pub fn timestamp_i64(value: u64) -> (result: Result<i64, LokiApiError>)
    ensures
        match result {
            Ok(timestamp) => value <= i64::MAX && timestamp == value,
            Err(error) => value > i64::MAX && error.says(
                ApiErrorKind::Internal,
                "timestamp exceeds ClickHouse i64 range"@,
            ),
        },
{
    if value <= i64::MAX as u64 {
        Ok(value as i64)
    } else {
        Err(LokiApiError::internal("timestamp exceeds ClickHouse i64 range"))
    }
}

/// Converts a time, zero standing for none.
pub fn nonzero_timestamp(value: u64) -> (result: Result<Option<i64>, LokiApiError>)
    ensures
        match result {
            Ok(timestamp) => value <= i64::MAX && timestamp == optional_time(value),
            Err(error) => value > i64::MAX && error.says(
                ApiErrorKind::Internal,
                "timestamp exceeds ClickHouse i64 range"@,
            ),
        },
{
    if value == 0 {
        return Ok(None);
    }
    match timestamp_i64(value) {
        Ok(timestamp) => Ok(Some(timestamp)),
        Err(error) => Err(error),
    }
}

/// A time, zero standing for none.
pub open spec fn optional_time(value: u64) -> Option<i64> {
    if value == 0 {
        None
    } else {
        Some(value as i64)
    }
}

/// Whether a projection names a column.
#[verifier::opaque]
pub open spec fn names_column(columns: Seq<AnalyticsColumn>, column: AnalyticsColumn) -> bool {
    columns.contains(column)
}

/// Returns whether a projection names a column.
pub fn wants(columns: &[AnalyticsColumn], column: AnalyticsColumn) -> (wanted: bool)
    ensures
        wanted == names_column(columns@, column),
{
    reveal(names_column);
    let mut index: usize = 0;
    while index < columns.len()
        invariant
            forall|i: int| 0 <= i < index ==> columns@[i] != column,
            names_column(columns@, column) == columns@.contains(column),
        decreases columns@.len() - index,
    {
        if columns[index] == column {
            assert(columns@.contains(columns@[index as int]));
            return true;
        }
        index = index + 1;
    }
    false
}

} // verus!
