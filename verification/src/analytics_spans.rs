//! Analytical rows of spans, their events and their links.

use vstd::prelude::*;

use crate::analytics_columns::{AnalyticsColumn, AnalyticsRelation};
use crate::analytics_projection::{
    attribute_ids, attributes_by_key, context_attributes_cell, copy_text, id_cell, ids_by_key,
    populate_projected_attributes, record_attributes_cell, set_context_attributes,
    set_record_attributes, shown, time_out_of_range, Rendered,
};
use crate::analytics_row::{
    base_cell, blank, i32_cell, names_column, text_cell, timestamp_cell, timestamp_i64, wants, AnalyticsRow, Cell,
};
use crate::error::{ApiErrorKind, LokiApiError};
use crate::records::{hex_text, DurableSpan, SpanEvent, SpanId, SpanLink};
use crate::text::hex_fixed;

verus! {

/// Optional span identity as a cell.
pub open spec fn span_id_cell(id: Option<SpanId>) -> Cell {
    match id {
        Some(found) => Cell::Text(hex_fixed(found.0 as nat, 16)),
        None => Cell::Null,
    }
}

fn span_id_text(id: Option<SpanId>) -> (text: Option<String>)
    ensures
        text_cell(text) == span_id_cell(id),
{
    match id {
        Some(found) => Some(found.text()),
        None => None,
    }
}

/// Status code of a span.
pub open spec fn status_code(span: DurableSpan) -> Option<i32> {
    match span.status {
        Some(status) => Some(status.code),
        None => None,
    }
}

pub(crate) fn span_status_code(span: &DurableSpan) -> (code: Option<i32>)
    ensures
        code == status_code(*span),
{
    match &span.status {
        Some(status) => Some(status.code),
        None => None,
    }
}

/// Status text of a span as a cell.
pub open spec fn status_message_cell(span: DurableSpan) -> Cell {
    match span.status {
        Some(status) => Cell::Text(status.message@),
        None => Cell::Null,
    }
}

fn span_status_message(span: &DurableSpan) -> (message: Option<String>)
    ensures
        text_cell(message) == status_message_cell(*span),
{
    match &span.status {
        Some(status) => Some(status.message.clone()),
        None => None,
    }
}

/// End of a span as a signed time.
pub open spec fn signed_end(span: DurableSpan) -> Option<i64> {
    match span.end_time() {
        Some(end) => Some(end as i64),
        None => None,
    }
}

/// Whether the end of a span, where it has one, is in the range of ClickHouse.
pub open spec fn end_in_range(span: DurableSpan) -> bool {
    span.end_time() matches Some(end) ==> end <= i64::MAX
}

pub(crate) fn end_timestamp(span: &DurableSpan) -> (result: Result<Option<i64>, LokiApiError>)
    ensures
        match result {
            Ok(end) => end_in_range(*span) && end == signed_end(*span),
            Err(error) => !end_in_range(*span) && time_out_of_range(error),
        },
{
    match span.end_time_unix_nanos() {
        None => Ok(None),
        Some(end) => match timestamp_i64(end) {
            Ok(time) => Ok(Some(time)),
            Err(error) => Err(error),
        },
    }
}

/// Position of a nested record, stopping at the largest value.
pub open spec fn ordinal_of(index: int) -> u32 {
    if index <= u32::MAX {
        index as u32
    } else {
        u32::MAX
    }
}

/// Position of a nested record, stopping at the largest value.
pub fn ordinal(index: usize) -> (ordinal: u32)
    ensures
        ordinal == ordinal_of(index as int),
{
    if index as u64 <= u32::MAX as u64 {
        index as u32
    } else {
        u32::MAX
    }
}

/// The cells that say which span a row belongs to, or the cell before.
pub open spec fn span_context_cell(
    before: Cell,
    span: DurableSpan,
    rendered: Rendered,
    column: AnalyticsColumn,
) -> Cell {
    match column {
        AnalyticsColumn::ResourceId => id_cell(span.resource.identity().0),
        AnalyticsColumn::ScopeId => id_cell(span.scope.identity().0),
        AnalyticsColumn::TraceId => id_cell(span.trace_id.0),
        AnalyticsColumn::SpanId => span_id_cell(Some(span.span_id)),
        _ => context_attributes_cell(
            before,
            span.resource.attributes@,
            span.scope.attributes@,
            rendered,
            column,
        ),
    }
}

/// The cell of a span's place.
pub open spec fn span_base_cell(
    span: DurableSpan,
    timestamp: u64,
    rendered: Rendered,
    column: AnalyticsColumn,
) -> Cell {
    span_context_cell(
        base_cell(
            span.tenant@,
            "traces"@,
            timestamp,
            span.record_ref.topic_partition.partition_id.0,
            span.record_ref.offset.0,
            column,
        ),
        span,
        rendered,
        column,
    )
}

/// The cell of a span.
pub open spec fn span_cell(
    span: DurableSpan,
    rendered: Rendered,
    column: AnalyticsColumn,
) -> Cell {
    match column {
        AnalyticsColumn::EndTimestamp => timestamp_cell(signed_end(span)),
        AnalyticsColumn::ParentSpanId => span_id_cell(span.parent_span_id),
        AnalyticsColumn::Name => Cell::Text(span.name@),
        AnalyticsColumn::Kind => Cell::Int32(span.kind),
        AnalyticsColumn::DurationNanos => Cell::UInt64(span.duration_nanos),
        AnalyticsColumn::StatusCode => i32_cell(status_code(span)),
        AnalyticsColumn::StatusMessage => status_message_cell(span),
        AnalyticsColumn::TraceState => Cell::Text(span.trace_state@),
        AnalyticsColumn::Flags => Cell::UInt32(span.flags),
        AnalyticsColumn::DroppedAttributesCount => Cell::UInt32(span.dropped_attributes_count),
        AnalyticsColumn::DroppedEventsCount => Cell::UInt32(span.dropped_events_count),
        AnalyticsColumn::DroppedLinksCount => Cell::UInt32(span.dropped_links_count),
        AnalyticsColumn::EventsJson => text_cell(rendered.events_json),
        AnalyticsColumn::LinksJson => text_cell(rendered.links_json),
        _ => record_attributes_cell(
            span_base_cell(span, span.start_time_unix_nanos, rendered, column),
            span.attributes@,
            rendered.attributes@,
            rendered.attributes_json,
            column,
        ),
    }
}

/// The cell of the `index`-th event of a span.
pub open spec fn span_event_cell(
    span: DurableSpan,
    index: int,
    rendered: Rendered,
    column: AnalyticsColumn,
) -> Cell {
    let event = span.events@[index];
    match column {
        AnalyticsColumn::ParentTimestamp => Cell::Timestamp(span.start_time_unix_nanos as i64),
        AnalyticsColumn::Ordinal => Cell::UInt32(ordinal_of(index)),
        AnalyticsColumn::Name => Cell::Text(event.name@),
        AnalyticsColumn::DroppedAttributesCount => Cell::UInt32(event.dropped_attributes_count),
        _ => record_attributes_cell(
            span_base_cell(span, event.timestamp_unix_nanos, rendered, column),
            event.attributes@,
            rendered.attributes@,
            rendered.attributes_json,
            column,
        ),
    }
}

/// The cell of the `index`-th link of a span.
pub open spec fn span_link_cell(
    span: DurableSpan,
    index: int,
    rendered: Rendered,
    column: AnalyticsColumn,
) -> Cell {
    let link = span.links@[index];
    match column {
        AnalyticsColumn::Ordinal => Cell::UInt32(ordinal_of(index)),
        AnalyticsColumn::LinkedTraceId => id_cell(link.trace_id.0),
        AnalyticsColumn::LinkedSpanId => span_id_cell(Some(link.span_id)),
        AnalyticsColumn::TraceState => Cell::Text(link.trace_state@),
        AnalyticsColumn::Flags => Cell::UInt32(link.flags),
        AnalyticsColumn::DroppedAttributesCount => Cell::UInt32(link.dropped_attributes_count),
        _ => record_attributes_cell(
            span_base_cell(span, span.start_time_unix_nanos, rendered, column),
            link.attributes@,
            rendered.attributes@,
            rendered.attributes_json,
            column,
        ),
    }
}

/// Fills the columns that say which span a row belongs to.
fn set_span_context(row: &mut AnalyticsRow, span: &DurableSpan, rendered: &Rendered)
    ensures
        *final(row) == (AnalyticsRow {
            resource_id: final(row).resource_id,
            scope_id: final(row).scope_id,
            trace_id: final(row).trace_id,
            span_id: final(row).span_id,
            resource_attributes: final(row).resource_attributes,
            scope_attributes: final(row).scope_attributes,
            resource_attribute_ids: final(row).resource_attribute_ids,
            scope_attribute_ids: final(row).scope_attribute_ids,
            resource_attributes_json: final(row).resource_attributes_json,
            scope_attributes_json: final(row).scope_attributes_json,
            ..*old(row)
        }),
        text_cell(final(row).resource_id) == id_cell(span.resource.identity().0),
        text_cell(final(row).scope_id) == id_cell(span.scope.identity().0),
        text_cell(final(row).trace_id) == id_cell(span.trace_id.0),
        text_cell(final(row).span_id) == span_id_cell(Some(span.span_id)),
        final(row).resource_attributes@ == attributes_by_key(
            span.resource.attributes@,
            rendered.resource_attributes@,
        ),
        final(row).scope_attributes@ == attributes_by_key(
            span.scope.attributes@,
            rendered.scope_attributes@,
        ),
        final(row).resource_attribute_ids@ == ids_by_key(span.resource.attributes@),
        final(row).scope_attribute_ids@ == ids_by_key(span.scope.attributes@),
        text_cell(final(row).resource_attributes_json) == text_cell(
            rendered.resource_attributes_json,
        ),
        text_cell(final(row).scope_attributes_json) == text_cell(rendered.scope_attributes_json),
{
    row.resource_id = Some(hex_text(span.resource_id().0, 32));
    row.scope_id = Some(hex_text(span.scope_id().0, 32));
    row.trace_id = Some(span.trace_id.text());
    row.span_id = Some(span.span_id.text());
    set_context_attributes(
        row,
        span.resource.attributes.as_slice(),
        span.scope.attributes.as_slice(),
        rendered,
    );
}

/// Builds the complete row of a span.
pub fn span_row(span: &DurableSpan, rendered: &Rendered) -> (result: Result<
    AnalyticsRow,
    LokiApiError,
>)
    ensures
        ({
            let in_range = span.start_time_unix_nanos <= i64::MAX && end_in_range(*span);
            match result {
                Ok(row) => in_range && forall|column: AnalyticsColumn| #[trigger]
                    row.cell(column) == span_cell(*span, *rendered, column),
                Err(error) => !in_range && time_out_of_range(error),
            }
        }),
{
    let mut row = match AnalyticsRow::empty(
        span.tenant.as_str(),
        "traces",
        span.start_time_unix_nanos,
        span.record_ref.topic_partition.partition_id.get(),
        span.record_ref.offset.get(),
    ) {
        Ok(row) => row,
        Err(error) => {
            return Err(error);
        },
    };
    set_span_context(&mut row, span, rendered);
    row.end_timestamp_unix_nanos = match end_timestamp(span) {
        Ok(end) => end,
        Err(error) => {
            return Err(error);
        },
    };
    row.parent_span_id = span_id_text(span.parent_span_id);
    row.name = Some(span.name.clone());
    row.kind = Some(span.kind);
    row.duration_nanos = Some(span.duration_nanos);
    row.status_code = span_status_code(span);
    row.status_message = span_status_message(span);
    row.trace_state = Some(span.trace_state.clone());
    row.flags = Some(span.flags);
    row.dropped_attributes_count = Some(span.dropped_attributes_count);
    row.dropped_events_count = Some(span.dropped_events_count);
    row.dropped_links_count = Some(span.dropped_links_count);
    set_record_attributes(
        &mut row,
        span.attributes.as_slice(),
        rendered.attributes.as_slice(),
        &rendered.attributes_json,
    );
    row.events_json = copy_text(&rendered.events_json);
    row.links_json = copy_text(&rendered.links_json);
    Ok(row)
}

/// Builds the row of one event.
fn span_event_row(span: &DurableSpan, index: usize, rendered: &Rendered) -> (result: Result<
    AnalyticsRow,
    LokiApiError,
>)
    requires
        index < span.events@.len(),
    ensures
        match result {
            Ok(row) => event_in_range(*span, index as int) && forall|column: AnalyticsColumn|
                #[trigger]
                row.cell(column) == span_event_cell(*span, index as int, *rendered, column),
            Err(error) => !event_in_range(*span, index as int) && time_out_of_range(error),
        },
{
    let event: &SpanEvent = &span.events[index];
    let mut row = match AnalyticsRow::empty(
        span.tenant.as_str(),
        "traces",
        event.timestamp_unix_nanos,
        span.record_ref.topic_partition.partition_id.get(),
        span.record_ref.offset.get(),
    ) {
        Ok(row) => row,
        Err(error) => {
            return Err(error);
        },
    };
    set_span_context(&mut row, span, rendered);
    row.parent_timestamp_unix_nanos = match timestamp_i64(span.start_time_unix_nanos) {
        Ok(time) => Some(time),
        Err(error) => {
            return Err(error);
        },
    };
    row.ordinal = Some(ordinal(index));
    row.name = Some(event.name.clone());
    row.dropped_attributes_count = Some(event.dropped_attributes_count);
    set_record_attributes(
        &mut row,
        event.attributes.as_slice(),
        rendered.attributes.as_slice(),
        &rendered.attributes_json,
    );
    Ok(row)
}

/// Whether the times of an event row are in the range of ClickHouse.
pub open spec fn event_in_range(span: DurableSpan, index: int) -> bool {
    span.events@[index].timestamp_unix_nanos <= i64::MAX && span.start_time_unix_nanos <= i64::MAX
}

/// Builds the row of one link.
fn span_link_row(span: &DurableSpan, index: usize, rendered: &Rendered) -> (result: Result<
    AnalyticsRow,
    LokiApiError,
>)
    requires
        index < span.links@.len(),
    ensures
        match result {
            Ok(row) => span.start_time_unix_nanos <= i64::MAX && forall|column: AnalyticsColumn|
                #[trigger]
                row.cell(column) == span_link_cell(*span, index as int, *rendered, column),
            Err(error) => span.start_time_unix_nanos > i64::MAX && time_out_of_range(error),
        },
{
    let link: &SpanLink = &span.links[index];
    let mut row = match AnalyticsRow::empty(
        span.tenant.as_str(),
        "traces",
        span.start_time_unix_nanos,
        span.record_ref.topic_partition.partition_id.get(),
        span.record_ref.offset.get(),
    ) {
        Ok(row) => row,
        Err(error) => {
            return Err(error);
        },
    };
    set_span_context(&mut row, span, rendered);
    row.ordinal = Some(ordinal(index));
    row.linked_trace_id = Some(link.trace_id.text());
    row.linked_span_id = Some(link.span_id.text());
    row.trace_state = Some(link.trace_state.clone());
    row.flags = Some(link.flags);
    row.dropped_attributes_count = Some(link.dropped_attributes_count);
    set_record_attributes(
        &mut row,
        link.attributes.as_slice(),
        rendered.attributes.as_slice(),
        &rendered.attributes_json,
    );
    Ok(row)
}

/// How many rows a span has in a relation.
pub open spec fn span_row_count(span: DurableSpan, relation: AnalyticsRelation) -> nat {
    match relation {
        AnalyticsRelation::Spans => 1,
        AnalyticsRelation::SpanEvents => span.events@.len(),
        AnalyticsRelation::SpanLinks => span.links@.len(),
        _ => 0,
    }
}

/// The cell of the `index`-th row of a span in a relation.
pub open spec fn span_relation_cell(
    span: DurableSpan,
    relation: AnalyticsRelation,
    index: int,
    rendered: Rendered,
    column: AnalyticsColumn,
) -> Cell {
    match relation {
        AnalyticsRelation::SpanEvents => span_event_cell(span, index, rendered, column),
        AnalyticsRelation::SpanLinks => span_link_cell(span, index, rendered, column),
        _ => span_cell(span, rendered, column),
    }
}

/// Whether the times of the `index`-th row are in the range of ClickHouse.
pub open spec fn span_row_in_range(
    span: DurableSpan,
    relation: AnalyticsRelation,
    index: int,
) -> bool {
    match relation {
        AnalyticsRelation::SpanEvents => event_in_range(span, index),
        AnalyticsRelation::SpanLinks => span.start_time_unix_nanos <= i64::MAX,
        _ => span.start_time_unix_nanos <= i64::MAX && end_in_range(span),
    }
}

/// Builds the rows of a span in one relation, each with its own texts.
pub fn span_rows(
    span: &DurableSpan,
    relation: AnalyticsRelation,
    rendered: &Vec<Rendered>,
) -> (result: Result<Vec<AnalyticsRow>, LokiApiError>)
    requires
        rendered@.len() >= span_row_count(*span, relation),
    ensures
        match result {
            Ok(rows) => {
                &&& relation.parent_signal() == "traces"@
                &&& rows@.len() == span_row_count(*span, relation)
                &&& forall|i: int, column: AnalyticsColumn|
                    0 <= i < rows@.len() ==> #[trigger] rows@[i].cell(column)
                        == span_relation_cell(*span, relation, i, rendered@[i], column)
                &&& forall|i: int|
                    0 <= i < rows@.len() ==> #[trigger] span_row_in_range(*span, relation, i)
            },
            Err(error) => if relation is Spans || relation is SpanEvents || relation is SpanLinks {
                time_out_of_range(error) && exists|i: int|
                    0 <= i < span_row_count(*span, relation) && !(#[trigger] span_row_in_range(
                        *span,
                        relation,
                        i,
                    ))
            } else {
                error.says(ApiErrorKind::Internal, "span scanner received a non-trace relation"@)
            },
        },
{
    let count = match relation {
        AnalyticsRelation::Spans => 1,
        AnalyticsRelation::SpanEvents => span.events.len(),
        AnalyticsRelation::SpanLinks => span.links.len(),
        _ => {
            return Err(LokiApiError::internal("span scanner received a non-trace relation"));
        },
    };
    let mut rows: Vec<AnalyticsRow> = Vec::new();
    let mut index: usize = 0;
    while index < count
        invariant
            count == span_row_count(*span, relation),
            relation is Spans || relation is SpanEvents || relation is SpanLinks,
            index <= count,
            rows@.len() == index,
            rendered@.len() >= count,
            forall|i: int, column: AnalyticsColumn|
                0 <= i < index ==> #[trigger] rows@[i].cell(column) == span_relation_cell(
                    *span,
                    relation,
                    i,
                    rendered@[i],
                    column,
                ),
            forall|i: int| 0 <= i < index ==> #[trigger] span_row_in_range(*span, relation, i),
        decreases count - index,
    {
        let built = match relation {
            AnalyticsRelation::SpanEvents => span_event_row(span, index, &rendered[index]),
            AnalyticsRelation::SpanLinks => span_link_row(span, index, &rendered[index]),
            _ => span_row(span, &rendered[index]),
        };
        match built {
            Ok(row) => {
                assert(span_row_in_range(*span, relation, index as int));
                rows.push(row);
            },
            Err(error) => {
                assert(!span_row_in_range(*span, relation, index as int));
                return Err(error);
            },
        }
        index = index + 1;
    }
    Ok(rows)
}

/// Fills the identity columns of a span that a projection names and clears the
/// others.
fn populate_projected_context(
    row: &mut AnalyticsRow,
    columns: &[AnalyticsColumn],
    span: &DurableSpan,
)
    ensures
        *final(row) == (AnalyticsRow {
            resource_id: final(row).resource_id,
            scope_id: final(row).scope_id,
            trace_id: final(row).trace_id,
            span_id: final(row).span_id,
            ..*old(row)
        }),
        text_cell(final(row).resource_id) == (if names_column(columns@, AnalyticsColumn::ResourceId) {
            id_cell(span.resource.identity().0)
        } else {
            Cell::Null
        }),
        text_cell(final(row).scope_id) == (if names_column(columns@, AnalyticsColumn::ScopeId) {
            id_cell(span.scope.identity().0)
        } else {
            Cell::Null
        }),
        text_cell(final(row).trace_id) == (if names_column(columns@, AnalyticsColumn::TraceId) {
            id_cell(span.trace_id.0)
        } else {
            Cell::Null
        }),
        text_cell(final(row).span_id) == (if names_column(columns@, AnalyticsColumn::SpanId) {
            span_id_cell(Some(span.span_id))
        } else {
            Cell::Null
        }),
{
    row.resource_id = if wants(columns, AnalyticsColumn::ResourceId) {
        Some(hex_text(span.resource_id().0, 32))
    } else {
        None
    };
    row.scope_id = if wants(columns, AnalyticsColumn::ScopeId) {
        Some(hex_text(span.scope_id().0, 32))
    } else {
        None
    };
    row.trace_id = if wants(columns, AnalyticsColumn::TraceId) {
        Some(span.trace_id.text())
    } else {
        None
    };
    row.span_id = if wants(columns, AnalyticsColumn::SpanId) {
        Some(span.span_id.text())
    } else {
        None
    };
}

/// Fills the columns of a span's own fields that a projection names and clears
/// the others.
fn populate_projected_span(
    row: &mut AnalyticsRow,
    columns: &[AnalyticsColumn],
    span: &DurableSpan,
    rendered: &Rendered,
)
    ensures
        *final(row) == (AnalyticsRow {
            parent_span_id: final(row).parent_span_id,
            name: final(row).name,
            kind: final(row).kind,
            duration_nanos: final(row).duration_nanos,
            status_code: final(row).status_code,
            status_message: final(row).status_message,
            trace_state: final(row).trace_state,
            flags: final(row).flags,
            dropped_attributes_count: final(row).dropped_attributes_count,
            dropped_events_count: final(row).dropped_events_count,
            dropped_links_count: final(row).dropped_links_count,
            events_json: final(row).events_json,
            links_json: final(row).links_json,
            ..*old(row)
        }),
        text_cell(final(row).parent_span_id) == (if names_column(columns@, AnalyticsColumn::ParentSpanId) {
            span_id_cell(span.parent_span_id)
        } else {
            Cell::Null
        }),
        text_cell(final(row).name) == (if names_column(columns@, AnalyticsColumn::Name) {
            Cell::Text(span.name@)
        } else {
            Cell::Null
        }),
        final(row).kind == (if names_column(columns@, AnalyticsColumn::Kind) {
            Some(span.kind)
        } else {
            None
        }),
        final(row).duration_nanos == (if names_column(columns@, AnalyticsColumn::DurationNanos) {
            Some(span.duration_nanos)
        } else {
            None
        }),
        final(row).status_code == (if names_column(columns@, AnalyticsColumn::StatusCode) {
            status_code(*span)
        } else {
            None
        }),
        text_cell(final(row).status_message) == (if names_column(columns@, AnalyticsColumn::StatusMessage) {
            status_message_cell(*span)
        } else {
            Cell::Null
        }),
        text_cell(final(row).trace_state) == (if names_column(columns@, AnalyticsColumn::TraceState) {
            Cell::Text(span.trace_state@)
        } else {
            Cell::Null
        }),
        final(row).flags == (if names_column(columns@, AnalyticsColumn::Flags) {
            Some(span.flags)
        } else {
            None
        }),
        final(row).dropped_attributes_count == (if names_column(columns@, AnalyticsColumn::DroppedAttributesCount) {
            Some(span.dropped_attributes_count)
        } else {
            None
        }),
        final(row).dropped_events_count == (if names_column(columns@, AnalyticsColumn::DroppedEventsCount) {
            Some(span.dropped_events_count)
        } else {
            None
        }),
        final(row).dropped_links_count == (if names_column(columns@, AnalyticsColumn::DroppedLinksCount) {
            Some(span.dropped_links_count)
        } else {
            None
        }),
        text_cell(final(row).events_json) == (if names_column(columns@, AnalyticsColumn::EventsJson) {
            text_cell(rendered.events_json)
        } else {
            Cell::Null
        }),
        text_cell(final(row).links_json) == (if names_column(columns@, AnalyticsColumn::LinksJson) {
            text_cell(rendered.links_json)
        } else {
            Cell::Null
        }),
{
    row.parent_span_id = if wants(columns, AnalyticsColumn::ParentSpanId) {
        span_id_text(span.parent_span_id)
    } else {
        None
    };
    row.name = if wants(columns, AnalyticsColumn::Name) {
        Some(span.name.clone())
    } else {
        None
    };
    row.kind = if wants(columns, AnalyticsColumn::Kind) {
        Some(span.kind)
    } else {
        None
    };
    row.duration_nanos = if wants(columns, AnalyticsColumn::DurationNanos) {
        Some(span.duration_nanos)
    } else {
        None
    };
    row.status_code = if wants(columns, AnalyticsColumn::StatusCode) {
        span_status_code(span)
    } else {
        None
    };
    row.status_message = if wants(columns, AnalyticsColumn::StatusMessage) {
        span_status_message(span)
    } else {
        None
    };
    row.trace_state = if wants(columns, AnalyticsColumn::TraceState) {
        Some(span.trace_state.clone())
    } else {
        None
    };
    row.flags = if wants(columns, AnalyticsColumn::Flags) {
        Some(span.flags)
    } else {
        None
    };
    row.dropped_attributes_count = if wants(columns, AnalyticsColumn::DroppedAttributesCount) {
        Some(span.dropped_attributes_count)
    } else {
        None
    };
    row.dropped_events_count = if wants(columns, AnalyticsColumn::DroppedEventsCount) {
        Some(span.dropped_events_count)
    } else {
        None
    };
    row.dropped_links_count = if wants(columns, AnalyticsColumn::DroppedLinksCount) {
        Some(span.dropped_links_count)
    } else {
        None
    };
    row.events_json = if wants(columns, AnalyticsColumn::EventsJson) {
        copy_text(&rendered.events_json)
    } else {
        None
    };
    row.links_json = if wants(columns, AnalyticsColumn::LinksJson) {
        copy_text(&rendered.links_json)
    } else {
        None
    };
}

/// The cell of a projected span row.
pub open spec fn projected_span_cell(
    span: DurableSpan,
    columns: Seq<AnalyticsColumn>,
    rendered: Rendered,
    column: AnalyticsColumn,
) -> Cell {
    if shown(columns, column) {
        span_cell(span, rendered, column)
    } else {
        blank(column)
    }
}

/// What a projected span row holds, field by field.
spec fn projected_span_fields(
    row: AnalyticsRow,
    span: DurableSpan,
    columns: Seq<AnalyticsColumn>,
    rendered: Rendered,
) -> bool {
    &&& text_cell(row.resource_id) == (if names_column(columns, AnalyticsColumn::ResourceId) {
        id_cell(span.resource.identity().0)
    } else {
        Cell::Null})
    &&& text_cell(row.scope_id) == (if names_column(columns, AnalyticsColumn::ScopeId) {
        id_cell(span.scope.identity().0)
    } else {
        Cell::Null})
    &&& text_cell(row.trace_id) == (if names_column(columns, AnalyticsColumn::TraceId) {
        id_cell(span.trace_id.0)
    } else {
        Cell::Null})
    &&& text_cell(row.span_id) == (if names_column(columns, AnalyticsColumn::SpanId) {
        span_id_cell(Some(span.span_id))
    } else {
        Cell::Null})
    &&& text_cell(row.parent_span_id) == (if names_column(columns, AnalyticsColumn::ParentSpanId) {
        span_id_cell(span.parent_span_id)
    } else {
        Cell::Null})
    &&& text_cell(row.name) == (if names_column(columns, AnalyticsColumn::Name) {
        Cell::Text(span.name@)
    } else {
        Cell::Null})
    &&& row.kind == (if names_column(columns, AnalyticsColumn::Kind) {
        Some(span.kind)
    } else {
        None})
    &&& row.duration_nanos == (if names_column(columns, AnalyticsColumn::DurationNanos) {
        Some(span.duration_nanos)
    } else {
        None})
    &&& row.status_code == (if names_column(columns, AnalyticsColumn::StatusCode) {
        status_code(span)
    } else {
        None})
    &&& text_cell(row.status_message) == (if names_column(columns, AnalyticsColumn::StatusMessage) {
        status_message_cell(span)
    } else {
        Cell::Null})
    &&& text_cell(row.trace_state) == (if names_column(columns, AnalyticsColumn::TraceState) {
        Cell::Text(span.trace_state@)
    } else {
        Cell::Null})
    &&& row.flags == (if names_column(columns, AnalyticsColumn::Flags) {
        Some(span.flags)
    } else {
        None})
    &&& row.dropped_attributes_count == (if names_column(columns, AnalyticsColumn::DroppedAttributesCount) {
        Some(span.dropped_attributes_count)
    } else {
        None})
    &&& row.dropped_events_count == (if names_column(columns, AnalyticsColumn::DroppedEventsCount) {
        Some(span.dropped_events_count)
    } else {
        None})
    &&& row.dropped_links_count == (if names_column(columns, AnalyticsColumn::DroppedLinksCount) {
        Some(span.dropped_links_count)
    } else {
        None})
    &&& text_cell(row.events_json) == (if names_column(columns, AnalyticsColumn::EventsJson) {
        text_cell(rendered.events_json)
    } else {
        Cell::Null})
    &&& text_cell(row.links_json) == (if names_column(columns, AnalyticsColumn::LinksJson) {
        text_cell(rendered.links_json)
    } else {
        Cell::Null})
    &&& row.attributes@ == (if names_column(columns, AnalyticsColumn::Attributes) {
        attributes_by_key(span.attributes@, rendered.attributes@)
    } else {
        Map::<Seq<char>, Seq<char>>::empty()})
    &&& row.resource_attributes@ == (if names_column(columns, AnalyticsColumn::ResourceAttributes) {
        attributes_by_key(span.resource.attributes@, rendered.resource_attributes@)
    } else {
        Map::<Seq<char>, Seq<char>>::empty()})
    &&& row.scope_attributes@ == (if names_column(columns, AnalyticsColumn::ScopeAttributes) {
        attributes_by_key(span.scope.attributes@, rendered.scope_attributes@)
    } else {
        Map::<Seq<char>, Seq<char>>::empty()})
    &&& row.attribute_ids@ == (if names_column(columns, AnalyticsColumn::AttributeIds) {
        ids_by_key(span.attributes@)
    } else {
        Map::<Seq<char>, Seq<char>>::empty()})
    &&& row.resource_attribute_ids@ == (if names_column(columns, AnalyticsColumn::ResourceAttributeIds) {
        ids_by_key(span.resource.attributes@)
    } else {
        Map::<Seq<char>, Seq<char>>::empty()})
    &&& row.scope_attribute_ids@ == (if names_column(columns, AnalyticsColumn::ScopeAttributeIds) {
        ids_by_key(span.scope.attributes@)
    } else {
        Map::<Seq<char>, Seq<char>>::empty()})
    &&& text_cell(row.attributes_json) == (if names_column(columns, AnalyticsColumn::AttributesJson) {
        text_cell(rendered.attributes_json)
    } else {
        Cell::Null})
    &&& text_cell(row.resource_attributes_json) == (if names_column(columns, AnalyticsColumn::ResourceAttributesJson) {
        text_cell(rendered.resource_attributes_json)
    } else {
        Cell::Null})
    &&& text_cell(row.scope_attributes_json) == (if names_column(columns, AnalyticsColumn::ScopeAttributesJson) {
        text_cell(rendered.scope_attributes_json)
    } else {
        Cell::Null})
    &&& row.end_timestamp_unix_nanos == (if names_column(columns, AnalyticsColumn::EndTimestamp) {
        signed_end(span)
    } else {
        None
    })
    &&& row.tenant@ == span.tenant@
    &&& row.signal@ == "traces"@
    &&& row.timestamp_unix_nanos == span.start_time_unix_nanos as i64
    &&& row.partition == span.record_ref.topic_partition.partition_id.0
    &&& row.offset == span.record_ref.offset.0
    &&& row.labels@ == Map::<Seq<char>, Seq<char>>::empty()
    &&& row.metadata@ == Map::<Seq<char>, Seq<char>>::empty()
    &&& row.parent_timestamp_unix_nanos is None
    &&& row.observed_timestamp_unix_nanos is None
    &&& row.start_timestamp_unix_nanos is None
    &&& row.ordinal is None
    &&& row.linked_trace_id is None
    &&& row.linked_span_id is None
    &&& row.series_id is None
    &&& row.message is None
    &&& row.body_json is None
    &&& row.event_name is None
    &&& row.severity_number is None
    &&& row.severity_text is None
    &&& row.description is None
    &&& row.unit is None
    &&& row.metric_kind is None
    &&& row.temporality is None
    &&& row.monotonic is None
    &&& row.value_type is None
    &&& row.scalar_integer is None
    &&& row.scalar_double_bits is None
    &&& row.value_json is None
    &&& row.exemplars_json is None
}

/// One column of a projected span row is as stated.
#[verifier::opaque]
spec fn projected_span_agrees(
    row: AnalyticsRow,
    span: DurableSpan,
    columns: Seq<AnalyticsColumn>,
    rendered: Rendered,
    column: AnalyticsColumn,
) -> bool {
    row.cell(column) == projected_span_cell(span, columns, rendered, column)
}

proof fn lemma_projected_span_columns(
    row: AnalyticsRow,
    span: DurableSpan,
    columns: Seq<AnalyticsColumn>,
    rendered: Rendered,
)
    requires
        projected_span_fields(row, span, columns, rendered),
    ensures
        projected_span_agrees(row, span, columns, rendered, AnalyticsColumn::Tenant),
        projected_span_agrees(row, span, columns, rendered, AnalyticsColumn::Signal),
        projected_span_agrees(row, span, columns, rendered, AnalyticsColumn::Timestamp),
        projected_span_agrees(row, span, columns, rendered, AnalyticsColumn::ParentTimestamp),
        projected_span_agrees(row, span, columns, rendered, AnalyticsColumn::ObservedTimestamp),
        projected_span_agrees(row, span, columns, rendered, AnalyticsColumn::StartTimestamp),
        projected_span_agrees(row, span, columns, rendered, AnalyticsColumn::EndTimestamp),
        projected_span_agrees(row, span, columns, rendered, AnalyticsColumn::Partition),
        projected_span_agrees(row, span, columns, rendered, AnalyticsColumn::Offset),
        projected_span_agrees(row, span, columns, rendered, AnalyticsColumn::Ordinal),
        projected_span_agrees(row, span, columns, rendered, AnalyticsColumn::ResourceId),
        projected_span_agrees(row, span, columns, rendered, AnalyticsColumn::ScopeId),
        projected_span_agrees(row, span, columns, rendered, AnalyticsColumn::TraceId),
        projected_span_agrees(row, span, columns, rendered, AnalyticsColumn::SpanId),
        projected_span_agrees(row, span, columns, rendered, AnalyticsColumn::ParentSpanId),
        projected_span_agrees(row, span, columns, rendered, AnalyticsColumn::LinkedTraceId),
        projected_span_agrees(row, span, columns, rendered, AnalyticsColumn::LinkedSpanId),
        projected_span_agrees(row, span, columns, rendered, AnalyticsColumn::SeriesId),
        projected_span_agrees(row, span, columns, rendered, AnalyticsColumn::Message),
        projected_span_agrees(row, span, columns, rendered, AnalyticsColumn::BodyJson),
        projected_span_agrees(row, span, columns, rendered, AnalyticsColumn::Name),
        projected_span_agrees(row, span, columns, rendered, AnalyticsColumn::EventName),
        projected_span_agrees(row, span, columns, rendered, AnalyticsColumn::SeverityNumber),
        projected_span_agrees(row, span, columns, rendered, AnalyticsColumn::SeverityText),
        projected_span_agrees(row, span, columns, rendered, AnalyticsColumn::Kind),
        projected_span_agrees(row, span, columns, rendered, AnalyticsColumn::DurationNanos),
        projected_span_agrees(row, span, columns, rendered, AnalyticsColumn::StatusCode),
        projected_span_agrees(row, span, columns, rendered, AnalyticsColumn::StatusMessage),
        projected_span_agrees(row, span, columns, rendered, AnalyticsColumn::TraceState),
        projected_span_agrees(row, span, columns, rendered, AnalyticsColumn::Flags),
        projected_span_agrees(row, span, columns, rendered, AnalyticsColumn::DroppedAttributesCount),
        projected_span_agrees(row, span, columns, rendered, AnalyticsColumn::DroppedEventsCount),
        projected_span_agrees(row, span, columns, rendered, AnalyticsColumn::DroppedLinksCount),
        projected_span_agrees(row, span, columns, rendered, AnalyticsColumn::Labels),
        projected_span_agrees(row, span, columns, rendered, AnalyticsColumn::Metadata),
        projected_span_agrees(row, span, columns, rendered, AnalyticsColumn::Attributes),
        projected_span_agrees(row, span, columns, rendered, AnalyticsColumn::ResourceAttributes),
        projected_span_agrees(row, span, columns, rendered, AnalyticsColumn::ScopeAttributes),
        projected_span_agrees(row, span, columns, rendered, AnalyticsColumn::AttributeIds),
        projected_span_agrees(row, span, columns, rendered, AnalyticsColumn::ResourceAttributeIds),
        projected_span_agrees(row, span, columns, rendered, AnalyticsColumn::ScopeAttributeIds),
        projected_span_agrees(row, span, columns, rendered, AnalyticsColumn::AttributesJson),
        projected_span_agrees(row, span, columns, rendered, AnalyticsColumn::ResourceAttributesJson),
        projected_span_agrees(row, span, columns, rendered, AnalyticsColumn::ScopeAttributesJson),
        projected_span_agrees(row, span, columns, rendered, AnalyticsColumn::EventsJson),
        projected_span_agrees(row, span, columns, rendered, AnalyticsColumn::LinksJson),
        projected_span_agrees(row, span, columns, rendered, AnalyticsColumn::Description),
        projected_span_agrees(row, span, columns, rendered, AnalyticsColumn::Unit),
        projected_span_agrees(row, span, columns, rendered, AnalyticsColumn::MetricKind),
        projected_span_agrees(row, span, columns, rendered, AnalyticsColumn::Temporality),
        projected_span_agrees(row, span, columns, rendered, AnalyticsColumn::Monotonic),
        projected_span_agrees(row, span, columns, rendered, AnalyticsColumn::ValueType),
        projected_span_agrees(row, span, columns, rendered, AnalyticsColumn::ScalarInteger),
        projected_span_agrees(row, span, columns, rendered, AnalyticsColumn::ScalarDoubleBits),
        projected_span_agrees(row, span, columns, rendered, AnalyticsColumn::ValueJson),
        projected_span_agrees(row, span, columns, rendered, AnalyticsColumn::ExemplarsJson),
{
    reveal(projected_span_agrees);
}

proof fn lemma_projected_span(
    row: AnalyticsRow,
    span: DurableSpan,
    columns: Seq<AnalyticsColumn>,
    rendered: Rendered,
    column: AnalyticsColumn,
)
    requires
        projected_span_fields(row, span, columns, rendered),
    ensures
        projected_span_agrees(row, span, columns, rendered, column),
{
    lemma_projected_span_columns(row, span, columns, rendered);
}

/// Builds only the requested columns of a span.
pub fn projected_span_row(
    span: &DurableSpan,
    columns: &[AnalyticsColumn],
    rendered: &Rendered,
) -> (result: Result<AnalyticsRow, LokiApiError>)
    ensures
        ({
            let in_range = span.start_time_unix_nanos <= i64::MAX && (names_column(columns@, AnalyticsColumn::EndTimestamp) ==> end_in_range(*span));
            match result {
                Ok(row) => in_range && forall|column: AnalyticsColumn| #[trigger]
                    row.cell(column) == projected_span_cell(*span, columns@, *rendered, column),
                Err(error) => !in_range && time_out_of_range(error),
            }
        }),
{
    let mut row = match AnalyticsRow::empty(
        span.tenant.as_str(),
        "traces",
        span.start_time_unix_nanos,
        span.record_ref.topic_partition.partition_id.get(),
        span.record_ref.offset.get(),
    ) {
        Ok(row) => row,
        Err(error) => {
            return Err(error);
        },
    };
    populate_projected_context(&mut row, columns, span);
    row.end_timestamp_unix_nanos = if wants(columns, AnalyticsColumn::EndTimestamp) {
        match end_timestamp(span) {
            Ok(end) => end,
            Err(error) => {
                return Err(error);
            },
        }
    } else {
        None
    };
    populate_projected_span(&mut row, columns, span, rendered);
    populate_projected_attributes(
        &mut row,
        columns,
        span.attributes.as_slice(),
        span.resource.attributes.as_slice(),
        span.scope.attributes.as_slice(),
        rendered,
    );
    proof {
        assert(projected_span_fields(row, *span, columns@, *rendered));
        assert forall|column: AnalyticsColumn| #[trigger] row.cell(column) == projected_span_cell(
            *span,
            columns@,
            *rendered,
            column,
        ) by {
            lemma_projected_span(row, *span, columns@, *rendered, column);
            reveal(projected_span_agrees);
        }
    }
    Ok(row)
}

} // verus!
