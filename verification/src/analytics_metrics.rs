//! Analytical rows of metric points and their exemplars.

use vstd::prelude::*;

use crate::analytics_columns::{AnalyticsColumn, AnalyticsRelation};
use crate::analytics_projection::{
    attribute_map, attributes_by_key, collect_pairs, context_attributes_cell, copy_text, id_cell,
    ids_by_key, populate_projected_attributes, record_attributes_cell, set_context_attributes,
    set_record_attributes, shown, time_out_of_range, Rendered,
};
use crate::analytics_row::{
    base_cell, blank, bool_cell, i32_cell, i64_cell, names_column, nonzero_timestamp, optional_time, text_cell,
    timestamp_cell, timestamp_i64, u64_cell, wants, AnalyticsRow, Cell,
};
use crate::analytics_spans::{ordinal, ordinal_of, span_id_cell};
use crate::error::{ApiErrorKind, LokiApiError};
use crate::records::{
    hex_text, DurableMetricPoint, MetricExemplar, MetricKind, MetricValue, NumberValue, SpanId,
    TraceId,
};
use crate::string_map::{pair_views, pairs_map, StringMap};

verus! {

/// Name of a metric kind.
pub open spec fn kind_name(kind: MetricKind) -> Seq<char> {
    match kind {
        MetricKind::Gauge => "gauge"@,
        MetricKind::Sum { .. } => "sum"@,
        MetricKind::ExplicitHistogram { .. } => "explicit_histogram"@,
        MetricKind::ExponentialHistogram { .. } => "exponential_histogram"@,
        MetricKind::Summary => "summary"@,
    }
}

fn kind_text(kind: MetricKind) -> (name: &'static str)
    ensures
        name@ == kind_name(kind),
{
    match kind {
        MetricKind::Gauge => "gauge",
        MetricKind::Sum { .. } => "sum",
        MetricKind::ExplicitHistogram { .. } => "explicit_histogram",
        MetricKind::ExponentialHistogram { .. } => "exponential_histogram",
        MetricKind::Summary => "summary",
    }
}

/// Aggregation temporality of a metric kind.
pub open spec fn kind_temporality(kind: MetricKind) -> Option<i32> {
    match kind {
        MetricKind::Gauge => None,
        MetricKind::Sum { temporality, .. } => Some(temporality),
        MetricKind::ExplicitHistogram { temporality } => Some(temporality),
        MetricKind::ExponentialHistogram { temporality } => Some(temporality),
        MetricKind::Summary => None,
    }
}

fn temporality_of(kind: MetricKind) -> (temporality: Option<i32>)
    ensures
        temporality == kind_temporality(kind),
{
    match kind {
        MetricKind::Gauge => None,
        MetricKind::Sum { temporality, .. } => Some(temporality),
        MetricKind::ExplicitHistogram { temporality } => Some(temporality),
        MetricKind::ExponentialHistogram { temporality } => Some(temporality),
        MetricKind::Summary => None,
    }
}

/// Whether a sum only grows.
pub open spec fn kind_monotonic(kind: MetricKind) -> Option<bool> {
    match kind {
        MetricKind::Sum { monotonic, .. } => Some(monotonic),
        _ => None,
    }
}

fn monotonic_of(kind: MetricKind) -> (monotonic: Option<bool>)
    ensures
        monotonic == kind_monotonic(kind),
{
    match kind {
        MetricKind::Sum { monotonic, .. } => Some(monotonic),
        _ => None,
    }
}

/// The scalar of a value, where it is one.
pub open spec fn scalar(value: MetricValue) -> Option<NumberValue> {
    match value {
        MetricValue::Gauge(number) => Some(number),
        MetricValue::Sum(number) => Some(number),
        _ => None,
    }
}

/// The integer of a value, where it is one.
pub open spec fn scalar_integer(value: MetricValue) -> Option<i64> {
    match scalar(value) {
        Some(NumberValue::Integer(number)) => Some(number),
        _ => None,
    }
}

/// Integer of a value, where it is one.
pub fn integer_of(value: &MetricValue) -> (number: Option<i64>)
    ensures
        number == scalar_integer(*value),
{
    match value {
        MetricValue::Gauge(NumberValue::Integer(number)) => Some(*number),
        MetricValue::Sum(NumberValue::Integer(number)) => Some(*number),
        _ => None,
    }
}

/// The double bits of a value, where it is a double.
pub open spec fn scalar_double_bits(value: MetricValue) -> Option<u64> {
    match scalar(value) {
        Some(NumberValue::DoubleBits(bits)) => Some(bits),
        _ => None,
    }
}

/// Double bits of a value, where it is a double.
pub fn double_bits_of(value: &MetricValue) -> (bits: Option<u64>)
    ensures
        bits == scalar_double_bits(*value),
{
    match value {
        MetricValue::Gauge(NumberValue::DoubleBits(bits)) => Some(*bits),
        MetricValue::Sum(NumberValue::DoubleBits(bits)) => Some(*bits),
        _ => None,
    }
}

/// Name of the type of a number.
pub open spec fn number_type(number: NumberValue) -> Seq<char> {
    match number {
        NumberValue::Integer(_) => "integer"@,
        NumberValue::DoubleBits(_) => "double"@,
    }
}

/// Name of the type of a value.
pub open spec fn value_type_name(value: MetricValue) -> Seq<char> {
    match value {
        MetricValue::Gauge(number) => number_type(number),
        MetricValue::Sum(number) => number_type(number),
        MetricValue::ExplicitHistogram(_) => "explicit_histogram"@,
        MetricValue::ExponentialHistogram(_) => "exponential_histogram"@,
        MetricValue::Summary(_) => "summary"@,
    }
}

fn number_type_text(number: &NumberValue) -> (name: &'static str)
    ensures
        name@ == number_type(*number),
{
    match number {
        NumberValue::Integer(_) => "integer",
        NumberValue::DoubleBits(_) => "double",
    }
}

fn value_type_text(value: &MetricValue) -> (name: &'static str)
    ensures
        name@ == value_type_name(*value),
{
    match value {
        MetricValue::Gauge(number) => number_type_text(number),
        MetricValue::Sum(number) => number_type_text(number),
        MetricValue::ExplicitHistogram(_) => "explicit_histogram",
        MetricValue::ExponentialHistogram(_) => "exponential_histogram",
        MetricValue::Summary(_) => "summary",
    }
}

/// The cells that say which series a row belongs to.
pub open spec fn metric_base_cell(
    point: DurableMetricPoint,
    timestamp: u64,
    rendered: Rendered,
    column: AnalyticsColumn,
) -> Cell {
    match column {
        AnalyticsColumn::ResourceId => id_cell(point.identity.resource.identity().0),
        AnalyticsColumn::ScopeId => id_cell(point.identity.scope.identity().0),
        AnalyticsColumn::SeriesId => id_cell(point.identity.series().0),
        AnalyticsColumn::Name => Cell::Text(point.identity.name@),
        AnalyticsColumn::Labels => Cell::TextMap(pairs_map(pair_views(rendered.labels@))),
        _ => context_attributes_cell(
            base_cell(
                point.identity.tenant@,
                "metrics"@,
                timestamp,
                point.record_ref.topic_partition.partition_id.0,
                point.record_ref.offset.0,
                column,
            ),
            point.identity.resource.attributes@,
            point.identity.scope.attributes@,
            rendered,
            column,
        ),
    }
}

/// The cell of a metric point.
pub open spec fn metric_cell(
    point: DurableMetricPoint,
    rendered: Rendered,
    column: AnalyticsColumn,
) -> Cell {
    match column {
        AnalyticsColumn::StartTimestamp => timestamp_cell(
            optional_time(point.start_time_unix_nanos),
        ),
        AnalyticsColumn::Description => Cell::Text(point.description@),
        AnalyticsColumn::Unit => Cell::Text(point.identity.unit@),
        AnalyticsColumn::MetricKind => Cell::Text(kind_name(point.identity.kind)),
        AnalyticsColumn::Temporality => i32_cell(kind_temporality(point.identity.kind)),
        AnalyticsColumn::Monotonic => bool_cell(kind_monotonic(point.identity.kind)),
        AnalyticsColumn::Flags => Cell::UInt32(point.flags),
        AnalyticsColumn::Metadata => Cell::TextMap(
            attributes_by_key(point.metadata@, rendered.metadata@),
        ),
        AnalyticsColumn::ValueType => Cell::Text(value_type_name(point.value)),
        AnalyticsColumn::ScalarInteger => i64_cell(scalar_integer(point.value)),
        AnalyticsColumn::ScalarDoubleBits => u64_cell(scalar_double_bits(point.value)),
        AnalyticsColumn::ValueJson => text_cell(rendered.value_json),
        AnalyticsColumn::ExemplarsJson => text_cell(rendered.exemplars_json),
        _ => record_attributes_cell(
            metric_base_cell(point, point.timestamp_unix_nanos, rendered, column),
            point.identity.point_attributes@,
            rendered.attributes@,
            rendered.attributes_json,
            column,
        ),
    }
}

/// Optional trace identity as a cell.
pub open spec fn trace_id_cell(id: Option<TraceId>) -> Cell {
    match id {
        Some(found) => id_cell(found.0),
        None => Cell::Null,
    }
}

/// The cell of the `index`-th exemplar of a point.
pub open spec fn exemplar_cell(
    point: DurableMetricPoint,
    index: int,
    rendered: Rendered,
    column: AnalyticsColumn,
) -> Cell {
    let exemplar = point.exemplars@[index];
    match column {
        AnalyticsColumn::ParentTimestamp => Cell::Timestamp(point.timestamp_unix_nanos as i64),
        AnalyticsColumn::Ordinal => Cell::UInt32(ordinal_of(index)),
        AnalyticsColumn::TraceId => trace_id_cell(exemplar.trace_id),
        AnalyticsColumn::SpanId => span_id_cell(exemplar.span_id),
        AnalyticsColumn::ValueType => Cell::Text(number_type(exemplar.value)),
        AnalyticsColumn::ScalarInteger => match exemplar.value {
            NumberValue::Integer(number) => Cell::Int64(number),
            NumberValue::DoubleBits(_) => Cell::Null,
        },
        AnalyticsColumn::ScalarDoubleBits => match exemplar.value {
            NumberValue::Integer(_) => Cell::Null,
            NumberValue::DoubleBits(bits) => Cell::UInt64(bits),
        },
        _ => record_attributes_cell(
            metric_base_cell(point, exemplar.timestamp_unix_nanos, rendered, column),
            exemplar.filtered_attributes@,
            rendered.attributes@,
            rendered.attributes_json,
            column,
        ),
    }
}

/// Fills the columns that say which series a row belongs to.
fn set_metric_context(row: &mut AnalyticsRow, point: &DurableMetricPoint, rendered: &Rendered)
    ensures
        *final(row) == (AnalyticsRow {
            resource_id: final(row).resource_id,
            scope_id: final(row).scope_id,
            series_id: final(row).series_id,
            name: final(row).name,
            labels: final(row).labels,
            resource_attributes: final(row).resource_attributes,
            scope_attributes: final(row).scope_attributes,
            resource_attribute_ids: final(row).resource_attribute_ids,
            scope_attribute_ids: final(row).scope_attribute_ids,
            resource_attributes_json: final(row).resource_attributes_json,
            scope_attributes_json: final(row).scope_attributes_json,
            ..*old(row)
        }),
        text_cell(final(row).resource_id) == id_cell(point.identity.resource.identity().0),
        text_cell(final(row).scope_id) == id_cell(point.identity.scope.identity().0),
        text_cell(final(row).series_id) == id_cell(point.identity.series().0),
        text_cell(final(row).name) == Cell::Text(point.identity.name@),
        final(row).labels@ == pairs_map(pair_views(rendered.labels@)),
        final(row).resource_attributes@ == attributes_by_key(
            point.identity.resource.attributes@,
            rendered.resource_attributes@,
        ),
        final(row).scope_attributes@ == attributes_by_key(
            point.identity.scope.attributes@,
            rendered.scope_attributes@,
        ),
        final(row).resource_attribute_ids@ == ids_by_key(point.identity.resource.attributes@),
        final(row).scope_attribute_ids@ == ids_by_key(point.identity.scope.attributes@),
        text_cell(final(row).resource_attributes_json) == text_cell(
            rendered.resource_attributes_json,
        ),
        text_cell(final(row).scope_attributes_json) == text_cell(rendered.scope_attributes_json),
{
    let identity = &point.identity;
    row.resource_id = Some(hex_text(identity.resource_id().0, 32));
    row.scope_id = Some(hex_text(identity.scope_id().0, 32));
    row.series_id = Some(hex_text(point.series_fingerprint().get(), 32));
    row.name = Some(identity.name.clone());
    row.labels = collect_pairs(rendered.labels.as_slice());
    set_context_attributes(
        row,
        identity.resource.attributes.as_slice(),
        identity.scope.attributes.as_slice(),
        rendered,
    );
}

/// Whether the times of a point row are in the range of ClickHouse.
pub open spec fn point_in_range(point: DurableMetricPoint) -> bool {
    point.timestamp_unix_nanos <= i64::MAX && point.start_time_unix_nanos <= i64::MAX
}

/// Builds the complete row of a metric point.
pub fn metric_row(point: &DurableMetricPoint, rendered: &Rendered) -> (result: Result<
    AnalyticsRow,
    LokiApiError,
>)
    ensures
        match result {
            Ok(row) => point_in_range(*point) && forall|column: AnalyticsColumn| #[trigger]
                row.cell(column) == metric_cell(*point, *rendered, column),
            Err(error) => !point_in_range(*point) && time_out_of_range(error),
        },
{
    let mut row = match AnalyticsRow::empty(
        point.identity.tenant.as_str(),
        "metrics",
        point.timestamp_unix_nanos,
        point.record_ref.topic_partition.partition_id.get(),
        point.record_ref.offset.get(),
    ) {
        Ok(row) => row,
        Err(error) => {
            return Err(error);
        },
    };
    set_metric_context(&mut row, point, rendered);
    row.start_timestamp_unix_nanos = match nonzero_timestamp(point.start_time_unix_nanos) {
        Ok(time) => time,
        Err(error) => {
            return Err(error);
        },
    };
    row.description = Some(point.description.clone());
    row.unit = Some(point.identity.unit.clone());
    row.metric_kind = Some(kind_text(point.identity.kind).to_owned());
    row.temporality = temporality_of(point.identity.kind);
    row.monotonic = monotonic_of(point.identity.kind);
    row.flags = Some(point.flags);
    row.metadata = attribute_map(point.metadata.as_slice(), rendered.metadata.as_slice());
    set_record_attributes(
        &mut row,
        point.identity.point_attributes.as_slice(),
        rendered.attributes.as_slice(),
        &rendered.attributes_json,
    );
    row.value_type = Some(value_type_text(&point.value).to_owned());
    row.scalar_integer = integer_of(&point.value);
    row.scalar_double_bits = double_bits_of(&point.value);
    row.value_json = copy_text(&rendered.value_json);
    row.exemplars_json = copy_text(&rendered.exemplars_json);
    Ok(row)
}

/// Whether the times of an exemplar row are in the range of ClickHouse.
pub open spec fn exemplar_in_range(point: DurableMetricPoint, index: int) -> bool {
    point.exemplars@[index].timestamp_unix_nanos <= i64::MAX && point.timestamp_unix_nanos
        <= i64::MAX
}

fn trace_id_text(id: Option<TraceId>) -> (text: Option<String>)
    ensures
        text_cell(text) == trace_id_cell(id),
{
    match id {
        Some(found) => Some(found.text()),
        None => None,
    }
}

fn span_id_text(id: Option<SpanId>) -> (text: Option<String>)
    ensures
        text_cell(text) == span_id_cell(id),
{
    match id {
        Some(found) => Some(found.text()),
        None => None,
    }
}

/// Builds the row of one exemplar.
fn exemplar_row(point: &DurableMetricPoint, index: usize, rendered: &Rendered) -> (result: Result<
    AnalyticsRow,
    LokiApiError,
>)
    requires
        index < point.exemplars@.len(),
    ensures
        match result {
            Ok(row) => exemplar_in_range(*point, index as int) && forall|column: AnalyticsColumn|
                #[trigger]
                row.cell(column) == exemplar_cell(*point, index as int, *rendered, column),
            Err(error) => !exemplar_in_range(*point, index as int) && time_out_of_range(error),
        },
{
    let exemplar: &MetricExemplar = &point.exemplars[index];
    let mut row = match AnalyticsRow::empty(
        point.identity.tenant.as_str(),
        "metrics",
        exemplar.timestamp_unix_nanos,
        point.record_ref.topic_partition.partition_id.get(),
        point.record_ref.offset.get(),
    ) {
        Ok(row) => row,
        Err(error) => {
            return Err(error);
        },
    };
    set_metric_context(&mut row, point, rendered);
    row.parent_timestamp_unix_nanos = match timestamp_i64(point.timestamp_unix_nanos) {
        Ok(time) => Some(time),
        Err(error) => {
            return Err(error);
        },
    };
    row.ordinal = Some(ordinal(index));
    row.trace_id = trace_id_text(exemplar.trace_id);
    row.span_id = span_id_text(exemplar.span_id);
    row.value_type = Some(number_type_text(&exemplar.value).to_owned());
    row.scalar_integer = match exemplar.value {
        NumberValue::Integer(number) => Some(number),
        NumberValue::DoubleBits(_) => None,
    };
    row.scalar_double_bits = match exemplar.value {
        NumberValue::Integer(_) => None,
        NumberValue::DoubleBits(bits) => Some(bits),
    };
    set_record_attributes(
        &mut row,
        exemplar.filtered_attributes.as_slice(),
        rendered.attributes.as_slice(),
        &rendered.attributes_json,
    );
    Ok(row)
}

/// How many rows a metric point has in a relation.
pub open spec fn metric_row_count(point: DurableMetricPoint, relation: AnalyticsRelation) -> nat {
    match relation {
        AnalyticsRelation::MetricPoints => 1,
        AnalyticsRelation::MetricExemplars => point.exemplars@.len(),
        _ => 0,
    }
}

/// The cell of the `index`-th row of a metric point in a relation.
pub open spec fn metric_relation_cell(
    point: DurableMetricPoint,
    relation: AnalyticsRelation,
    index: int,
    rendered: Rendered,
    column: AnalyticsColumn,
) -> Cell {
    if relation is MetricExemplars {
        exemplar_cell(point, index, rendered, column)
    } else {
        metric_cell(point, rendered, column)
    }
}

/// Whether the times of the `index`-th row are in the range of ClickHouse.
pub open spec fn metric_row_in_range(
    point: DurableMetricPoint,
    relation: AnalyticsRelation,
    index: int,
) -> bool {
    if relation is MetricExemplars {
        exemplar_in_range(point, index)
    } else {
        point_in_range(point)
    }
}

/// Builds the rows of a metric point in one relation, each with its own texts.
pub fn metric_rows(
    point: &DurableMetricPoint,
    relation: AnalyticsRelation,
    rendered: &Vec<Rendered>,
) -> (result: Result<Vec<AnalyticsRow>, LokiApiError>)
    requires
        rendered@.len() >= metric_row_count(*point, relation),
    ensures
        match result {
            Ok(rows) => {
                &&& relation.parent_signal() == "metrics"@
                &&& rows@.len() == metric_row_count(*point, relation)
                &&& forall|i: int, column: AnalyticsColumn|
                    0 <= i < rows@.len() ==> #[trigger] rows@[i].cell(column)
                        == metric_relation_cell(*point, relation, i, rendered@[i], column)
                &&& forall|i: int|
                    0 <= i < rows@.len() ==> #[trigger] metric_row_in_range(*point, relation, i)
            },
            Err(error) => if relation is MetricPoints || relation is MetricExemplars {
                time_out_of_range(error) && exists|i: int|
                    0 <= i < metric_row_count(*point, relation) && !(
                    #[trigger] metric_row_in_range(*point, relation, i))
            } else {
                error.says(ApiErrorKind::Internal, "metric scanner received a non-metric relation"@)
            },
        },
{
    let count = match relation {
        AnalyticsRelation::MetricPoints => 1,
        AnalyticsRelation::MetricExemplars => point.exemplars.len(),
        _ => {
            return Err(LokiApiError::internal("metric scanner received a non-metric relation"));
        },
    };
    let mut rows: Vec<AnalyticsRow> = Vec::new();
    let mut index: usize = 0;
    while index < count
        invariant
            count == metric_row_count(*point, relation),
            relation is MetricPoints || relation is MetricExemplars,
            index <= count,
            rows@.len() == index,
            rendered@.len() >= count,
            forall|i: int, column: AnalyticsColumn|
                0 <= i < index ==> #[trigger] rows@[i].cell(column) == metric_relation_cell(
                    *point,
                    relation,
                    i,
                    rendered@[i],
                    column,
                ),
            forall|i: int| 0 <= i < index ==> #[trigger] metric_row_in_range(*point, relation, i),
        decreases count - index,
    {
        let built = match relation {
            AnalyticsRelation::MetricExemplars => exemplar_row(point, index, &rendered[index]),
            _ => metric_row(point, &rendered[index]),
        };
        match built {
            Ok(row) => {
                assert(metric_row_in_range(*point, relation, index as int));
                rows.push(row);
            },
            Err(error) => {
                assert(!metric_row_in_range(*point, relation, index as int));
                return Err(error);
            },
        }
        index = index + 1;
    }
    Ok(rows)
}

/// Fills the series columns that a projection names and clears the others.
fn populate_projected_series(
    row: &mut AnalyticsRow,
    columns: &[AnalyticsColumn],
    point: &DurableMetricPoint,
    rendered: &Rendered,
)
    ensures
        *final(row) == (AnalyticsRow {
            resource_id: final(row).resource_id,
            scope_id: final(row).scope_id,
            series_id: final(row).series_id,
            name: final(row).name,
            labels: final(row).labels,
            description: final(row).description,
            unit: final(row).unit,
            ..*old(row)
        }),
        text_cell(final(row).resource_id) == (if names_column(columns@, AnalyticsColumn::ResourceId) {
            id_cell(point.identity.resource.identity().0)
        } else {
            Cell::Null
        }),
        text_cell(final(row).scope_id) == (if names_column(columns@, AnalyticsColumn::ScopeId) {
            id_cell(point.identity.scope.identity().0)
        } else {
            Cell::Null
        }),
        text_cell(final(row).series_id) == (if names_column(columns@, AnalyticsColumn::SeriesId) {
            id_cell(point.identity.series().0)
        } else {
            Cell::Null
        }),
        text_cell(final(row).name) == (if names_column(columns@, AnalyticsColumn::Name) {
            Cell::Text(point.identity.name@)
        } else {
            Cell::Null
        }),
        final(row).labels@ == (if names_column(columns@, AnalyticsColumn::Labels) {
            pairs_map(pair_views(rendered.labels@))
        } else {
            Map::<Seq<char>, Seq<char>>::empty()
        }),
        text_cell(final(row).description) == (if names_column(columns@, AnalyticsColumn::Description) {
            Cell::Text(point.description@)
        } else {
            Cell::Null
        }),
        text_cell(final(row).unit) == (if names_column(columns@, AnalyticsColumn::Unit) {
            Cell::Text(point.identity.unit@)
        } else {
            Cell::Null
        }),
{
    row.resource_id = if wants(columns, AnalyticsColumn::ResourceId) {
        Some(hex_text(point.identity.resource_id().0, 32))
    } else {
        None
    };
    row.scope_id = if wants(columns, AnalyticsColumn::ScopeId) {
        Some(hex_text(point.identity.scope_id().0, 32))
    } else {
        None
    };
    row.series_id = if wants(columns, AnalyticsColumn::SeriesId) {
        Some(hex_text(point.series_fingerprint().get(), 32))
    } else {
        None
    };
    row.name = if wants(columns, AnalyticsColumn::Name) {
        Some(point.identity.name.clone())
    } else {
        None
    };
    row.labels = if wants(columns, AnalyticsColumn::Labels) {
        collect_pairs(rendered.labels.as_slice())
    } else {
        StringMap::new()
    };
    row.description = if wants(columns, AnalyticsColumn::Description) {
        Some(point.description.clone())
    } else {
        None
    };
    row.unit = if wants(columns, AnalyticsColumn::Unit) {
        Some(point.identity.unit.clone())
    } else {
        None
    };
}

/// Fills the columns of a point's own fields that a projection names and clears
/// the others.
fn populate_projected_point(
    row: &mut AnalyticsRow,
    columns: &[AnalyticsColumn],
    point: &DurableMetricPoint,
    rendered: &Rendered,
)
    ensures
        *final(row) == (AnalyticsRow {
            metric_kind: final(row).metric_kind,
            temporality: final(row).temporality,
            monotonic: final(row).monotonic,
            flags: final(row).flags,
            metadata: final(row).metadata,
            scalar_integer: final(row).scalar_integer,
            scalar_double_bits: final(row).scalar_double_bits,
            value_json: final(row).value_json,
            exemplars_json: final(row).exemplars_json,
            ..*old(row)
        }),
        text_cell(final(row).metric_kind) == (if names_column(columns@, AnalyticsColumn::MetricKind) {
            Cell::Text(kind_name(point.identity.kind))
        } else {
            Cell::Null
        }),
        final(row).temporality == (if names_column(columns@, AnalyticsColumn::Temporality) {
            kind_temporality(point.identity.kind)
        } else {
            None
        }),
        final(row).monotonic == (if names_column(columns@, AnalyticsColumn::Monotonic) {
            kind_monotonic(point.identity.kind)
        } else {
            None
        }),
        final(row).flags == (if names_column(columns@, AnalyticsColumn::Flags) {
            Some(point.flags)
        } else {
            None
        }),
        final(row).metadata@ == (if names_column(columns@, AnalyticsColumn::Metadata) {
            attributes_by_key(point.metadata@, rendered.metadata@)
        } else {
            Map::<Seq<char>, Seq<char>>::empty()
        }),
        final(row).scalar_integer == (if names_column(columns@, AnalyticsColumn::ScalarInteger) {
            scalar_integer(point.value)
        } else {
            None
        }),
        final(row).scalar_double_bits == (if names_column(columns@, AnalyticsColumn::ScalarDoubleBits) {
            scalar_double_bits(point.value)
        } else {
            None
        }),
        text_cell(final(row).value_json) == (if names_column(columns@, AnalyticsColumn::ValueJson) {
            text_cell(rendered.value_json)
        } else {
            Cell::Null
        }),
        text_cell(final(row).exemplars_json) == (if names_column(columns@, AnalyticsColumn::ExemplarsJson) {
            text_cell(rendered.exemplars_json)
        } else {
            Cell::Null
        }),
{
    row.metric_kind = if wants(columns, AnalyticsColumn::MetricKind) {
        Some(kind_text(point.identity.kind).to_owned())
    } else {
        None
    };
    row.temporality = if wants(columns, AnalyticsColumn::Temporality) {
        temporality_of(point.identity.kind)
    } else {
        None
    };
    row.monotonic = if wants(columns, AnalyticsColumn::Monotonic) {
        monotonic_of(point.identity.kind)
    } else {
        None
    };
    row.flags = if wants(columns, AnalyticsColumn::Flags) {
        Some(point.flags)
    } else {
        None
    };
    row.metadata = if wants(columns, AnalyticsColumn::Metadata) {
        attribute_map(point.metadata.as_slice(), rendered.metadata.as_slice())
    } else {
        StringMap::new()
    };
    row.scalar_integer = if wants(columns, AnalyticsColumn::ScalarInteger) {
        integer_of(&point.value)
    } else {
        None
    };
    row.scalar_double_bits = if wants(columns, AnalyticsColumn::ScalarDoubleBits) {
        double_bits_of(&point.value)
    } else {
        None
    };
    row.value_json = if wants(columns, AnalyticsColumn::ValueJson) {
        copy_text(&rendered.value_json)
    } else {
        None
    };
    row.exemplars_json = if wants(columns, AnalyticsColumn::ExemplarsJson) {
        copy_text(&rendered.exemplars_json)
    } else {
        None
    };
}

/// Whether a projection makes a row show the type of its value: where the type
/// is named, and of values that are no scalar also where a scalar is named.
pub open spec fn shows_value_type(columns: Seq<AnalyticsColumn>, value: MetricValue) -> bool {
    names_column(columns, AnalyticsColumn::ValueType) || (scalar(value) is None && (names_column(columns, AnalyticsColumn::ScalarInteger) || names_column(columns, AnalyticsColumn::ScalarDoubleBits)))
}

/// The cell of a projected metric row.
pub open spec fn projected_metric_cell(
    point: DurableMetricPoint,
    columns: Seq<AnalyticsColumn>,
    rendered: Rendered,
    column: AnalyticsColumn,
) -> Cell {
    if column is ValueType {
        if shows_value_type(columns, point.value) {
            metric_cell(point, rendered, column)
        } else {
            Cell::Null
        }
    } else if shown(columns, column) {
        metric_cell(point, rendered, column)
    } else {
        blank(column)
    }
}

/// What a projected metric row holds, field by field.
spec fn projected_metric_fields(
    row: AnalyticsRow,
    point: DurableMetricPoint,
    columns: Seq<AnalyticsColumn>,
    rendered: Rendered,
) -> bool {
    &&& text_cell(row.resource_id) == (if names_column(columns, AnalyticsColumn::ResourceId) {
        id_cell(point.identity.resource.identity().0)
    } else {
        Cell::Null})
    &&& text_cell(row.scope_id) == (if names_column(columns, AnalyticsColumn::ScopeId) {
        id_cell(point.identity.scope.identity().0)
    } else {
        Cell::Null})
    &&& text_cell(row.series_id) == (if names_column(columns, AnalyticsColumn::SeriesId) {
        id_cell(point.identity.series().0)
    } else {
        Cell::Null})
    &&& text_cell(row.name) == (if names_column(columns, AnalyticsColumn::Name) {
        Cell::Text(point.identity.name@)
    } else {
        Cell::Null})
    &&& row.labels@ == (if names_column(columns, AnalyticsColumn::Labels) {
        pairs_map(pair_views(rendered.labels@))
    } else {
        Map::<Seq<char>, Seq<char>>::empty()})
    &&& text_cell(row.description) == (if names_column(columns, AnalyticsColumn::Description) {
        Cell::Text(point.description@)
    } else {
        Cell::Null})
    &&& text_cell(row.unit) == (if names_column(columns, AnalyticsColumn::Unit) {
        Cell::Text(point.identity.unit@)
    } else {
        Cell::Null})
    &&& text_cell(row.metric_kind) == (if names_column(columns, AnalyticsColumn::MetricKind) {
        Cell::Text(kind_name(point.identity.kind))
    } else {
        Cell::Null})
    &&& row.temporality == (if names_column(columns, AnalyticsColumn::Temporality) {
        kind_temporality(point.identity.kind)
    } else {
        None})
    &&& row.monotonic == (if names_column(columns, AnalyticsColumn::Monotonic) {
        kind_monotonic(point.identity.kind)
    } else {
        None})
    &&& row.flags == (if names_column(columns, AnalyticsColumn::Flags) {
        Some(point.flags)
    } else {
        None})
    &&& row.metadata@ == (if names_column(columns, AnalyticsColumn::Metadata) {
        attributes_by_key(point.metadata@, rendered.metadata@)
    } else {
        Map::<Seq<char>, Seq<char>>::empty()})
    &&& row.scalar_integer == (if names_column(columns, AnalyticsColumn::ScalarInteger) {
        scalar_integer(point.value)
    } else {
        None})
    &&& row.scalar_double_bits == (if names_column(columns, AnalyticsColumn::ScalarDoubleBits) {
        scalar_double_bits(point.value)
    } else {
        None})
    &&& text_cell(row.value_json) == (if names_column(columns, AnalyticsColumn::ValueJson) {
        text_cell(rendered.value_json)
    } else {
        Cell::Null})
    &&& text_cell(row.exemplars_json) == (if names_column(columns, AnalyticsColumn::ExemplarsJson) {
        text_cell(rendered.exemplars_json)
    } else {
        Cell::Null})
    &&& row.attributes@ == (if names_column(columns, AnalyticsColumn::Attributes) {
        attributes_by_key(point.identity.point_attributes@, rendered.attributes@)
    } else {
        Map::<Seq<char>, Seq<char>>::empty()})
    &&& row.resource_attributes@ == (if names_column(columns, AnalyticsColumn::ResourceAttributes) {
        attributes_by_key(point.identity.resource.attributes@, rendered.resource_attributes@)
    } else {
        Map::<Seq<char>, Seq<char>>::empty()})
    &&& row.scope_attributes@ == (if names_column(columns, AnalyticsColumn::ScopeAttributes) {
        attributes_by_key(point.identity.scope.attributes@, rendered.scope_attributes@)
    } else {
        Map::<Seq<char>, Seq<char>>::empty()})
    &&& row.attribute_ids@ == (if names_column(columns, AnalyticsColumn::AttributeIds) {
        ids_by_key(point.identity.point_attributes@)
    } else {
        Map::<Seq<char>, Seq<char>>::empty()})
    &&& row.resource_attribute_ids@ == (if names_column(columns, AnalyticsColumn::ResourceAttributeIds) {
        ids_by_key(point.identity.resource.attributes@)
    } else {
        Map::<Seq<char>, Seq<char>>::empty()})
    &&& row.scope_attribute_ids@ == (if names_column(columns, AnalyticsColumn::ScopeAttributeIds) {
        ids_by_key(point.identity.scope.attributes@)
    } else {
        Map::<Seq<char>, Seq<char>>::empty()})
    &&& text_cell(row.attributes_json) == (if names_column(columns, AnalyticsColumn::AttributesJson) {
        text_cell(rendered.attributes_json)
    } else {
        Cell::Null})
    &&& text_cell(row.resource_attributes_json) == (if names_column(columns, AnalyticsColumn::ResourceAttributesJson) {
        text_cell(rendered.resource_attributes_json)
    } else {
        Cell::Null})
    &&& text_cell(row.scope_attributes_json) == (if names_column(columns, AnalyticsColumn::ScopeAttributesJson) {
        text_cell(rendered.scope_attributes_json)
    } else {
        Cell::Null})
    &&& row.start_timestamp_unix_nanos == (if names_column(columns, AnalyticsColumn::StartTimestamp) {
        optional_time(point.start_time_unix_nanos)
    } else {
        None
    })
    &&& text_cell(row.value_type) == (if shows_value_type(columns, point.value) {
        Cell::Text(value_type_name(point.value))
    } else {
        Cell::Null
    })
    &&& row.tenant@ == point.identity.tenant@
    &&& row.signal@ == "metrics"@
    &&& row.timestamp_unix_nanos == point.timestamp_unix_nanos as i64
    &&& row.partition == point.record_ref.topic_partition.partition_id.0
    &&& row.offset == point.record_ref.offset.0
    &&& row.parent_timestamp_unix_nanos is None
    &&& row.observed_timestamp_unix_nanos is None
    &&& row.end_timestamp_unix_nanos is None
    &&& row.ordinal is None
    &&& row.trace_id is None
    &&& row.span_id is None
    &&& row.parent_span_id is None
    &&& row.linked_trace_id is None
    &&& row.linked_span_id is None
    &&& row.message is None
    &&& row.body_json is None
    &&& row.event_name is None
    &&& row.severity_number is None
    &&& row.severity_text is None
    &&& row.kind is None
    &&& row.duration_nanos is None
    &&& row.status_code is None
    &&& row.status_message is None
    &&& row.trace_state is None
    &&& row.dropped_attributes_count is None
    &&& row.dropped_events_count is None
    &&& row.dropped_links_count is None
    &&& row.events_json is None
    &&& row.links_json is None
}

/// One column of a projected metric row is as stated.
#[verifier::opaque]
spec fn projected_metric_agrees(
    row: AnalyticsRow,
    point: DurableMetricPoint,
    columns: Seq<AnalyticsColumn>,
    rendered: Rendered,
    column: AnalyticsColumn,
) -> bool {
    row.cell(column) == projected_metric_cell(point, columns, rendered, column)
}

proof fn lemma_projected_metric_columns(
    row: AnalyticsRow,
    point: DurableMetricPoint,
    columns: Seq<AnalyticsColumn>,
    rendered: Rendered,
)
    requires
        projected_metric_fields(row, point, columns, rendered),
    ensures
        projected_metric_agrees(row, point, columns, rendered, AnalyticsColumn::Tenant),
        projected_metric_agrees(row, point, columns, rendered, AnalyticsColumn::Signal),
        projected_metric_agrees(row, point, columns, rendered, AnalyticsColumn::Timestamp),
        projected_metric_agrees(row, point, columns, rendered, AnalyticsColumn::ParentTimestamp),
        projected_metric_agrees(row, point, columns, rendered, AnalyticsColumn::ObservedTimestamp),
        projected_metric_agrees(row, point, columns, rendered, AnalyticsColumn::StartTimestamp),
        projected_metric_agrees(row, point, columns, rendered, AnalyticsColumn::EndTimestamp),
        projected_metric_agrees(row, point, columns, rendered, AnalyticsColumn::Partition),
        projected_metric_agrees(row, point, columns, rendered, AnalyticsColumn::Offset),
        projected_metric_agrees(row, point, columns, rendered, AnalyticsColumn::Ordinal),
        projected_metric_agrees(row, point, columns, rendered, AnalyticsColumn::ResourceId),
        projected_metric_agrees(row, point, columns, rendered, AnalyticsColumn::ScopeId),
        projected_metric_agrees(row, point, columns, rendered, AnalyticsColumn::TraceId),
        projected_metric_agrees(row, point, columns, rendered, AnalyticsColumn::SpanId),
        projected_metric_agrees(row, point, columns, rendered, AnalyticsColumn::ParentSpanId),
        projected_metric_agrees(row, point, columns, rendered, AnalyticsColumn::LinkedTraceId),
        projected_metric_agrees(row, point, columns, rendered, AnalyticsColumn::LinkedSpanId),
        projected_metric_agrees(row, point, columns, rendered, AnalyticsColumn::SeriesId),
        projected_metric_agrees(row, point, columns, rendered, AnalyticsColumn::Message),
        projected_metric_agrees(row, point, columns, rendered, AnalyticsColumn::BodyJson),
        projected_metric_agrees(row, point, columns, rendered, AnalyticsColumn::Name),
        projected_metric_agrees(row, point, columns, rendered, AnalyticsColumn::EventName),
        projected_metric_agrees(row, point, columns, rendered, AnalyticsColumn::SeverityNumber),
        projected_metric_agrees(row, point, columns, rendered, AnalyticsColumn::SeverityText),
        projected_metric_agrees(row, point, columns, rendered, AnalyticsColumn::Kind),
        projected_metric_agrees(row, point, columns, rendered, AnalyticsColumn::DurationNanos),
        projected_metric_agrees(row, point, columns, rendered, AnalyticsColumn::StatusCode),
        projected_metric_agrees(row, point, columns, rendered, AnalyticsColumn::StatusMessage),
        projected_metric_agrees(row, point, columns, rendered, AnalyticsColumn::TraceState),
        projected_metric_agrees(row, point, columns, rendered, AnalyticsColumn::Flags),
        projected_metric_agrees(row, point, columns, rendered, AnalyticsColumn::DroppedAttributesCount),
        projected_metric_agrees(row, point, columns, rendered, AnalyticsColumn::DroppedEventsCount),
        projected_metric_agrees(row, point, columns, rendered, AnalyticsColumn::DroppedLinksCount),
        projected_metric_agrees(row, point, columns, rendered, AnalyticsColumn::Labels),
        projected_metric_agrees(row, point, columns, rendered, AnalyticsColumn::Metadata),
        projected_metric_agrees(row, point, columns, rendered, AnalyticsColumn::Attributes),
        projected_metric_agrees(row, point, columns, rendered, AnalyticsColumn::ResourceAttributes),
        projected_metric_agrees(row, point, columns, rendered, AnalyticsColumn::ScopeAttributes),
        projected_metric_agrees(row, point, columns, rendered, AnalyticsColumn::AttributeIds),
        projected_metric_agrees(row, point, columns, rendered, AnalyticsColumn::ResourceAttributeIds),
        projected_metric_agrees(row, point, columns, rendered, AnalyticsColumn::ScopeAttributeIds),
        projected_metric_agrees(row, point, columns, rendered, AnalyticsColumn::AttributesJson),
        projected_metric_agrees(row, point, columns, rendered, AnalyticsColumn::ResourceAttributesJson),
        projected_metric_agrees(row, point, columns, rendered, AnalyticsColumn::ScopeAttributesJson),
        projected_metric_agrees(row, point, columns, rendered, AnalyticsColumn::EventsJson),
        projected_metric_agrees(row, point, columns, rendered, AnalyticsColumn::LinksJson),
        projected_metric_agrees(row, point, columns, rendered, AnalyticsColumn::Description),
        projected_metric_agrees(row, point, columns, rendered, AnalyticsColumn::Unit),
        projected_metric_agrees(row, point, columns, rendered, AnalyticsColumn::MetricKind),
        projected_metric_agrees(row, point, columns, rendered, AnalyticsColumn::Temporality),
        projected_metric_agrees(row, point, columns, rendered, AnalyticsColumn::Monotonic),
        projected_metric_agrees(row, point, columns, rendered, AnalyticsColumn::ValueType),
        projected_metric_agrees(row, point, columns, rendered, AnalyticsColumn::ScalarInteger),
        projected_metric_agrees(row, point, columns, rendered, AnalyticsColumn::ScalarDoubleBits),
        projected_metric_agrees(row, point, columns, rendered, AnalyticsColumn::ValueJson),
        projected_metric_agrees(row, point, columns, rendered, AnalyticsColumn::ExemplarsJson),
{
    reveal(projected_metric_agrees);
}

proof fn lemma_projected_metric(
    row: AnalyticsRow,
    point: DurableMetricPoint,
    columns: Seq<AnalyticsColumn>,
    rendered: Rendered,
    column: AnalyticsColumn,
)
    requires
        projected_metric_fields(row, point, columns, rendered),
    ensures
        projected_metric_agrees(row, point, columns, rendered, column),
{
    lemma_projected_metric_columns(row, point, columns, rendered);
}

/// Builds only the requested columns of a metric point.
pub fn projected_metric_row(
    point: &DurableMetricPoint,
    columns: &[AnalyticsColumn],
    rendered: &Rendered,
) -> (result: Result<AnalyticsRow, LokiApiError>)
    ensures
        ({
            let in_range = point.timestamp_unix_nanos <= i64::MAX && (names_column(columns@, AnalyticsColumn::StartTimestamp) ==> point.start_time_unix_nanos <= i64::MAX);
            match result {
                Ok(row) => in_range && forall|column: AnalyticsColumn| #[trigger]
                    row.cell(column) == projected_metric_cell(*point, columns@, *rendered, column),
                Err(error) => !in_range && time_out_of_range(error),
            }
        }),
{
    let mut row = match AnalyticsRow::empty(
        point.identity.tenant.as_str(),
        "metrics",
        point.timestamp_unix_nanos,
        point.record_ref.topic_partition.partition_id.get(),
        point.record_ref.offset.get(),
    ) {
        Ok(row) => row,
        Err(error) => {
            return Err(error);
        },
    };
    populate_projected_series(&mut row, columns, point, rendered);
    populate_projected_attributes(
        &mut row,
        columns,
        point.identity.point_attributes.as_slice(),
        point.identity.resource.attributes.as_slice(),
        point.identity.scope.attributes.as_slice(),
        rendered,
    );
    row.start_timestamp_unix_nanos = if wants(columns, AnalyticsColumn::StartTimestamp) {
        match nonzero_timestamp(point.start_time_unix_nanos) {
            Ok(time) => time,
            Err(error) => {
                return Err(error);
            },
        }
    } else {
        None
    };
    populate_projected_point(&mut row, columns, point, rendered);
    let typed = wants(columns, AnalyticsColumn::ValueType) || (!is_scalar(&point.value) && (wants(
        columns,
        AnalyticsColumn::ScalarInteger,
    ) || wants(columns, AnalyticsColumn::ScalarDoubleBits)));
    row.value_type = if typed {
        Some(value_type_text(&point.value).to_owned())
    } else {
        None
    };
    proof {
        assert(projected_metric_fields(row, *point, columns@, *rendered));
        assert forall|column: AnalyticsColumn| #[trigger] row.cell(column)
            == projected_metric_cell(*point, columns@, *rendered, column) by {
            lemma_projected_metric(row, *point, columns@, *rendered, column);
            reveal(projected_metric_agrees);
        }
    }
    Ok(row)
}

fn is_scalar(value: &MetricValue) -> (scalar_value: bool)
    ensures
        scalar_value == (scalar(*value) is Some),
{
    match value {
        MetricValue::Gauge(_) => true,
        MetricValue::Sum(_) => true,
        _ => false,
    }
}

} // verus!
