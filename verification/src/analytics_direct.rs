//! Direct RowBinary encoding of narrow metric and span projections.

use vstd::prelude::*;

use crate::analytics_columns::AnalyticsColumn;
use crate::analytics_metrics::{
    double_bits_of, integer_of, metric_cell, scalar_double_bits, scalar_integer,
};
use crate::analytics_projection::{time_out_of_range, Rendered};
use crate::analytics_row::{
    i32_cell, i64_cell, nonzero_timestamp, optional_time, timestamp_cell, timestamp_i64, u64_cell,
    Cell,
};
use crate::analytics_rowbinary::{
    rowbinary_cell, rowbinary_cells, write_rowbinary_bytes, write_presence,
};
use crate::analytics_spans::{
    end_in_range, end_timestamp, signed_end, span_cell, span_status_code, status_code,
};
use crate::error::LokiApiError;
use crate::records::{DurableMetricPoint, DurableSpan};
use crate::wire::{push_u32, push_u64};

verus! {

/// Whether a metric column can be encoded directly.
pub open spec fn direct_metric_column(column: AnalyticsColumn) -> bool {
    match column {
        AnalyticsColumn::Timestamp => true,
        AnalyticsColumn::StartTimestamp => true,
        AnalyticsColumn::Partition => true,
        AnalyticsColumn::Offset => true,
        AnalyticsColumn::Name => true,
        AnalyticsColumn::ScalarInteger => true,
        AnalyticsColumn::ScalarDoubleBits => true,
        _ => false,
    }
}

/// Returns whether every column of a projection can be encoded directly.
pub fn can_direct_metric_projection(columns: &[AnalyticsColumn]) -> (direct: bool)
    ensures
        direct == (forall|i: int|
            0 <= i < columns@.len() ==> #[trigger] direct_metric_column(columns@[i])),
{
    let mut index: usize = 0;
    while index < columns.len()
        invariant
            forall|i: int| 0 <= i < index ==> #[trigger] direct_metric_column(columns@[i]),
        decreases columns@.len() - index,
    {
        let listed = match columns[index] {
            AnalyticsColumn::Timestamp => true,
            AnalyticsColumn::StartTimestamp => true,
            AnalyticsColumn::Partition => true,
            AnalyticsColumn::Offset => true,
            AnalyticsColumn::Name => true,
            AnalyticsColumn::ScalarInteger => true,
            AnalyticsColumn::ScalarDoubleBits => true,
            _ => false,
        };
        if !listed {
            assert(!direct_metric_column(columns@[index as int]));
            return false;
        }
        index = index + 1;
    }
    true
}

/// Whether a span column can be encoded directly.
pub open spec fn direct_span_column(column: AnalyticsColumn) -> bool {
    match column {
        AnalyticsColumn::Timestamp => true,
        AnalyticsColumn::EndTimestamp => true,
        AnalyticsColumn::Partition => true,
        AnalyticsColumn::Offset => true,
        AnalyticsColumn::Name => true,
        AnalyticsColumn::Kind => true,
        AnalyticsColumn::DurationNanos => true,
        AnalyticsColumn::StatusCode => true,
        _ => false,
    }
}

/// Returns whether every column of a projection can be encoded directly.
pub fn can_direct_span_projection(columns: &[AnalyticsColumn]) -> (direct: bool)
    ensures
        direct == (forall|i: int|
            0 <= i < columns@.len() ==> #[trigger] direct_span_column(columns@[i])),
{
    let mut index: usize = 0;
    while index < columns.len()
        invariant
            forall|i: int| 0 <= i < index ==> #[trigger] direct_span_column(columns@[i]),
        decreases columns@.len() - index,
    {
        let listed = match columns[index] {
            AnalyticsColumn::Timestamp => true,
            AnalyticsColumn::EndTimestamp => true,
            AnalyticsColumn::Partition => true,
            AnalyticsColumn::Offset => true,
            AnalyticsColumn::Name => true,
            AnalyticsColumn::Kind => true,
            AnalyticsColumn::DurationNanos => true,
            AnalyticsColumn::StatusCode => true,
            _ => false,
        };
        if !listed {
            assert(!direct_span_column(columns@[index as int]));
            return false;
        }
        index = index + 1;
    }
    true
}

/// The cell of a point in a column that can be encoded directly.
pub open spec fn direct_point_cell(point: DurableMetricPoint, column: AnalyticsColumn) -> Cell {
    match column {
        AnalyticsColumn::Timestamp => Cell::Timestamp(point.timestamp_unix_nanos as i64),
        AnalyticsColumn::StartTimestamp => timestamp_cell(
            optional_time(point.start_time_unix_nanos),
        ),
        AnalyticsColumn::Partition => Cell::UInt32(point.record_ref.topic_partition.partition_id.0),
        AnalyticsColumn::Offset => Cell::UInt64(point.record_ref.offset.0),
        AnalyticsColumn::Name => Cell::Text(point.identity.name@),
        AnalyticsColumn::ScalarInteger => i64_cell(scalar_integer(point.value)),
        AnalyticsColumn::ScalarDoubleBits => u64_cell(scalar_double_bits(point.value)),
        _ => Cell::Null,
    }
}

/// Whether the time of a column is in the range of ClickHouse.
pub open spec fn point_column_in_range(point: DurableMetricPoint, column: AnalyticsColumn) -> bool {
    match column {
        AnalyticsColumn::Timestamp => point.timestamp_unix_nanos <= i64::MAX,
        AnalyticsColumn::StartTimestamp => point.start_time_unix_nanos <= i64::MAX,
        _ => true,
    }
}

/// Appends one cell of a point.
fn write_point_column(output: &mut Vec<u8>, point: &DurableMetricPoint, column: AnalyticsColumn) -> (result:
    Result<(), LokiApiError>)
    requires
        direct_metric_column(column),
    ensures
        match result {
            Ok(()) => point_column_in_range(*point, column) && final(output)@ == old(output)@
                + rowbinary_cell(direct_point_cell(*point, column), column.optional()),
            Err(error) => !point_column_in_range(*point, column) && time_out_of_range(error)
                && final(output)@ == old(output)@,
        },
{
    match column {
        AnalyticsColumn::Timestamp => match timestamp_i64(point.timestamp_unix_nanos) {
            Ok(time) => {
                push_u64(output, #[verifier::truncate] (time as u64));
            },
            Err(error) => {
                return Err(error);
            },
        },
        AnalyticsColumn::StartTimestamp => match nonzero_timestamp(point.start_time_unix_nanos) {
            Ok(value) => {
                write_presence(output, value.is_some(), true);
                if let Some(time) = value {
                    push_u64(output, #[verifier::truncate] (time as u64));
                }
            },
            Err(error) => {
                return Err(error);
            },
        },
        AnalyticsColumn::Partition => {
            push_u32(output, point.record_ref.topic_partition.partition_id.get());
        },
        AnalyticsColumn::Offset => {
            push_u64(output, point.record_ref.offset.get());
        },
        AnalyticsColumn::Name => {
            write_presence(output, true, true);
            write_rowbinary_bytes(output, point.identity.name.as_str().as_bytes());
        },
        AnalyticsColumn::ScalarInteger => {
            let value = integer_of(&point.value);
            write_presence(output, value.is_some(), true);
            if let Some(number) = value {
                push_u64(output, #[verifier::truncate] (number as u64));
            }
        },
        AnalyticsColumn::ScalarDoubleBits => {
            let value = double_bits_of(&point.value);
            write_presence(output, value.is_some(), true);
            if let Some(bits) = value {
                push_u64(output, bits);
            }
        },
        _ => {},
    }
    assert(output@ =~= old(output)@ + rowbinary_cell(direct_point_cell(*point, column), column.optional()));
    Ok(())
}

/// Whether every time of the wanted columns is in the range of ClickHouse.
pub open spec fn points_in_range(
    points: Seq<DurableMetricPoint>,
    columns: Seq<AnalyticsColumn>,
) -> bool {
    forall|i: int, j: int|
        0 <= i < points.len() && 0 <= j < columns.len() ==> #[trigger] point_column_in_range(
            points[i],
            columns[j],
        )
}

/// The bytes of the wanted columns of several points.
pub open spec fn points_rowbinary(
    points: Seq<DurableMetricPoint>,
    columns: Seq<AnalyticsColumn>,
) -> Seq<u8>
    decreases points.len(),
{
    if points.len() == 0 {
        Seq::empty()
    } else {
        points_rowbinary(points.drop_last(), columns) + rowbinary_cells(
            |column: AnalyticsColumn| direct_point_cell(points.last(), column),
            columns,
        )
    }
}

/// Appends the wanted columns of one point.
fn write_point(output: &mut Vec<u8>, point: &DurableMetricPoint, columns: &[AnalyticsColumn]) -> (result: Result<
    (),
    LokiApiError,
>)
    requires
        forall|i: int| 0 <= i < columns@.len() ==> #[trigger] direct_metric_column(columns@[i]),
    ensures
        match result {
            Ok(()) => (forall|j: int|
                0 <= j < columns@.len() ==> #[trigger] point_column_in_range(*point, columns@[j]))
                && final(output)@ == old(output)@ + rowbinary_cells(
                |column: AnalyticsColumn| direct_point_cell(*point, column),
                columns@,
            ),
            Err(error) => time_out_of_range(error) && old(output)@.is_prefix_of(final(output)@)
                && exists|j: int|
                0 <= j < columns@.len() && !(#[trigger] point_column_in_range(*point, columns@[j])),
        },
{
    let ghost cells = |column: AnalyticsColumn| direct_point_cell(*point, column);
    let mut index: usize = 0;
    assert(columns@.take(0) =~= Seq::<AnalyticsColumn>::empty());
    assert(output@ =~= old(output)@ + rowbinary_cells(cells, columns@.take(0)));
    while index < columns.len()
        invariant
            index <= columns@.len(),
            cells == |column: AnalyticsColumn| direct_point_cell(*point, column),
            forall|i: int| 0 <= i < columns@.len() ==> #[trigger] direct_metric_column(columns@[i]),
            forall|j: int| 0 <= j < index ==> #[trigger] point_column_in_range(*point, columns@[j]),
            output@ == old(output)@ + rowbinary_cells(cells, columns@.take(index as int)),
        decreases columns@.len() - index,
    {
        assert(direct_metric_column(columns@[index as int]));
        if let Err(error) = write_point_column(output, point, columns[index]) {
            assert(!point_column_in_range(*point, columns@[index as int]));
            return Err(error);
        }
        proof {
            let longer = columns@.take(index + 1);
            assert(longer.drop_last() =~= columns@.take(index as int));
            assert(output@ =~= old(output)@ + rowbinary_cells(cells, longer));
        }
        index = index + 1;
    }
    assert(columns@.take(index as int) =~= columns@);
    Ok(())
}

/// Appends the wanted columns of several points, where all of them can be
/// encoded directly.
pub fn write_direct_metric_rowbinary(
    points: &[DurableMetricPoint],
    columns: &[AnalyticsColumn],
    output: &mut Vec<u8>,
) -> (result: Result<bool, LokiApiError>)
    ensures
        ({
            let direct = forall|i: int|
                0 <= i < columns@.len() ==> #[trigger] direct_metric_column(columns@[i]);
            match result {
                Ok(false) => !direct && final(output)@ == old(output)@,
                Ok(true) => direct && points_in_range(points@, columns@) && final(output)@
                    == old(output)@ + points_rowbinary(points@, columns@),
                Err(error) => direct && !points_in_range(points@, columns@) && time_out_of_range(
                    error,
                ) && old(output)@.is_prefix_of(final(output)@),
            }
        }),
{
    if !can_direct_metric_projection(columns) {
        return Ok(false);
    }
    let mut index: usize = 0;
    assert(points@.take(0) =~= Seq::<DurableMetricPoint>::empty());
    assert(output@ =~= old(output)@ + points_rowbinary(points@.take(0), columns@));
    while index < points.len()
        invariant
            index <= points@.len(),
            forall|i: int| 0 <= i < columns@.len() ==> #[trigger] direct_metric_column(columns@[i]),
            forall|i: int, j: int|
                0 <= i < index && 0 <= j < columns@.len() ==> #[trigger] point_column_in_range(
                    points@[i],
                    columns@[j],
                ),
            output@ == old(output)@ + points_rowbinary(points@.take(index as int), columns@),
        decreases points@.len() - index,
    {
        if let Err(error) = write_point(output, &points[index], columns) {
            proof {
                let j = choose|j: int|
                    0 <= j < columns@.len() && !(#[trigger] point_column_in_range(
                        points@[index as int],
                        columns@[j],
                    ));
                assert(!point_column_in_range(points@[index as int], columns@[j]));
                assert(old(output)@.is_prefix_of(output@));
            }
            return Err(error);
        }
        proof {
            let longer = points@.take(index + 1);
            assert(longer.drop_last() =~= points@.take(index as int));
            assert(output@ =~= old(output)@ + points_rowbinary(longer, columns@));
        }
        index = index + 1;
    }
    assert(points@.take(index as int) =~= points@);
    Ok(true)
}

/// The cell of a span in a column that can be encoded directly.
pub open spec fn direct_span_cell(span: DurableSpan, column: AnalyticsColumn) -> Cell {
    match column {
        AnalyticsColumn::Timestamp => Cell::Timestamp(span.start_time_unix_nanos as i64),
        AnalyticsColumn::EndTimestamp => timestamp_cell(signed_end(span)),
        AnalyticsColumn::Partition => Cell::UInt32(span.record_ref.topic_partition.partition_id.0),
        AnalyticsColumn::Offset => Cell::UInt64(span.record_ref.offset.0),
        AnalyticsColumn::Name => Cell::Text(span.name@),
        AnalyticsColumn::Kind => Cell::Int32(span.kind),
        AnalyticsColumn::DurationNanos => Cell::UInt64(span.duration_nanos),
        AnalyticsColumn::StatusCode => i32_cell(status_code(span)),
        _ => Cell::Null,
    }
}

/// Whether the time of a column is in the range of ClickHouse.
pub open spec fn span_column_in_range(span: DurableSpan, column: AnalyticsColumn) -> bool {
    match column {
        AnalyticsColumn::Timestamp => span.start_time_unix_nanos <= i64::MAX,
        AnalyticsColumn::EndTimestamp => end_in_range(span),
        _ => true,
    }
}

/// Appends one cell of a span.
fn write_span_column(output: &mut Vec<u8>, span: &DurableSpan, column: AnalyticsColumn) -> (result:
    Result<(), LokiApiError>)
    requires
        direct_span_column(column),
    ensures
        match result {
            Ok(()) => span_column_in_range(*span, column) && final(output)@ == old(output)@
                + rowbinary_cell(direct_span_cell(*span, column), column.optional()),
            Err(error) => !span_column_in_range(*span, column) && time_out_of_range(error)
                && final(output)@ == old(output)@,
        },
{
    match column {
        AnalyticsColumn::Timestamp => match timestamp_i64(span.start_time_unix_nanos) {
            Ok(time) => {
                push_u64(output, #[verifier::truncate] (time as u64));
            },
            Err(error) => {
                return Err(error);
            },
        },
        AnalyticsColumn::EndTimestamp => match end_timestamp(span) {
            Ok(value) => {
                write_presence(output, value.is_some(), true);
                if let Some(time) = value {
                    push_u64(output, #[verifier::truncate] (time as u64));
                }
            },
            Err(error) => {
                return Err(error);
            },
        },
        AnalyticsColumn::Partition => {
            push_u32(output, span.record_ref.topic_partition.partition_id.get());
        },
        AnalyticsColumn::Offset => {
            push_u64(output, span.record_ref.offset.get());
        },
        AnalyticsColumn::Name => {
            write_presence(output, true, true);
            write_rowbinary_bytes(output, span.name.as_str().as_bytes());
        },
        AnalyticsColumn::Kind => {
            write_presence(output, true, true);
            push_u32(output, #[verifier::truncate] (span.kind as u32));
        },
        AnalyticsColumn::DurationNanos => {
            write_presence(output, true, true);
            push_u64(output, span.duration_nanos);
        },
        AnalyticsColumn::StatusCode => {
            let value = span_status_code(span);
            write_presence(output, value.is_some(), true);
            if let Some(code) = value {
                push_u32(output, #[verifier::truncate] (code as u32));
            }
        },
        _ => {},
    }
    assert(output@ =~= old(output)@ + rowbinary_cell(direct_span_cell(*span, column), column.optional()));
    Ok(())
}

/// Whether every time of the wanted columns is in the range of ClickHouse.
pub open spec fn spans_in_range(
    spans: Seq<DurableSpan>,
    columns: Seq<AnalyticsColumn>,
) -> bool {
    forall|i: int, j: int|
        0 <= i < spans.len() && 0 <= j < columns.len() ==> #[trigger] span_column_in_range(
            spans[i],
            columns[j],
        )
}

/// The bytes of the wanted columns of several spans.
pub open spec fn spans_rowbinary(
    spans: Seq<DurableSpan>,
    columns: Seq<AnalyticsColumn>,
) -> Seq<u8>
    decreases spans.len(),
{
    if spans.len() == 0 {
        Seq::empty()
    } else {
        spans_rowbinary(spans.drop_last(), columns) + rowbinary_cells(
            |column: AnalyticsColumn| direct_span_cell(spans.last(), column),
            columns,
        )
    }
}

/// Appends the wanted columns of one span.
fn write_span(output: &mut Vec<u8>, span: &DurableSpan, columns: &[AnalyticsColumn]) -> (result: Result<
    (),
    LokiApiError,
>)
    requires
        forall|i: int| 0 <= i < columns@.len() ==> #[trigger] direct_span_column(columns@[i]),
    ensures
        match result {
            Ok(()) => (forall|j: int|
                0 <= j < columns@.len() ==> #[trigger] span_column_in_range(*span, columns@[j]))
                && final(output)@ == old(output)@ + rowbinary_cells(
                |column: AnalyticsColumn| direct_span_cell(*span, column),
                columns@,
            ),
            Err(error) => time_out_of_range(error) && old(output)@.is_prefix_of(final(output)@)
                && exists|j: int|
                0 <= j < columns@.len() && !(#[trigger] span_column_in_range(*span, columns@[j])),
        },
{
    let ghost cells = |column: AnalyticsColumn| direct_span_cell(*span, column);
    let mut index: usize = 0;
    assert(columns@.take(0) =~= Seq::<AnalyticsColumn>::empty());
    assert(output@ =~= old(output)@ + rowbinary_cells(cells, columns@.take(0)));
    while index < columns.len()
        invariant
            index <= columns@.len(),
            cells == |column: AnalyticsColumn| direct_span_cell(*span, column),
            forall|i: int| 0 <= i < columns@.len() ==> #[trigger] direct_span_column(columns@[i]),
            forall|j: int| 0 <= j < index ==> #[trigger] span_column_in_range(*span, columns@[j]),
            output@ == old(output)@ + rowbinary_cells(cells, columns@.take(index as int)),
        decreases columns@.len() - index,
    {
        assert(direct_span_column(columns@[index as int]));
        if let Err(error) = write_span_column(output, span, columns[index]) {
            assert(!span_column_in_range(*span, columns@[index as int]));
            return Err(error);
        }
        proof {
            let longer = columns@.take(index + 1);
            assert(longer.drop_last() =~= columns@.take(index as int));
            assert(output@ =~= old(output)@ + rowbinary_cells(cells, longer));
        }
        index = index + 1;
    }
    assert(columns@.take(index as int) =~= columns@);
    Ok(())
}

/// Appends the wanted columns of several spans, where all of them can be
/// encoded directly.
pub fn write_direct_span_rowbinary(
    spans: &[DurableSpan],
    columns: &[AnalyticsColumn],
    output: &mut Vec<u8>,
) -> (result: Result<bool, LokiApiError>)
    ensures
        ({
            let direct = forall|i: int|
                0 <= i < columns@.len() ==> #[trigger] direct_span_column(columns@[i]);
            match result {
                Ok(false) => !direct && final(output)@ == old(output)@,
                Ok(true) => direct && spans_in_range(spans@, columns@) && final(output)@
                    == old(output)@ + spans_rowbinary(spans@, columns@),
                Err(error) => direct && !spans_in_range(spans@, columns@) && time_out_of_range(
                    error,
                ) && old(output)@.is_prefix_of(final(output)@),
            }
        }),
{
    if !can_direct_span_projection(columns) {
        return Ok(false);
    }
    let mut index: usize = 0;
    assert(spans@.take(0) =~= Seq::<DurableSpan>::empty());
    assert(output@ =~= old(output)@ + spans_rowbinary(spans@.take(0), columns@));
    while index < spans.len()
        invariant
            index <= spans@.len(),
            forall|i: int| 0 <= i < columns@.len() ==> #[trigger] direct_span_column(columns@[i]),
            forall|i: int, j: int|
                0 <= i < index && 0 <= j < columns@.len() ==> #[trigger] span_column_in_range(
                    spans@[i],
                    columns@[j],
                ),
            output@ == old(output)@ + spans_rowbinary(spans@.take(index as int), columns@),
        decreases spans@.len() - index,
    {
        if let Err(error) = write_span(output, &spans[index], columns) {
            proof {
                let j = choose|j: int|
                    0 <= j < columns@.len() && !(#[trigger] span_column_in_range(
                        spans@[index as int],
                        columns@[j],
                    ));
                assert(!span_column_in_range(spans@[index as int], columns@[j]));
                assert(old(output)@.is_prefix_of(output@));
            }
            return Err(error);
        }
        proof {
            let longer = spans@.take(index + 1);
            assert(longer.drop_last() =~= spans@.take(index as int));
            assert(output@ =~= old(output)@ + spans_rowbinary(longer, columns@));
        }
        index = index + 1;
    }
    assert(spans@.take(index as int) =~= spans@);
    Ok(true)
}

/// A point that is encoded directly shows what its complete row shows.
pub proof fn direct_points_match_their_rows(
    point: DurableMetricPoint,
    rendered: Rendered,
    column: AnalyticsColumn,
)
    requires
        direct_metric_column(column),
    ensures
        direct_point_cell(point, column) == metric_cell(point, rendered, column),
{
}

/// A span that is encoded directly shows what its complete row shows.
pub proof fn direct_spans_match_their_rows(
    span: DurableSpan,
    rendered: Rendered,
    column: AnalyticsColumn,
)
    requires
        direct_span_column(column),
    ensures
        direct_span_cell(span, column) == span_cell(span, rendered, column),
{
}

} // verus!
