//! RowBinary encoding of analytical rows.

use vstd::bytes::{spec_u32_to_le_bytes, spec_u64_to_le_bytes};
use vstd::prelude::*;
use vstd::utf8::encode_utf8;

use crate::analytics_columns::{AnalyticsColumn, ColumnKind};
use crate::analytics_row::{text_cell, AnalyticsRow, Cell};
use crate::analytics_rowbinary_laws::{belongs, has_order, read_row, rows_read_back};
use crate::string_map::{increasing, map_has_one_order, pair_view, pair_views, pairs_map, StringMap};
use crate::wire::{leb128, push_bytes, push_u32, push_u64, write_varint};

verus! {

fn optional_text(text: &Option<String>) -> (value: Option<&str>)
    ensures
        text_cell(*text) == (match value {
            Some(found) => Cell::Text(found@),
            None => Cell::Null,
        }),
{
    match text {
        Some(found) => Some(found.as_str()),
        None => None,
    }
}

/// Text of a column.
pub fn string_value(row: &AnalyticsRow, column: AnalyticsColumn) -> (value: Option<&str>)
    ensures
        column.representation() is Text ==> row.cell(column) == (match value {
            Some(found) => Cell::Text(found@),
            None => Cell::Null,
        }),
        !(column.representation() is Text) ==> value is None,
{
    match column {
        AnalyticsColumn::Tenant => Some(row.tenant.as_str()),
        AnalyticsColumn::Signal => Some(row.signal.as_str()),
        AnalyticsColumn::ResourceId => optional_text(&row.resource_id),
        AnalyticsColumn::ScopeId => optional_text(&row.scope_id),
        AnalyticsColumn::TraceId => optional_text(&row.trace_id),
        AnalyticsColumn::SpanId => optional_text(&row.span_id),
        AnalyticsColumn::ParentSpanId => optional_text(&row.parent_span_id),
        AnalyticsColumn::LinkedTraceId => optional_text(&row.linked_trace_id),
        AnalyticsColumn::LinkedSpanId => optional_text(&row.linked_span_id),
        AnalyticsColumn::SeriesId => optional_text(&row.series_id),
        AnalyticsColumn::Message => optional_text(&row.message),
        AnalyticsColumn::BodyJson => optional_text(&row.body_json),
        AnalyticsColumn::Name => optional_text(&row.name),
        AnalyticsColumn::EventName => optional_text(&row.event_name),
        AnalyticsColumn::SeverityText => optional_text(&row.severity_text),
        AnalyticsColumn::StatusMessage => optional_text(&row.status_message),
        AnalyticsColumn::TraceState => optional_text(&row.trace_state),
        AnalyticsColumn::AttributesJson => optional_text(&row.attributes_json),
        AnalyticsColumn::ResourceAttributesJson => optional_text(&row.resource_attributes_json),
        AnalyticsColumn::ScopeAttributesJson => optional_text(&row.scope_attributes_json),
        AnalyticsColumn::EventsJson => optional_text(&row.events_json),
        AnalyticsColumn::LinksJson => optional_text(&row.links_json),
        AnalyticsColumn::Description => optional_text(&row.description),
        AnalyticsColumn::Unit => optional_text(&row.unit),
        AnalyticsColumn::MetricKind => optional_text(&row.metric_kind),
        AnalyticsColumn::ValueType => optional_text(&row.value_type),
        AnalyticsColumn::ValueJson => optional_text(&row.value_json),
        AnalyticsColumn::ExemplarsJson => optional_text(&row.exemplars_json),
        _ => None,
    }
}

/// Time of a column.
pub fn timestamp_value(row: &AnalyticsRow, column: AnalyticsColumn) -> (value: Option<i64>)
    ensures
        column.representation() is Timestamp ==> row.cell(column) == (match value {
            Some(found) => Cell::Timestamp(found),
            None => Cell::Null,
        }),
        !(column.representation() is Timestamp) ==> value is None,
{
    match column {
        AnalyticsColumn::Timestamp => Some(row.timestamp_unix_nanos),
        AnalyticsColumn::ParentTimestamp => row.parent_timestamp_unix_nanos,
        AnalyticsColumn::ObservedTimestamp => row.observed_timestamp_unix_nanos,
        AnalyticsColumn::StartTimestamp => row.start_timestamp_unix_nanos,
        AnalyticsColumn::EndTimestamp => row.end_timestamp_unix_nanos,
        _ => None,
    }
}

/// Unsigned 32-bit integer of a column.
pub fn u32_value(row: &AnalyticsRow, column: AnalyticsColumn) -> (value: Option<u32>)
    ensures
        column.representation() is UInt32 ==> row.cell(column) == (match value {
            Some(found) => Cell::UInt32(found),
            None => Cell::Null,
        }),
        !(column.representation() is UInt32) ==> value is None,
{
    match column {
        AnalyticsColumn::Partition => Some(row.partition),
        AnalyticsColumn::Ordinal => row.ordinal,
        AnalyticsColumn::Flags => row.flags,
        AnalyticsColumn::DroppedAttributesCount => row.dropped_attributes_count,
        AnalyticsColumn::DroppedEventsCount => row.dropped_events_count,
        AnalyticsColumn::DroppedLinksCount => row.dropped_links_count,
        _ => None,
    }
}

/// Unsigned 64-bit integer of a column.
pub fn u64_value(row: &AnalyticsRow, column: AnalyticsColumn) -> (value: Option<u64>)
    ensures
        column.representation() is UInt64 ==> row.cell(column) == (match value {
            Some(found) => Cell::UInt64(found),
            None => Cell::Null,
        }),
        !(column.representation() is UInt64) ==> value is None,
{
    match column {
        AnalyticsColumn::Offset => Some(row.offset),
        AnalyticsColumn::DurationNanos => row.duration_nanos,
        AnalyticsColumn::ScalarDoubleBits => row.scalar_double_bits,
        _ => None,
    }
}

/// Signed 32-bit integer of a column.
pub fn i32_value(row: &AnalyticsRow, column: AnalyticsColumn) -> (value: Option<i32>)
    ensures
        column.representation() is Int32 ==> row.cell(column) == (match value {
            Some(found) => Cell::Int32(found),
            None => Cell::Null,
        }),
        !(column.representation() is Int32) ==> value is None,
{
    match column {
        AnalyticsColumn::SeverityNumber => row.severity_number,
        AnalyticsColumn::Kind => row.kind,
        AnalyticsColumn::StatusCode => row.status_code,
        AnalyticsColumn::Temporality => row.temporality,
        _ => None,
    }
}

/// Signed 64-bit integer of a column.
pub fn i64_value(row: &AnalyticsRow, column: AnalyticsColumn) -> (value: Option<i64>)
    ensures
        column.representation() is Int64 ==> row.cell(column) == (match value {
            Some(found) => Cell::Int64(found),
            None => Cell::Null,
        }),
        !(column.representation() is Int64) ==> value is None,
{
    match column {
        AnalyticsColumn::ScalarInteger => row.scalar_integer,
        _ => None,
    }
}

/// Boolean of a column.
pub fn bool_value(row: &AnalyticsRow, column: AnalyticsColumn) -> (value: Option<bool>)
    ensures
        column.representation() is Boolean ==> row.cell(column) == (match value {
            Some(found) => Cell::Boolean(found),
            None => Cell::Null,
        }),
        !(column.representation() is Boolean) ==> value is None,
{
    match column {
        AnalyticsColumn::Monotonic => row.monotonic,
        _ => None,
    }
}

/// Map of a column.
pub fn map_value(row: &AnalyticsRow, column: AnalyticsColumn) -> (value: &StringMap)
    requires
        column.representation() is TextMap,
    ensures
        row.cell(column) == Cell::TextMap(value@),
{
    match column {
        AnalyticsColumn::Labels => &row.labels,
        AnalyticsColumn::Metadata => &row.metadata,
        AnalyticsColumn::Attributes => &row.attributes,
        AnalyticsColumn::ResourceAttributes => &row.resource_attributes,
        AnalyticsColumn::ScopeAttributes => &row.scope_attributes,
        AnalyticsColumn::AttributeIds => &row.attribute_ids,
        AnalyticsColumn::ResourceAttributeIds => &row.resource_attribute_ids,
        _ => &row.scope_attribute_ids,
    }
}

/// A length-prefixed byte string.
pub open spec fn counted(bytes: Seq<u8>) -> Seq<u8> {
    leb128(bytes.len()) + bytes
}

/// The pairs of a map in key order.
pub open spec fn sorted_pairs(map: Map<Seq<char>, Seq<char>>) -> Seq<(Seq<char>, Seq<char>)> {
    choose|pairs: Seq<(Seq<char>, Seq<char>)>| increasing(pairs) && pairs_map(pairs) == map
}

/// Pairs as length-prefixed keys and values.
pub open spec fn counted_pairs(pairs: Seq<(Seq<char>, Seq<char>)>) -> Seq<u8>
    decreases pairs.len(),
{
    if pairs.len() == 0 {
        Seq::empty()
    } else {
        counted_pairs(pairs.drop_last()) + counted(encode_utf8(pairs.last().0)) + counted(
            encode_utf8(pairs.last().1),
        )
    }
}

/// The bytes of a value.
pub open spec fn rowbinary_value(cell: Cell) -> Seq<u8> {
    match cell {
        Cell::Null => Seq::empty(),
        Cell::Text(text) => counted(encode_utf8(text)),
        Cell::Timestamp(time) => spec_u64_to_le_bytes(time as u64),
        Cell::UInt32(number) => spec_u32_to_le_bytes(number),
        Cell::UInt64(number) => spec_u64_to_le_bytes(number),
        Cell::Int32(number) => spec_u32_to_le_bytes(number as u32),
        Cell::Int64(number) => spec_u64_to_le_bytes(number as u64),
        Cell::Boolean(flag) => seq![
            if flag {
                1u8
            } else {
                0u8
            },
        ],
        Cell::TextMap(map) => leb128(sorted_pairs(map).len()) + counted_pairs(sorted_pairs(map)),
    }
}

/// The bytes of a cell: a nullable column says first whether a value is absent.
pub open spec fn rowbinary_cell(cell: Cell, nullable: bool) -> Seq<u8> {
    if nullable {
        seq![
            if cell is Null {
                1u8
            } else {
                0u8
            },
        ] + rowbinary_value(cell)
    } else {
        rowbinary_value(cell)
    }
}

/// The bytes of the cells of some columns.
pub open spec fn rowbinary_cells(
    cells: spec_fn(AnalyticsColumn) -> Cell,
    columns: Seq<AnalyticsColumn>,
) -> Seq<u8>
    decreases columns.len(),
{
    if columns.len() == 0 {
        Seq::empty()
    } else {
        rowbinary_cells(cells, columns.drop_last()) + rowbinary_cell(
            cells(columns.last()),
            columns.last().optional(),
        )
    }
}

/// Appends whether a nullable value is absent. A value that may not be absent is
/// there.
pub(crate) fn write_presence(output: &mut Vec<u8>, present: bool, nullable: bool)
    requires
        nullable || present,
    ensures
        final(output)@ == (if nullable {
            old(output)@ + seq![
                if present {
                    0u8
                } else {
                    1u8
                },
            ]
        } else {
            old(output)@
        }),
{
    if nullable {
        if present {
            output.push(0);
        } else {
            output.push(1);
        }
        assert(output@ =~= old(output)@ + seq![
            if present {
                0u8
            } else {
                1u8
            },
        ]);
    }
}

/// Appends a length-prefixed byte string.
pub fn write_rowbinary_bytes(output: &mut Vec<u8>, value: &[u8])
    ensures
        final(output)@ == old(output)@ + counted(value@),
{
    write_varint(value.len() as u64, output);
    push_bytes(output, value);
    assert(output@ =~= old(output)@ + counted(value@));
}

fn write_map(output: &mut Vec<u8>, values: &StringMap)
    ensures
        final(output)@ == old(output)@ + rowbinary_value(Cell::TextMap(values@)),
        has_order(values@),
{
    let pairs = values.pairs();
    let ghost all = pair_views(pairs@);
    proof {
        let chosen = sorted_pairs(values@);
        assert(increasing(all) && pairs_map(all) == values@);
        map_has_one_order(all, chosen);
    }
    write_varint(pairs.len() as u64, output);
    let ghost head = output@;
    let mut index: usize = 0;
    assert(all.take(0) =~= Seq::<(Seq<char>, Seq<char>)>::empty());
    assert(output@ =~= head + counted_pairs(all.take(0)));
    while index < pairs.len()
        invariant
            index <= pairs@.len(),
            all == pair_views(pairs@),
            output@ == head + counted_pairs(all.take(index as int)),
        decreases pairs@.len() - index,
    {
        proof {
            let longer = all.take(index + 1);
            assert(longer.drop_last() =~= all.take(index as int));
            assert(longer.last() == pair_view(pairs@[index as int]));
        }
        write_rowbinary_bytes(output, pairs[index].0.as_str().as_bytes());
        write_rowbinary_bytes(output, pairs[index].1.as_str().as_bytes());
        assert(output@ =~= head + counted_pairs(all.take(index + 1)));
        index = index + 1;
    }
    assert(all.take(index as int) =~= all);
    assert(output@ =~= old(output)@ + (leb128(all.len()) + counted_pairs(all)));
}

/// Appends one cell of a row.
fn write_rowbinary_column(output: &mut Vec<u8>, row: &AnalyticsRow, column: AnalyticsColumn)
    ensures
        final(output)@ == old(output)@ + rowbinary_cell(row.cell(column), column.optional()),
        belongs(row.cell(column), column),
{
    let nullable = column.nullable();
    match column.kind() {
        ColumnKind::Text => {
            let value = string_value(row, column);
            write_presence(output, value.is_some(), nullable);
            if let Some(text) = value {
                write_rowbinary_bytes(output, text.as_bytes());
            }
        },
        ColumnKind::Timestamp => {
            let value = timestamp_value(row, column);
            write_presence(output, value.is_some(), nullable);
            if let Some(time) = value {
                push_u64(output, #[verifier::truncate] (time as u64));
            }
        },
        ColumnKind::UInt32 => {
            let value = u32_value(row, column);
            write_presence(output, value.is_some(), nullable);
            if let Some(number) = value {
                push_u32(output, number);
            }
        },
        ColumnKind::UInt64 => {
            let value = u64_value(row, column);
            write_presence(output, value.is_some(), nullable);
            if let Some(number) = value {
                push_u64(output, number);
            }
        },
        ColumnKind::Int32 => {
            let value = i32_value(row, column);
            write_presence(output, value.is_some(), nullable);
            if let Some(number) = value {
                push_u32(output, #[verifier::truncate] (number as u32));
            }
        },
        ColumnKind::Int64 => {
            let value = i64_value(row, column);
            write_presence(output, value.is_some(), nullable);
            if let Some(number) = value {
                push_u64(output, #[verifier::truncate] (number as u64));
            }
        },
        ColumnKind::Boolean => {
            let value = bool_value(row, column);
            write_presence(output, value.is_some(), nullable);
            if let Some(flag) = value {
                output.push(if flag {
                    1
                } else {
                    0
                });
            }
        },
        ColumnKind::TextMap => {
            write_map(output, map_value(row, column));
        },
    }
    assert(output@ =~= old(output)@ + rowbinary_cell(row.cell(column), column.optional()));
}

/// Appends the requested columns of a row.
pub fn write_rowbinary_row(output: &mut Vec<u8>, row: &AnalyticsRow, columns: &[AnalyticsColumn])
    ensures
        final(output)@ == old(output)@ + rowbinary_cells(
            |column: AnalyticsColumn| row.cell(column),
            columns@,
        ),
        read_row(columns@, final(output)@.skip(old(output)@.len() as int)) == Some(
            (
                Seq::new(columns@.len(), |i: int| row.cell(columns@[i])),
                Seq::<u8>::empty(),
            ),
        ),
{
    let ghost cells = |column: AnalyticsColumn| row.cell(column);
    let mut index: usize = 0;
    assert(columns@.take(0) =~= Seq::<AnalyticsColumn>::empty());
    assert(output@ =~= old(output)@ + rowbinary_cells(cells, columns@.take(0)));
    while index < columns.len()
        invariant
            index <= columns@.len(),
            cells == |column: AnalyticsColumn| row.cell(column),
            output@ == old(output)@ + rowbinary_cells(cells, columns@.take(index as int)),
            forall|i: int|
                0 <= i < index ==> belongs(cells(#[trigger] columns@[i]), columns@[i]),
        decreases columns@.len() - index,
    {
        write_rowbinary_column(output, row, columns[index]);
        proof {
            let longer = columns@.take(index + 1);
            assert(longer.drop_last() =~= columns@.take(index as int));
            assert(output@ =~= old(output)@ + rowbinary_cells(cells, longer));
        }
        index = index + 1;
    }
    assert(columns@.take(index as int) =~= columns@);
    proof {
        let bytes = rowbinary_cells(cells, columns@);
        rows_read_back(cells, columns@, Seq::empty());
        assert(output@.skip(old(output)@.len() as int) =~= bytes + Seq::<u8>::empty());
        assert(Seq::new(columns@.len(), |i: int| cells(columns@[i])) =~= Seq::new(
            columns@.len(),
            |i: int| row.cell(columns@[i]),
        ));
    }
}

/// Every row has a value for every column that may not lack one.
pub proof fn required_columns_have_values(row: AnalyticsRow, column: AnalyticsColumn)
    requires
        !column.optional(),
    ensures
        !(row.cell(column) is Null),
{
}

/// The cell that stands for a row of which only the presence matters.
pub open spec fn placeholder(column: AnalyticsColumn) -> Cell {
    if column.optional() {
        Cell::Null
    } else {
        match column.representation() {
            ColumnKind::Text => Cell::Text(Seq::empty()),
            ColumnKind::Timestamp => Cell::Timestamp(0),
            ColumnKind::UInt32 => Cell::UInt32(0),
            ColumnKind::UInt64 => Cell::UInt64(0),
            ColumnKind::Int32 => Cell::Int32(0),
            ColumnKind::Int64 => Cell::Int64(0),
            ColumnKind::Boolean => Cell::Boolean(false),
            ColumnKind::TextMap => Cell::TextMap(Map::empty()),
        }
    }
}

/// The bytes of a row of which only the presence matters.
pub fn rowbinary_default_value(column: AnalyticsColumn) -> (bytes: Vec<u8>)
    ensures
        bytes@ == rowbinary_cell(placeholder(column), column.optional()),
        0 < bytes@.len() <= 8,
{
    let mut bytes: Vec<u8> = Vec::new();
    if column.nullable() {
        bytes.push(1);
        assert(bytes@ =~= rowbinary_cell(placeholder(column), column.optional()));
        return bytes;
    }
    match column.kind() {
        ColumnKind::Text => {
            let nothing: Vec<u8> = Vec::new();
            write_rowbinary_bytes(&mut bytes, nothing.as_slice());
            proof {
                let empty = Seq::<char>::empty();
                assert(encode_utf8(empty) =~= Seq::<u8>::empty());
                assert(bytes@ =~= counted(encode_utf8(empty)));
            }
        },
        ColumnKind::Boolean => {
            bytes.push(0);
        },
        ColumnKind::TextMap => {
            let nothing = StringMap::new();
            write_map(&mut bytes, &nothing);
            proof {
                let empty = Seq::<(Seq<char>, Seq<char>)>::empty();
                assert(increasing(empty) && pairs_map(empty) == Map::<Seq<char>, Seq<char>>::empty());
                map_has_one_order(empty, sorted_pairs(Map::empty()));
                assert(bytes@ =~= rowbinary_value(Cell::TextMap(Map::empty())));
            }
        },
        ColumnKind::UInt32 => {
            push_u32(&mut bytes, 0);
        },
        ColumnKind::Int32 => {
            push_u32(&mut bytes, 0);
        },
        _ => {
            push_u64(&mut bytes, 0);
        },
    }
    proof {
        vstd::bytes::lemma_auto_spec_u32_to_from_le_bytes();
        vstd::bytes::lemma_auto_spec_u64_to_from_le_bytes();
        assert(bytes@ =~= rowbinary_cell(placeholder(column), column.optional()));
    }
    bytes
}

/// `count` copies of some bytes.
pub open spec fn repeated(bytes: Seq<u8>, count: nat) -> Seq<u8>
    decreases count,
{
    if count == 0 {
        Seq::empty()
    } else {
        repeated(bytes, (count - 1) as nat) + bytes
    }
}

/// The bytes of `count` rows of which only the presence matters.
pub fn cardinality_batch(column: AnalyticsColumn, count: usize) -> (bytes: Vec<u8>)
    ensures
        bytes@ == repeated(
            rowbinary_cell(placeholder(column), column.optional()),
            count as nat,
        ),
{
    let row = rowbinary_default_value(column);
    let mut bytes: Vec<u8> = Vec::new();
    let mut index: usize = 0;
    while index < count
        invariant
            index <= count,
            row@ == rowbinary_cell(placeholder(column), column.optional()),
            bytes@ == repeated(row@, index as nat),
        decreases count - index,
    {
        push_bytes(&mut bytes, row.as_slice());
        index = index + 1;
    }
    bytes
}

/// How many of the remaining rows the next batch of a count holds.
pub fn next_cardinality_batch(remaining: u64) -> (rows: usize)
    ensures
        rows == (if remaining < 8_192 {
            remaining as int
        } else {
            8_192
        }),
{
    if remaining < 8_192 {
        remaining as usize
    } else {
        8_192
    }
}

/// Bytes that are sent on once enough of them have gathered.
#[derive(Debug)]
pub struct ChunkBuffer {
    bytes: Vec<u8>,
    chunk_bytes: usize,
}

impl ChunkBuffer {
    /// Bytes that wait.
    pub closed spec fn waiting(&self) -> Seq<u8> {
        self.bytes@
    }

    /// How many bytes make a chunk.
    pub closed spec fn threshold(&self) -> usize {
        self.chunk_bytes
    }

    /// Creates an empty buffer.
    pub fn new(chunk_bytes: usize) -> (buffer: Self)
        ensures
            buffer.waiting() == Seq::<u8>::empty(),
            buffer.threshold() == chunk_bytes,
    {
        Self { bytes: Vec::new(), chunk_bytes }
    }

    /// Takes what waits, where anything does.
    pub fn finish(&mut self) -> (chunk: Option<Vec<u8>>)
        ensures
            final(self).waiting() == Seq::<u8>::empty(),
            final(self).threshold() == old(self).threshold(),
            match chunk {
                Some(bytes) => bytes@ == old(self).waiting() && bytes@.len() > 0,
                None => old(self).waiting().len() == 0,
            },
    {
        if self.bytes.len() == 0 {
            assert(self.bytes@ =~= Seq::<u8>::empty());
            return None;
        }
        let mut chunk: Vec<u8> = Vec::new();
        std::mem::swap(&mut chunk, &mut self.bytes);
        Some(chunk)
    }

    /// Adds bytes; what waits is sent on once it reaches the threshold.
    pub fn write(&mut self, buffer: &[u8]) -> (chunk: Option<Vec<u8>>)
        ensures
            final(self).threshold() == old(self).threshold(),
            ({
                let all = old(self).waiting() + buffer@;
                if all.len() >= old(self).threshold() && all.len() > 0 {
                    &&& final(self).waiting() == Seq::<u8>::empty()
                    &&& chunk matches Some(bytes) && bytes@ == all
                } else {
                    &&& final(self).waiting() == all
                    &&& chunk is None
                }
            }),
    {
        push_bytes(&mut self.bytes, buffer);
        if self.bytes.len() >= self.chunk_bytes {
            return self.finish();
        }
        None
    }
}

} // verus!
