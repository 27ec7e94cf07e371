//! Reading RowBinary back.

use vstd::bytes::{spec_u32_from_le_bytes, spec_u64_from_le_bytes};
use vstd::prelude::*;
use vstd::utf8::{
    decode_utf8, encode_utf8, encode_utf8_decode_utf8, encode_utf8_valid_utf8, valid_utf8,
};

use crate::analytics_columns::{AnalyticsColumn, ColumnKind};
use crate::analytics_row::{AnalyticsRow, Cell};
use crate::analytics_rowbinary::{
    counted, counted_pairs, placeholder, repeated, rowbinary_cell, rowbinary_cells, rowbinary_value,
    sorted_pairs,
};
use crate::string_map::{
    increasing, key_order_is_total, key_precedes, lemma_pairs_map, map_has_one_order, pairs_map,
};
use crate::wire::{fields_read_back, leb128, leb128_read, leb128_reads_back};

verus! {

/// Reads a length: seven bits of it per byte, low bits first, the high bit of a
/// byte saying that more follow. Gives the length and what stands behind it.
pub open spec fn read_length(bytes: Seq<u8>) -> Option<(nat, Seq<u8>)> {
    match leb128_read(bytes) {
        Some((length, width)) => Some((length, bytes.skip(width as int))),
        None => None,
    }
}

/// Reads a text: a length in bytes, then UTF-8.
pub open spec fn read_text(bytes: Seq<u8>) -> Option<(Seq<char>, Seq<u8>)> {
    match read_length(bytes) {
        Some((length, rest)) => if length <= rest.len() && valid_utf8(rest.take(length as int)) {
            Some((decode_utf8(rest.take(length as int)), rest.skip(length as int)))
        } else {
            None
        },
        None => None,
    }
}

/// Reads `count` pairs of texts, each its key first.
pub open spec fn read_pairs(bytes: Seq<u8>, count: nat) -> Option<
    (Map<Seq<char>, Seq<char>>, Seq<u8>),
>
    decreases count,
{
    if count == 0 {
        Some((Map::empty(), bytes))
    } else {
        match read_text(bytes) {
            Some((key, after_key)) => match read_text(after_key) {
                Some((value, after_value)) => match read_pairs(after_value, (count - 1) as nat) {
                    Some((others, rest)) => Some((others.insert(key, value), rest)),
                    None => None,
                },
                None => None,
            },
            None => None,
        }
    }
}

/// Reads a map: the number of its pairs, then the pairs.
pub open spec fn read_map(bytes: Seq<u8>) -> Option<(Map<Seq<char>, Seq<char>>, Seq<u8>)> {
    match read_length(bytes) {
        Some((count, rest)) => read_pairs(rest, count),
        None => None,
    }
}

/// Reads a value of a kind: integers low byte first, signed ones in two's
/// complement, a boolean as one byte.
pub open spec fn read_value(kind: ColumnKind, bytes: Seq<u8>) -> Option<(Cell, Seq<u8>)> {
    match kind {
        ColumnKind::Text => match read_text(bytes) {
            Some((text, rest)) => Some((Cell::Text(text), rest)),
            None => None,
        },
        ColumnKind::Timestamp => if bytes.len() >= 8 {
            Some(
                (
                    Cell::Timestamp(spec_u64_from_le_bytes(bytes.take(8)) as i64),
                    bytes.skip(8),
                ),
            )
        } else {
            None
        },
        ColumnKind::UInt32 => if bytes.len() >= 4 {
            Some((Cell::UInt32(spec_u32_from_le_bytes(bytes.take(4))), bytes.skip(4)))
        } else {
            None
        },
        ColumnKind::UInt64 => if bytes.len() >= 8 {
            Some((Cell::UInt64(spec_u64_from_le_bytes(bytes.take(8))), bytes.skip(8)))
        } else {
            None
        },
        ColumnKind::Int32 => if bytes.len() >= 4 {
            Some((Cell::Int32(spec_u32_from_le_bytes(bytes.take(4)) as i32), bytes.skip(4)))
        } else {
            None
        },
        ColumnKind::Int64 => if bytes.len() >= 8 {
            Some((Cell::Int64(spec_u64_from_le_bytes(bytes.take(8)) as i64), bytes.skip(8)))
        } else {
            None
        },
        ColumnKind::Boolean => if bytes.len() >= 1 && bytes[0] <= 1 {
            Some((Cell::Boolean(bytes[0] == 1), bytes.skip(1)))
        } else {
            None
        },
        ColumnKind::TextMap => match read_map(bytes) {
            Some((map, rest)) => Some((Cell::TextMap(map), rest)),
            None => None,
        },
    }
}

/// Reads a cell: where it may be absent, a byte says first whether it is, one for
/// absent and zero for there.
pub open spec fn read_cell(column: AnalyticsColumn, bytes: Seq<u8>) -> Option<(Cell, Seq<u8>)> {
    if column.optional() {
        if bytes.len() == 0 {
            None
        } else if bytes[0] == 1 {
            Some((Cell::Null, bytes.skip(1)))
        } else if bytes[0] == 0 {
            read_value(column.representation(), bytes.skip(1))
        } else {
            None
        }
    } else {
        read_value(column.representation(), bytes)
    }
}

/// Reads the cells of a row, in the order of its columns.
pub open spec fn read_row(columns: Seq<AnalyticsColumn>, bytes: Seq<u8>) -> Option<
    (Seq<Cell>, Seq<u8>),
>
    decreases columns.len(),
{
    if columns.len() == 0 {
        Some((Seq::empty(), bytes))
    } else {
        match read_cell(columns[0], bytes) {
            Some((cell, after)) => match read_row(columns.skip(1), after) {
                Some((others, rest)) => Some((seq![cell] + others, rest)),
                None => None,
            },
            None => None,
        }
    }
}

/// Whether a map can be written out in the order of its keys.
pub open spec fn has_order(map: Map<Seq<char>, Seq<char>>) -> bool {
    exists|pairs: Seq<(Seq<char>, Seq<char>)>| #[trigger]
        increasing(pairs) && pairs_map(pairs) == map
}

/// A text reads back as itself, whatever follows it.
pub proof fn texts_read_back(text: Seq<char>, rest: Seq<u8>)
    ensures
        read_text(counted(encode_utf8(text)) + rest) == Some((text, rest)),
{
    let bytes = encode_utf8(text);
    let length = leb128(bytes.len());
    let all = counted(bytes) + rest;
    assert(all =~= length + (bytes + rest));
    leb128_reads_back(bytes.len(), bytes + rest);
    assert(all.skip(length.len() as int) =~= bytes + rest);
    assert((bytes + rest).take(bytes.len() as int) =~= bytes);
    assert((bytes + rest).skip(bytes.len() as int) =~= rest);
    encode_utf8_valid_utf8(text);
    encode_utf8_decode_utf8(text);
}

proof fn lemma_first_pair(pairs: Seq<(Seq<char>, Seq<char>)>)
    requires
        pairs.len() > 0,
    ensures
        counted_pairs(pairs) == counted(encode_utf8(pairs[0].0)) + counted(
            encode_utf8(pairs[0].1),
        ) + counted_pairs(pairs.skip(1)),
    decreases pairs.len(),
{
    if pairs.len() == 1 {
        assert(pairs.drop_last() =~= Seq::empty());
        assert(pairs.skip(1) =~= Seq::empty());
        assert(pairs.last() == pairs[0]);
        assert(counted_pairs(pairs) =~= counted(encode_utf8(pairs[0].0)) + counted(
            encode_utf8(pairs[0].1),
        ) + counted_pairs(pairs.skip(1)));
    } else {
        let shorter = pairs.drop_last();
        let later = pairs.skip(1);
        lemma_first_pair(shorter);
        assert(shorter.skip(1) =~= later.drop_last());
        assert(later.last() == pairs.last());
        assert(shorter[0] == pairs[0]);
        assert(counted_pairs(pairs) =~= counted(encode_utf8(pairs[0].0)) + counted(
            encode_utf8(pairs[0].1),
        ) + counted_pairs(later));
    }
}

proof fn lemma_first_mapped(pairs: Seq<(Seq<char>, Seq<char>)>)
    requires
        increasing(pairs),
        pairs.len() > 0,
    ensures
        increasing(pairs.skip(1)),
        pairs_map(pairs) == pairs_map(pairs.skip(1)).insert(pairs[0].0, pairs[0].1),
{
    let later = pairs.skip(1);
    assert forall|i: int, j: int| 0 <= i < j < later.len() implies key_precedes(
        #[trigger] later[i].0,
        #[trigger] later[j].0,
    ) by {
        assert(key_precedes(pairs[i + 1].0, pairs[j + 1].0));
    }
    lemma_pairs_map(pairs);
    lemma_pairs_map(later);
    let whole = pairs_map(pairs);
    let built = pairs_map(later).insert(pairs[0].0, pairs[0].1);
    assert forall|key: Seq<char>| whole.contains_key(key) <==> built.contains_key(key) by {
        if whole.contains_key(key) {
            let i = choose|i: int| 0 <= i < pairs.len() && pairs[i].0 == key;
            if i > 0 {
                assert(pairs_map(later).contains_key(later[i - 1].0));
            }
        }
        if built.contains_key(key) {
            if key == pairs[0].0 {
                assert(whole.contains_key(pairs[0].0));
            } else {
                let i = choose|i: int| 0 <= i < later.len() && later[i].0 == key;
                assert(whole.contains_key(pairs[i + 1].0));
            }
        }
    }
    assert forall|key: Seq<char>| whole.contains_key(key) implies whole[key] == built[key] by {
        let i = choose|i: int| 0 <= i < pairs.len() && pairs[i].0 == key;
        assert(whole.contains_key(pairs[i].0));
        if i > 0 {
            assert(key_precedes(pairs[0].0, pairs[i].0));
            key_order_is_total(pairs[0].0, pairs[i].0);
            assert(pairs_map(later).contains_key(later[i - 1].0));
        }
    }
    assert(whole =~= built);
}

proof fn lemma_pairs_read_back(pairs: Seq<(Seq<char>, Seq<char>)>, rest: Seq<u8>)
    requires
        increasing(pairs),
    ensures
        read_pairs(counted_pairs(pairs) + rest, pairs.len()) == Some((pairs_map(pairs), rest)),
    decreases pairs.len(),
{
    let all = counted_pairs(pairs) + rest;
    if pairs.len() == 0 {
        assert(all =~= rest);
        assert(pairs_map(pairs) =~= Map::empty());
    } else {
        let key = counted(encode_utf8(pairs[0].0));
        let value = counted(encode_utf8(pairs[0].1));
        let later = counted_pairs(pairs.skip(1));
        lemma_first_pair(pairs);
        lemma_first_mapped(pairs);
        assert(all =~= key + (value + (later + rest)));
        texts_read_back(pairs[0].0, value + (later + rest));
        texts_read_back(pairs[0].1, later + rest);
        lemma_pairs_read_back(pairs.skip(1), rest);
    }
}

/// A map reads back as itself, whatever follows it: the count of its pairs, then
/// each key before its value.
pub proof fn maps_read_back(map: Map<Seq<char>, Seq<char>>, rest: Seq<u8>)
    requires
        has_order(map),
    ensures
        read_map(rowbinary_value(Cell::TextMap(map)) + rest) == Some((map, rest)),
{
    let ordered = choose|pairs: Seq<(Seq<char>, Seq<char>)>| #[trigger]
        increasing(pairs) && pairs_map(pairs) == map;
    let pairs = sorted_pairs(map);
    assert(increasing(pairs) && pairs_map(pairs) == map);
    map_has_one_order(ordered, pairs);
    let count = leb128(pairs.len());
    let body = counted_pairs(pairs);
    let all = rowbinary_value(Cell::TextMap(map)) + rest;
    assert(all =~= count + (body + rest));
    leb128_reads_back(pairs.len(), body + rest);
    assert(all.skip(count.len() as int) =~= body + rest);
    lemma_pairs_read_back(pairs, rest);
}

/// Whether a cell is one that a column can hold.
pub open spec fn belongs(cell: Cell, column: AnalyticsColumn) -> bool {
    match cell {
        Cell::Null => column.optional(),
        Cell::Text(_) => column.representation() is Text,
        Cell::Timestamp(_) => column.representation() is Timestamp,
        Cell::UInt32(_) => column.representation() is UInt32,
        Cell::UInt64(_) => column.representation() is UInt64,
        Cell::Int32(_) => column.representation() is Int32,
        Cell::Int64(_) => column.representation() is Int64,
        Cell::Boolean(_) => column.representation() is Boolean,
        Cell::TextMap(map) => column.representation() is TextMap && has_order(map),
    }
}

proof fn lemma_values_read_back(cell: Cell, column: AnalyticsColumn, rest: Seq<u8>)
    requires
        belongs(cell, column),
        !(cell is Null),
    ensures
        read_value(column.representation(), rowbinary_value(cell) + rest) == Some((cell, rest)),
{
    let bytes = rowbinary_value(cell);
    let all = bytes + rest;
    fields_read_back();
    assert(all.take(bytes.len() as int) =~= bytes);
    assert(all.skip(bytes.len() as int) =~= rest);
    match cell {
        Cell::Text(text) => {
            texts_read_back(text, rest);
        },
        Cell::TextMap(map) => {
            maps_read_back(map, rest);
        },
        Cell::Timestamp(time) => {
            assert((time as u64) as i64 == time) by (bit_vector);
        },
        Cell::Int32(number) => {
            assert((number as u32) as i32 == number) by (bit_vector);
        },
        Cell::Int64(number) => {
            assert((number as u64) as i64 == number) by (bit_vector);
        },
        _ => {},
    }
}

/// A cell reads back as itself, whatever follows it.
pub proof fn cells_read_back(cell: Cell, column: AnalyticsColumn, rest: Seq<u8>)
    requires
        belongs(cell, column),
    ensures
        read_cell(column, rowbinary_cell(cell, column.optional()) + rest) == Some((cell, rest)),
{
    let all = rowbinary_cell(cell, column.optional()) + rest;
    if column.optional() {
        assert(all.skip(1) =~= rowbinary_value(cell) + rest);
        if cell is Null {
            assert(all.skip(1) =~= rest);
        } else {
            lemma_values_read_back(cell, column, rest);
        }
    } else {
        lemma_values_read_back(cell, column, rest);
    }
}

proof fn lemma_first_cell(cells: spec_fn(AnalyticsColumn) -> Cell, columns: Seq<AnalyticsColumn>)
    requires
        columns.len() > 0,
    ensures
        rowbinary_cells(cells, columns) == rowbinary_cell(
            cells(columns[0]),
            columns[0].optional(),
        ) + rowbinary_cells(cells, columns.skip(1)),
    decreases columns.len(),
{
    if columns.len() == 1 {
        assert(columns.drop_last() =~= Seq::empty());
        assert(columns.skip(1) =~= Seq::empty());
        assert(columns.last() == columns[0]);
        assert(rowbinary_cells(cells, columns) =~= rowbinary_cell(
            cells(columns[0]),
            columns[0].optional(),
        ) + rowbinary_cells(cells, columns.skip(1)));
    } else {
        let shorter = columns.drop_last();
        let later = columns.skip(1);
        lemma_first_cell(cells, shorter);
        assert(shorter.skip(1) =~= later.drop_last());
        assert(later.last() == columns.last());
        assert(shorter[0] == columns[0]);
        assert(rowbinary_cells(cells, columns) =~= rowbinary_cell(
            cells(columns[0]),
            columns[0].optional(),
        ) + rowbinary_cells(cells, later));
    }
}

/// A row reads back as its cells, in the order of its columns, whatever follows
/// it.
pub proof fn rows_read_back(
    cells: spec_fn(AnalyticsColumn) -> Cell,
    columns: Seq<AnalyticsColumn>,
    rest: Seq<u8>,
)
    requires
        forall|i: int|
            0 <= i < columns.len() ==> belongs(cells(#[trigger] columns[i]), columns[i]),
    ensures
        read_row(columns, rowbinary_cells(cells, columns) + rest) == Some(
            (Seq::new(columns.len(), |i: int| cells(columns[i])), rest),
        ),
    decreases columns.len(),
{
    let all = rowbinary_cells(cells, columns) + rest;
    let shown = Seq::new(columns.len(), |i: int| cells(columns[i]));
    if columns.len() == 0 {
        assert(all =~= rest);
        assert(shown =~= Seq::empty());
    } else {
        let later = columns.skip(1);
        let first = rowbinary_cell(cells(columns[0]), columns[0].optional());
        lemma_first_cell(cells, columns);
        assert(all =~= first + (rowbinary_cells(cells, later) + rest));
        cells_read_back(cells(columns[0]), columns[0], rowbinary_cells(cells, later) + rest);
        assert forall|i: int| 0 <= i < later.len() implies belongs(
            cells(#[trigger] later[i]),
            later[i],
        ) by {
            assert(later[i] == columns[i + 1]);
        }
        rows_read_back(cells, later, rest);
        assert(seq![cells(columns[0])] + Seq::new(later.len(), |i: int| cells(later[i]))
            =~= shown);
    }
}

/// Whether the maps of a row can be written out in the order of their keys.
pub open spec fn maps_have_order(row: AnalyticsRow) -> bool {
    &&& has_order(row.labels@)
    &&& has_order(row.metadata@)
    &&& has_order(row.attributes@)
    &&& has_order(row.resource_attributes@)
    &&& has_order(row.scope_attributes@)
    &&& has_order(row.attribute_ids@)
    &&& has_order(row.resource_attribute_ids@)
    &&& has_order(row.scope_attribute_ids@)
}

/// Every cell of a row is one that its column can hold.
pub proof fn row_cells_belong(row: AnalyticsRow, column: AnalyticsColumn)
    requires
        maps_have_order(row),
    ensures
        belongs(row.cell(column), column),
{
}

/// A row that says nothing but where its record is.
pub open spec fn bare_row(row: AnalyticsRow) -> AnalyticsRow {
    AnalyticsRow {
        parent_timestamp_unix_nanos: None,
        observed_timestamp_unix_nanos: None,
        start_timestamp_unix_nanos: None,
        end_timestamp_unix_nanos: None,
        ordinal: None,
        resource_id: None,
        scope_id: None,
        trace_id: None,
        span_id: None,
        parent_span_id: None,
        linked_trace_id: None,
        linked_span_id: None,
        series_id: None,
        message: None,
        body_json: None,
        name: None,
        event_name: None,
        severity_number: None,
        severity_text: None,
        kind: None,
        duration_nanos: None,
        status_code: None,
        status_message: None,
        trace_state: None,
        flags: None,
        dropped_attributes_count: None,
        dropped_events_count: None,
        dropped_links_count: None,
        attributes_json: None,
        resource_attributes_json: None,
        scope_attributes_json: None,
        events_json: None,
        links_json: None,
        description: None,
        unit: None,
        metric_kind: None,
        temporality: None,
        monotonic: None,
        value_type: None,
        scalar_integer: None,
        scalar_double_bits: None,
        value_json: None,
        exemplars_json: None,
        ..row
    }
}

/// A column is optional exactly where a row may lack its value; a bare row lacks all
/// of those.
pub proof fn optional_columns_may_be_lacking(row: AnalyticsRow, column: AnalyticsColumn)
    ensures
        bare_row(row).cell(column) is Null <==> column.optional(),
        row.cell(column) is Null ==> column.optional(),
{
}

/// The value that a column holds is represented as the column says.
pub proof fn values_are_represented_as_columns_say(row: AnalyticsRow, column: AnalyticsColumn)
    ensures
        match row.cell(column) {
            Cell::Null => column.optional(),
            Cell::Text(_) => column.representation() is Text,
            Cell::Timestamp(_) => column.representation() is Timestamp,
            Cell::UInt32(_) => column.representation() is UInt32,
            Cell::UInt64(_) => column.representation() is UInt64,
            Cell::Int32(_) => column.representation() is Int32,
            Cell::Int64(_) => column.representation() is Int64,
            Cell::Boolean(_) => column.representation() is Boolean,
            Cell::TextMap(_) => column.representation() is TextMap,
        },
{
}

/// The row that only counts is one that its column can hold: it reads back as
/// absent where the column is optional, and else as zero or nothing.
pub proof fn placeholders_read_back(column: AnalyticsColumn, rest: Seq<u8>)
    ensures
        ({
            let bytes = rowbinary_cell(placeholder(column), column.optional());
            &&& read_cell(column, bytes + rest) matches Some((cell, left)) && left == rest
                && match cell {
                Cell::Null => column.optional(),
                Cell::Text(text) => text.len() == 0,
                Cell::Timestamp(time) => time == 0,
                Cell::UInt32(number) => number == 0,
                Cell::UInt64(number) => number == 0,
                Cell::Int32(number) => number == 0,
                Cell::Int64(number) => number == 0,
                Cell::Boolean(flag) => !flag,
                Cell::TextMap(map) => map.dom() == Set::<Seq<char>>::empty(),
            }
            &&& column.optional() ==> bytes == seq![1u8]
        }),
{
    let none = Seq::<(Seq<char>, Seq<char>)>::empty();
    assert(increasing(none));
    assert(pairs_map(none) =~= Map::<Seq<char>, Seq<char>>::empty());
    assert(has_order(Map::empty()));
    assert(belongs(placeholder(column), column));
    cells_read_back(placeholder(column), column, rest);
    if column.optional() {
        assert(rowbinary_cell(placeholder(column), column.optional()) =~= seq![1u8]);
    }
}

/// The rows of a count are as many as were asked for: what is written is that many
/// times as long as one row.
pub proof fn counted_rows_are_as_many(bytes: Seq<u8>, count: nat)
    ensures
        repeated(bytes, count).len() == count * bytes.len(),
    decreases count,
{
    let width = bytes.len();
    if count > 0 {
        let fewer = (count - 1) as nat;
        counted_rows_are_as_many(bytes, fewer);
        assert(count * width == fewer * width + width) by (nonlinear_arith)
            requires
                count == fewer + 1,
        ;
    } else {
        assert(count * width == 0) by (nonlinear_arith)
            requires
                count == 0,
        ;
    }
}

} // verus!
