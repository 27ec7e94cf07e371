//! Arrow record batches and JSON lines of analytical rows.

use std::sync::Arc;

use vstd::prelude::*;
use vstd::utf8::encode_utf8;

use crate::analytics_columns::{AnalyticsColumn, ColumnKind};
use crate::analytics_direct::{
    can_direct_metric_projection, can_direct_span_projection, direct_metric_column,
    direct_point_cell, direct_span_cell, direct_span_column, point_column_in_range,
    points_in_range, span_column_in_range, spans_in_range,
};
use crate::analytics_metrics::{double_bits_of, integer_of};
use crate::analytics_projection::time_out_of_range;
use crate::analytics_row::{
    bool_cell, i32_cell, i64_cell, nonzero_timestamp, text_cell, timestamp_cell, timestamp_i64,
    u32_cell, u64_cell, AnalyticsRow, Cell,
};
use crate::analytics_rowbinary::{
    bool_value, i32_value, i64_value, map_value, required_columns_have_values, sorted_pairs,
    string_value, timestamp_value, u32_value, u64_value,
};
use crate::analytics_spans::{end_timestamp, span_status_code};
use crate::error::{ApiErrorKind, LokiApiError};
use crate::records::{DurableMetricPoint, DurableSpan};
use crate::string_map::{increasing, map_has_one_order, pair_view, pair_views, pairs_map, StringMap};

verus! {

/// The values of one column over several rows.
#[derive(Debug, PartialEq, Eq)]
pub enum ColumnValues {
    /// Texts.
    Text(Vec<Option<String>>),
    /// Times.
    Timestamp(Vec<Option<i64>>),
    /// Unsigned 32-bit integers.
    UInt32(Vec<Option<u32>>),
    /// Unsigned 64-bit integers.
    UInt64(Vec<Option<u64>>),
    /// Signed 32-bit integers.
    Int32(Vec<Option<i32>>),
    /// Signed 64-bit integers.
    Int64(Vec<Option<i64>>),
    /// Booleans.
    Boolean(Vec<Option<bool>>),
    /// Maps, each as its pairs in key order.
    TextMap(Vec<Vec<(String, String)>>),
}

/// UTF-8 bytes of the texts of a column.
pub open spec fn text_bytes(values: Seq<Option<String>>) -> nat
    decreases values.len(),
{
    if values.len() == 0 {
        0
    } else {
        text_bytes(values.drop_last()) + (match values.last() {
            Some(text) => encode_utf8(text@).len(),
            None => 0,
        })
    }
}

/// UTF-8 bytes of the keys, of the values and number of the pairs of one map.
pub open spec fn pair_bytes(pairs: Seq<(String, String)>) -> (nat, nat, nat)
    decreases pairs.len(),
{
    if pairs.len() == 0 {
        (0, 0, 0)
    } else {
        let rest = pair_bytes(pairs.drop_last());
        (
            rest.0 + encode_utf8(pairs.last().0@).len(),
            rest.1 + encode_utf8(pairs.last().1@).len(),
            rest.2 + 1,
        )
    }
}

/// UTF-8 bytes of the keys, of the values and number of the pairs of a column.
pub open spec fn map_bytes(maps: Seq<Vec<(String, String)>>) -> (nat, nat, nat)
    decreases maps.len(),
{
    if maps.len() == 0 {
        (0, 0, 0)
    } else {
        let rest = map_bytes(maps.drop_last());
        let last = pair_bytes(maps.last()@);
        (rest.0 + last.0, rest.1 + last.1, rest.2 + last.2)
    }
}

impl ColumnValues {
    /// The values as cells.
    pub open spec fn cells(&self) -> Seq<Cell> {
        match self {
            ColumnValues::Text(values) => Seq::new(values@.len(), |i: int| text_cell(values@[i])),
            ColumnValues::Timestamp(values) => Seq::new(values@.len(), |i: int| timestamp_cell(values@[i])),
            ColumnValues::UInt32(values) => Seq::new(values@.len(), |i: int| u32_cell(values@[i])),
            ColumnValues::UInt64(values) => Seq::new(values@.len(), |i: int| u64_cell(values@[i])),
            ColumnValues::Int32(values) => Seq::new(values@.len(), |i: int| i32_cell(values@[i])),
            ColumnValues::Int64(values) => Seq::new(values@.len(), |i: int| i64_cell(values@[i])),
            ColumnValues::Boolean(values) => Seq::new(values@.len(), |i: int| bool_cell(values@[i])),
            ColumnValues::TextMap(maps) => Seq::new(
                maps@.len(),
                |i: int| Cell::TextMap(pairs_map(pair_views(maps@[i]@))),
            ),
        }
    }

    /// How the values are represented.
    pub open spec fn representation(&self) -> ColumnKind {
        match self {
            ColumnValues::Text(_) => ColumnKind::Text,
            ColumnValues::Timestamp(_) => ColumnKind::Timestamp,
            ColumnValues::UInt32(_) => ColumnKind::UInt32,
            ColumnValues::UInt64(_) => ColumnKind::UInt64,
            ColumnValues::Int32(_) => ColumnKind::Int32,
            ColumnValues::Int64(_) => ColumnKind::Int64,
            ColumnValues::Boolean(_) => ColumnKind::Boolean,
            ColumnValues::TextMap(_) => ColumnKind::TextMap,
        }
    }

    /// Whether maps are given in key order.
    pub open spec fn in_key_order(&self) -> bool {
        self matches ColumnValues::TextMap(maps) ==> forall|i: int|
            0 <= i < maps@.len() ==> increasing(pair_views((#[trigger] maps@[i])@))
    }

    /// Whether the 32-bit offsets of Arrow can address the texts.
    pub open spec fn addressable(&self) -> bool {
        match self {
            ColumnValues::Text(values) => text_bytes(values@) <= i32::MAX,
            ColumnValues::TextMap(maps) => {
                let (keys, values, pairs) = map_bytes(maps@);
                keys <= i32::MAX && values <= i32::MAX && pairs <= i32::MAX
            },
            _ => true,
        }
    }

    /// Returns whether the 32-bit offsets of Arrow can address the texts.
    pub fn fits(&self) -> (fits: bool)
        ensures
            fits == self.addressable(),
    {
        match self {
            ColumnValues::Text(values) => texts_fit(values),
            ColumnValues::TextMap(maps) => maps_fit(maps),
            _ => true,
        }
    }
}

/// Adds up to the bound of a 32-bit offset.
fn within(total: u64, more: usize) -> (sum: Option<u64>)
    requires
        total <= i32::MAX,
    ensures
        match sum {
            Some(value) => value == total + more && value <= i32::MAX,
            None => total + more > i32::MAX,
        },
{
    if more as u64 > i32::MAX as u64 - total {
        None
    } else {
        Some(total + more as u64)
    }
}

proof fn lemma_text_bytes_grow(values: Seq<Option<String>>, count: int)
    requires
        0 <= count <= values.len(),
    ensures
        text_bytes(values.take(count)) <= text_bytes(values),
    decreases values.len(),
{
    if count < values.len() {
        assert(values.drop_last().take(count) =~= values.take(count));
        lemma_text_bytes_grow(values.drop_last(), count);
    } else {
        assert(values.take(count) =~= values);
    }
}

fn texts_fit(values: &Vec<Option<String>>) -> (fits: bool)
    ensures
        fits == (text_bytes(values@) <= i32::MAX),
{
    let mut total: u64 = 0;
    let mut index: usize = 0;
    assert(values@.take(0) =~= Seq::<Option<String>>::empty());
    while index < values.len()
        invariant
            index <= values@.len(),
            total == text_bytes(values@.take(index as int)),
            total <= i32::MAX,
        decreases values@.len() - index,
    {
        proof {
            let longer = values@.take(index + 1);
            assert(longer.drop_last() =~= values@.take(index as int));
            lemma_text_bytes_grow(values@, index + 1);
        }
        let length: usize = match &values[index] {
            Some(text) => text.as_str().as_bytes().len(),
            None => 0,
        };
        total = match within(total, length) {
            Some(sum) => sum,
            None => {
                return false;
            },
        };
        index = index + 1;
    }
    assert(values@.take(index as int) =~= values@);
    true
}

proof fn lemma_pair_bytes_grow(pairs: Seq<(String, String)>, count: int)
    requires
        0 <= count <= pairs.len(),
    ensures
        pair_bytes(pairs.take(count)).0 <= pair_bytes(pairs).0,
        pair_bytes(pairs.take(count)).1 <= pair_bytes(pairs).1,
        pair_bytes(pairs.take(count)).2 <= pair_bytes(pairs).2,
    decreases pairs.len(),
{
    if count < pairs.len() {
        assert(pairs.drop_last().take(count) =~= pairs.take(count));
        lemma_pair_bytes_grow(pairs.drop_last(), count);
    } else {
        assert(pairs.take(count) =~= pairs);
    }
}

proof fn lemma_map_bytes_grow(maps: Seq<Vec<(String, String)>>, count: int)
    requires
        0 <= count <= maps.len(),
    ensures
        map_bytes(maps.take(count)).0 <= map_bytes(maps).0,
        map_bytes(maps.take(count)).1 <= map_bytes(maps).1,
        map_bytes(maps.take(count)).2 <= map_bytes(maps).2,
    decreases maps.len(),
{
    if count < maps.len() {
        assert(maps.drop_last().take(count) =~= maps.take(count));
        lemma_map_bytes_grow(maps.drop_last(), count);
    } else {
        assert(maps.take(count) =~= maps);
    }
}

fn maps_fit(maps: &Vec<Vec<(String, String)>>) -> (fits: bool)
    ensures
        fits == {
            let (keys, values, pairs) = map_bytes(maps@);
            keys <= i32::MAX && values <= i32::MAX && pairs <= i32::MAX
        },
{
    let mut keys: u64 = 0;
    let mut values: u64 = 0;
    let mut count: u64 = 0;
    let mut index: usize = 0;
    assert(maps@.take(0) =~= Seq::<Vec<(String, String)>>::empty());
    while index < maps.len()
        invariant
            index <= maps@.len(),
            (keys as nat, values as nat, count as nat) == map_bytes(maps@.take(index as int)),
            keys <= i32::MAX,
            values <= i32::MAX,
            count <= i32::MAX,
        decreases maps@.len() - index,
    {
        let pairs = &maps[index];
        let ghost before = map_bytes(maps@.take(index as int));
        proof {
            let longer = maps@.take(index + 1);
            assert(longer.drop_last() =~= maps@.take(index as int));
            lemma_map_bytes_grow(maps@, index + 1);
        }
        let mut position: usize = 0;
        assert(pairs@.take(0) =~= Seq::<(String, String)>::empty());
        while position < pairs.len()
            invariant
                index < maps@.len(),
                position <= pairs@.len(),
                pairs@ == maps@[index as int]@,
                before == map_bytes(maps@.take(index as int)),
                map_bytes(maps@.take(index + 1)) == (
                    before.0 + pair_bytes(pairs@).0,
                    before.1 + pair_bytes(pairs@).1,
                    before.2 + pair_bytes(pairs@).2,
                ),
                map_bytes(maps@.take(index + 1)).0 <= map_bytes(maps@).0,
                map_bytes(maps@.take(index + 1)).1 <= map_bytes(maps@).1,
                map_bytes(maps@.take(index + 1)).2 <= map_bytes(maps@).2,
                keys == before.0 + pair_bytes(pairs@.take(position as int)).0,
                values == before.1 + pair_bytes(pairs@.take(position as int)).1,
                count == before.2 + pair_bytes(pairs@.take(position as int)).2,
                keys <= i32::MAX,
                values <= i32::MAX,
                count <= i32::MAX,
            decreases pairs@.len() - position,
        {
            proof {
                let longer = pairs@.take(position + 1);
                assert(longer.drop_last() =~= pairs@.take(position as int));
                lemma_pair_bytes_grow(pairs@, position + 1);
            }
            keys = match within(keys, pairs[position].0.as_str().as_bytes().len()) {
                Some(sum) => sum,
                None => {
                    return false;
                },
            };
            values = match within(values, pairs[position].1.as_str().as_bytes().len()) {
                Some(sum) => sum,
                None => {
                    return false;
                },
            };
            count = match within(count, 1) {
                Some(sum) => sum,
                None => {
                    return false;
                },
            };
            position = position + 1;
        }
        assert(pairs@.take(position as int) =~= pairs@);
        index = index + 1;
    }
    assert(maps@.take(index as int) =~= maps@);
    true
}

fn column_texts(rows: &[AnalyticsRow], column: AnalyticsColumn) -> (values: Vec<Option<String>>)
    requires
        column.representation() is Text,
    ensures
        ColumnValues::Text(values).cells() == Seq::new(
            rows@.len(),
            |i: int| rows@[i].cell(column),
        ),
{
    let mut values: Vec<Option<String>> = Vec::new();
    let mut index: usize = 0;
    while index < rows.len()
        invariant
            index <= rows@.len(),
            column.representation() is Text,
            values@.len() == index,
            forall|i: int|
                0 <= i < index ==> text_cell(#[trigger] values@[i]) == rows@[i].cell(column),
        decreases rows@.len() - index,
    {
        values.push(match string_value(&rows[index], column) {
            Some(text) => Some(text.to_owned()),
            None => None,
        });
        index = index + 1;
    }
    assert(ColumnValues::Text(values).cells() =~= Seq::new(
        rows@.len(),
        |i: int| rows@[i].cell(column),
    ));
    values
}

fn column_times(rows: &[AnalyticsRow], column: AnalyticsColumn) -> (values: Vec<Option<i64>>)
    requires
        column.representation() is Timestamp,
    ensures
        ColumnValues::Timestamp(values).cells() == Seq::new(
            rows@.len(),
            |i: int| rows@[i].cell(column),
        ),
{
    let mut values: Vec<Option<i64>> = Vec::new();
    let mut index: usize = 0;
    while index < rows.len()
        invariant
            index <= rows@.len(),
            column.representation() is Timestamp,
            values@.len() == index,
            forall|i: int|
                0 <= i < index ==> timestamp_cell(#[trigger] values@[i]) == rows@[i].cell(column),
        decreases rows@.len() - index,
    {
        values.push(timestamp_value(&rows[index], column));
        index = index + 1;
    }
    assert(ColumnValues::Timestamp(values).cells() =~= Seq::new(
        rows@.len(),
        |i: int| rows@[i].cell(column),
    ));
    values
}

fn column_u32s(rows: &[AnalyticsRow], column: AnalyticsColumn) -> (values: Vec<Option<u32>>)
    requires
        column.representation() is UInt32,
    ensures
        ColumnValues::UInt32(values).cells() == Seq::new(
            rows@.len(),
            |i: int| rows@[i].cell(column),
        ),
{
    let mut values: Vec<Option<u32>> = Vec::new();
    let mut index: usize = 0;
    while index < rows.len()
        invariant
            index <= rows@.len(),
            column.representation() is UInt32,
            values@.len() == index,
            forall|i: int|
                0 <= i < index ==> u32_cell(#[trigger] values@[i]) == rows@[i].cell(column),
        decreases rows@.len() - index,
    {
        values.push(u32_value(&rows[index], column));
        index = index + 1;
    }
    assert(ColumnValues::UInt32(values).cells() =~= Seq::new(
        rows@.len(),
        |i: int| rows@[i].cell(column),
    ));
    values
}

fn column_u64s(rows: &[AnalyticsRow], column: AnalyticsColumn) -> (values: Vec<Option<u64>>)
    requires
        column.representation() is UInt64,
    ensures
        ColumnValues::UInt64(values).cells() == Seq::new(
            rows@.len(),
            |i: int| rows@[i].cell(column),
        ),
{
    let mut values: Vec<Option<u64>> = Vec::new();
    let mut index: usize = 0;
    while index < rows.len()
        invariant
            index <= rows@.len(),
            column.representation() is UInt64,
            values@.len() == index,
            forall|i: int|
                0 <= i < index ==> u64_cell(#[trigger] values@[i]) == rows@[i].cell(column),
        decreases rows@.len() - index,
    {
        values.push(u64_value(&rows[index], column));
        index = index + 1;
    }
    assert(ColumnValues::UInt64(values).cells() =~= Seq::new(
        rows@.len(),
        |i: int| rows@[i].cell(column),
    ));
    values
}

fn column_i32s(rows: &[AnalyticsRow], column: AnalyticsColumn) -> (values: Vec<Option<i32>>)
    requires
        column.representation() is Int32,
    ensures
        ColumnValues::Int32(values).cells() == Seq::new(
            rows@.len(),
            |i: int| rows@[i].cell(column),
        ),
{
    let mut values: Vec<Option<i32>> = Vec::new();
    let mut index: usize = 0;
    while index < rows.len()
        invariant
            index <= rows@.len(),
            column.representation() is Int32,
            values@.len() == index,
            forall|i: int|
                0 <= i < index ==> i32_cell(#[trigger] values@[i]) == rows@[i].cell(column),
        decreases rows@.len() - index,
    {
        values.push(i32_value(&rows[index], column));
        index = index + 1;
    }
    assert(ColumnValues::Int32(values).cells() =~= Seq::new(
        rows@.len(),
        |i: int| rows@[i].cell(column),
    ));
    values
}

fn column_i64s(rows: &[AnalyticsRow], column: AnalyticsColumn) -> (values: Vec<Option<i64>>)
    requires
        column.representation() is Int64,
    ensures
        ColumnValues::Int64(values).cells() == Seq::new(
            rows@.len(),
            |i: int| rows@[i].cell(column),
        ),
{
    let mut values: Vec<Option<i64>> = Vec::new();
    let mut index: usize = 0;
    while index < rows.len()
        invariant
            index <= rows@.len(),
            column.representation() is Int64,
            values@.len() == index,
            forall|i: int|
                0 <= i < index ==> i64_cell(#[trigger] values@[i]) == rows@[i].cell(column),
        decreases rows@.len() - index,
    {
        values.push(i64_value(&rows[index], column));
        index = index + 1;
    }
    assert(ColumnValues::Int64(values).cells() =~= Seq::new(
        rows@.len(),
        |i: int| rows@[i].cell(column),
    ));
    values
}

fn column_flags(rows: &[AnalyticsRow], column: AnalyticsColumn) -> (values: Vec<Option<bool>>)
    requires
        column.representation() is Boolean,
    ensures
        ColumnValues::Boolean(values).cells() == Seq::new(
            rows@.len(),
            |i: int| rows@[i].cell(column),
        ),
{
    let mut values: Vec<Option<bool>> = Vec::new();
    let mut index: usize = 0;
    while index < rows.len()
        invariant
            index <= rows@.len(),
            column.representation() is Boolean,
            values@.len() == index,
            forall|i: int|
                0 <= i < index ==> bool_cell(#[trigger] values@[i]) == rows@[i].cell(column),
        decreases rows@.len() - index,
    {
        values.push(bool_value(&rows[index], column));
        index = index + 1;
    }
    assert(ColumnValues::Boolean(values).cells() =~= Seq::new(
        rows@.len(),
        |i: int| rows@[i].cell(column),
    ));
    values
}

fn copy_pairs(map: &StringMap) -> (copy: Vec<(String, String)>)
    ensures
        pairs_map(pair_views(copy@)) == map@,
        increasing(pair_views(copy@)),
{
    let pairs = map.pairs();
    let mut copy: Vec<(String, String)> = Vec::new();
    let mut index: usize = 0;
    while index < pairs.len()
        invariant
            index <= pairs@.len(),
            copy@.len() == index,
            forall|i: int|
                0 <= i < index ==> pair_view(#[trigger] copy@[i]) == pair_view(pairs@[i]),
        decreases pairs@.len() - index,
    {
        copy.push((pairs[index].0.clone(), pairs[index].1.clone()));
        index = index + 1;
    }
    assert(pair_views(copy@) =~= pair_views(pairs@));
    copy
}

fn column_maps(rows: &[AnalyticsRow], column: AnalyticsColumn) -> (maps: Vec<
    Vec<(String, String)>,
>)
    requires
        column.representation() is TextMap,
    ensures
        ColumnValues::TextMap(maps).cells() == Seq::new(
            rows@.len(),
            |i: int| rows@[i].cell(column),
        ),
        ColumnValues::TextMap(maps).in_key_order(),
{
    let mut maps: Vec<Vec<(String, String)>> = Vec::new();
    let mut index: usize = 0;
    while index < rows.len()
        invariant
            index <= rows@.len(),
            column.representation() is TextMap,
            maps@.len() == index,
            forall|i: int|
                0 <= i < index ==> Cell::TextMap(pairs_map(pair_views((#[trigger] maps@[i])@)))
                    == rows@[i].cell(column),
            forall|i: int| 0 <= i < index ==> increasing(pair_views((#[trigger] maps@[i])@)),
        decreases rows@.len() - index,
    {
        maps.push(copy_pairs(map_value(&rows[index], column)));
        index = index + 1;
    }
    assert(ColumnValues::TextMap(maps).cells() =~= Seq::new(
        rows@.len(),
        |i: int| rows@[i].cell(column),
    ));
    maps
}

/// Gathers the values of one column over several rows.
pub fn column_values(rows: &[AnalyticsRow], column: AnalyticsColumn) -> (values: ColumnValues)
    ensures
        values.cells() == Seq::new(rows@.len(), |i: int| rows@[i].cell(column)),
        values.in_key_order(),
        values.representation() == column.representation(),
{
    match column.kind() {
        ColumnKind::Text => ColumnValues::Text(column_texts(rows, column)),
        ColumnKind::Timestamp => ColumnValues::Timestamp(column_times(rows, column)),
        ColumnKind::UInt32 => ColumnValues::UInt32(column_u32s(rows, column)),
        ColumnKind::UInt64 => ColumnValues::UInt64(column_u64s(rows, column)),
        ColumnKind::Int32 => ColumnValues::Int32(column_i32s(rows, column)),
        ColumnKind::Int64 => ColumnValues::Int64(column_i64s(rows, column)),
        ColumnKind::Boolean => ColumnValues::Boolean(column_flags(rows, column)),
        ColumnKind::TextMap => ColumnValues::TextMap(column_maps(rows, column)),
    }
}

/// One Arrow array.
#[verifier::external_body]
#[derive(Debug)]
pub struct ArrowArray {
    array: arrow_array::ArrayRef,
}

/// What an Arrow array holds, slot by slot.
pub uninterp spec fn array_cells(array: ArrowArray) -> Seq<Cell>;

/// How an Arrow array represents its values.
pub uninterp spec fn array_kind(array: ArrowArray) -> ColumnKind;

/// A batch of equally long Arrow arrays.
#[verifier::external_body]
#[derive(Debug)]
pub struct ArrowBatch {
    /// The batch itself.
    pub batch: arrow_array::RecordBatch,
}

/// The name, the representation, whether nulls are allowed and the cells of each
/// column of a batch.
pub uninterp spec fn batch_columns(batch: ArrowBatch) -> Seq<(Seq<char>, ColumnKind, bool, Seq<Cell>)>;

/// Calls `arrow_array::builder::StringBuilder`: an array of Utf8 strings, one slot
/// per value and null where there is none. The builder
/// panics beyond 2 GiB of text, so longer input is excluded.
#[verifier::external_body]
fn arrow_texts(values: &Vec<Option<String>>) -> (array: ArrowArray)
    requires
        text_bytes(values@) <= i32::MAX,
    ensures
        array_cells(array) == ColumnValues::Text(*values).cells(),
        array_kind(array) == ColumnKind::Text,
{
    let mut builder = arrow_array::builder::StringBuilder::new();
    for value in values {
        builder.append_option(value.as_ref());
    }
    ArrowArray { array: Arc::new(builder.finish()) }
}

/// Calls `arrow_array::builder::TimestampNanosecondBuilder`: an array of UTC nanosecond timestamps, one slot
/// per value and null where there is none.
#[verifier::external_body]
fn arrow_times(values: &Vec<Option<i64>>) -> (array: ArrowArray)
    ensures
        array_cells(array) == ColumnValues::Timestamp(*values).cells(),
        array_kind(array) == ColumnKind::Timestamp,
{
    let mut builder = arrow_array::builder::TimestampNanosecondBuilder::new();
    for value in values {
        builder.append_option(*value);
    }
    ArrowArray { array: Arc::new(builder.finish().with_timezone("UTC")) }
}

/// Calls `arrow_array::builder::UInt32Builder`: an array of unsigned 32-bit integers, one slot
/// per value and null where there is none.
#[verifier::external_body]
fn arrow_u32s(values: &Vec<Option<u32>>) -> (array: ArrowArray)
    ensures
        array_cells(array) == ColumnValues::UInt32(*values).cells(),
        array_kind(array) == ColumnKind::UInt32,
{
    let mut builder = arrow_array::builder::UInt32Builder::new();
    for value in values {
        builder.append_option(*value);
    }
    ArrowArray { array: Arc::new(builder.finish()) }
}

/// Calls `arrow_array::builder::UInt64Builder`: an array of unsigned 64-bit integers, one slot
/// per value and null where there is none.
#[verifier::external_body]
fn arrow_u64s(values: &Vec<Option<u64>>) -> (array: ArrowArray)
    ensures
        array_cells(array) == ColumnValues::UInt64(*values).cells(),
        array_kind(array) == ColumnKind::UInt64,
{
    let mut builder = arrow_array::builder::UInt64Builder::new();
    for value in values {
        builder.append_option(*value);
    }
    ArrowArray { array: Arc::new(builder.finish()) }
}

/// Calls `arrow_array::builder::Int32Builder`: an array of signed 32-bit integers, one slot
/// per value and null where there is none.
#[verifier::external_body]
fn arrow_i32s(values: &Vec<Option<i32>>) -> (array: ArrowArray)
    ensures
        array_cells(array) == ColumnValues::Int32(*values).cells(),
        array_kind(array) == ColumnKind::Int32,
{
    let mut builder = arrow_array::builder::Int32Builder::new();
    for value in values {
        builder.append_option(*value);
    }
    ArrowArray { array: Arc::new(builder.finish()) }
}

/// Calls `arrow_array::builder::Int64Builder`: an array of signed 64-bit integers, one slot
/// per value and null where there is none.
#[verifier::external_body]
fn arrow_i64s(values: &Vec<Option<i64>>) -> (array: ArrowArray)
    ensures
        array_cells(array) == ColumnValues::Int64(*values).cells(),
        array_kind(array) == ColumnKind::Int64,
{
    let mut builder = arrow_array::builder::Int64Builder::new();
    for value in values {
        builder.append_option(*value);
    }
    ArrowArray { array: Arc::new(builder.finish()) }
}

/// Calls `arrow_array::builder::BooleanBuilder`: an array of booleans, one slot
/// per value and null where there is none.
#[verifier::external_body]
fn arrow_flags(values: &Vec<Option<bool>>) -> (array: ArrowArray)
    ensures
        array_cells(array) == ColumnValues::Boolean(*values).cells(),
        array_kind(array) == ColumnKind::Boolean,
{
    let mut builder = arrow_array::builder::BooleanBuilder::new();
    for value in values {
        builder.append_option(*value);
    }
    ArrowArray { array: Arc::new(builder.finish()) }
}

/// Calls `arrow_array::builder::MapBuilder`: an array of text maps with fields
/// `entries`, `keys` and `values`, one slot per map, its entries in key order. The
/// builder panics beyond 2 GiB of keys or values, so longer input is excluded.
#[verifier::external_body]
fn arrow_maps(maps: &Vec<Vec<(String, String)>>) -> (array: ArrowArray)
    requires
        ColumnValues::TextMap(*maps).addressable(),
        ColumnValues::TextMap(*maps).in_key_order(),
    ensures
        array_cells(array) == ColumnValues::TextMap(*maps).cells(),
        array_kind(array) == ColumnKind::TextMap,
{
    let (entry, key, value) = ("entries".to_owned(), "keys".to_owned(), "values".to_owned());
    let names = arrow_array::builder::MapFieldNames { entry, key, value };
    let texts = arrow_array::builder::StringBuilder::new();
    let more = arrow_array::builder::StringBuilder::new();
    let mut builder = arrow_array::builder::MapBuilder::new(Some(names), texts, more);
    for pairs in maps {
        for (key, value) in pairs {
            builder.keys().append_value(key);
            builder.values().append_value(value);
        }
        builder.append(true).expect("keys and values were appended in pairs");
    }
    ArrowArray { array: Arc::new(builder.finish()) }
}

/// Calls `arrow_array::RecordBatch::try_new` with a schema of the given names
/// and nullability and the arrays' own types. It refuses a batch without
/// columns; equally long arrays whose required columns hold no null make a batch
/// of exactly these names and arrays. The wording of the refusal is left open.
#[verifier::external_body]
fn arrow_batch(fields: &Vec<(&'static str, bool)>, arrays: Vec<ArrowArray>) -> (result: Result<
    ArrowBatch,
    String,
>)
    requires
        fields@.len() == arrays@.len(),
        forall|i: int, j: int|
            0 <= i < j < arrays@.len() ==> array_cells(#[trigger] arrays@[i]).len()
                == array_cells(#[trigger] arrays@[j]).len(),
        forall|i: int, r: int|
            0 <= i < arrays@.len() && 0 <= r < array_cells(arrays@[i]).len() && !fields@[i].1 ==> !(
            #[trigger] array_cells(arrays@[i])[r] is Null),
    ensures
        match result {
            Ok(batch) => fields@.len() > 0 && batch_columns(batch) == Seq::new(
                fields@.len(),
                |i: int|
                    (
                        fields@[i].0@,
                        array_kind(arrays@[i]),
                        fields@[i].1,
                        array_cells(arrays@[i]),
                    ),
            ),
            Err(_) => fields@.len() == 0,
        },
{
    let mut described = Vec::new();
    let mut columns = Vec::new();
    for (field, array) in fields.iter().zip(arrays) {
        let kind = array.array.data_type().clone();
        described.push(arrow_schema::Field::new(field.0, kind, field.1));
        columns.push(array.array);
    }
    let schema = Arc::new(arrow_schema::Schema::new(described));
    match arrow_array::RecordBatch::try_new(schema, columns) {
        Ok(batch) => Ok(ArrowBatch { batch }),
        Err(error) => Err(error.to_string()),
    }
}

/// Builds the Arrow array of one column.
fn column_array(values: &ColumnValues) -> (array: ArrowArray)
    requires
        values.addressable(),
        values.in_key_order(),
    ensures
        array_cells(array) == values.cells(),
        array_kind(array) == values.representation(),
{
    match values {
        ColumnValues::Text(found) => arrow_texts(found),
        ColumnValues::Timestamp(found) => arrow_times(found),
        ColumnValues::UInt32(found) => arrow_u32s(found),
        ColumnValues::UInt64(found) => arrow_u64s(found),
        ColumnValues::Int32(found) => arrow_i32s(found),
        ColumnValues::Int64(found) => arrow_i64s(found),
        ColumnValues::Boolean(found) => arrow_flags(found),
        ColumnValues::TextMap(found) => arrow_maps(found),
    }
}

/// Whether a batch shows exactly these cells: one column per name, one cell per
/// row.
pub open spec fn batch_shows(
    batch: ArrowBatch,
    columns: Seq<AnalyticsColumn>,
    rows: nat,
    cells: spec_fn(int, AnalyticsColumn) -> Cell,
) -> bool {
    batch_columns(batch) == Seq::new(
        columns.len(),
        |i: int|
            (
                columns[i].wire_name(),
                columns[i].representation(),
                columns[i].optional(),
                Seq::new(rows, |r: int| cells(r, columns[i])),
            ),
    )
}

/// Builds a batch of gathered columns.
fn batch_of_values(
    columns: &[AnalyticsColumn],
    values: &Vec<ColumnValues>,
    Ghost(rows): Ghost<nat>,
    Ghost(cells): Ghost<spec_fn(int, AnalyticsColumn) -> Cell>,
) -> (result: Result<ArrowBatch, LokiApiError>)
    requires
        columns@.len() == values@.len(),
        forall|i: int|
            0 <= i < columns@.len() ==> (#[trigger] values@[i]).cells() == Seq::new(
                rows,
                |r: int| cells(r, columns@[i]),
            ),
        forall|i: int| 0 <= i < columns@.len() ==> (#[trigger] values@[i]).addressable(),
        forall|i: int| 0 <= i < columns@.len() ==> (#[trigger] values@[i]).in_key_order(),
        forall|i: int|
            0 <= i < columns@.len() ==> (#[trigger] values@[i]).representation()
                == columns@[i].representation(),
        forall|r: int, column: AnalyticsColumn|
            0 <= r < rows && !column.optional() && columns@.contains(column) ==> !(
            #[trigger] cells(r, column) is Null),
    ensures
        match result {
            Ok(batch) => columns@.len() > 0 && batch_shows(batch, columns@, rows, cells),
            Err(error) => columns@.len() == 0 && error.kind == ApiErrorKind::Internal,
        },
{
    let mut fields: Vec<(&'static str, bool)> = Vec::new();
    let mut arrays: Vec<ArrowArray> = Vec::new();
    let mut index: usize = 0;
    while index < columns.len()
        invariant
            index <= columns@.len(),
            columns@.len() == values@.len(),
            fields@.len() == index,
            arrays@.len() == index,
            forall|i: int|
                0 <= i < columns@.len() ==> (#[trigger] values@[i]).cells() == Seq::new(
                    rows,
                    |r: int| cells(r, columns@[i]),
                ),
            forall|i: int| 0 <= i < columns@.len() ==> (#[trigger] values@[i]).addressable(),
            forall|i: int| 0 <= i < columns@.len() ==> (#[trigger] values@[i]).in_key_order(),
            forall|i: int|
                0 <= i < columns@.len() ==> (#[trigger] values@[i]).representation()
                    == columns@[i].representation(),
            forall|i: int|
                0 <= i < index ==> array_kind(#[trigger] arrays@[i])
                    == columns@[i].representation(),
            forall|i: int|
                0 <= i < index ==> (#[trigger] fields@[i]).0@ == columns@[i].wire_name()
                    && fields@[i].1 == columns@[i].optional(),
            forall|i: int|
                0 <= i < index ==> array_cells(#[trigger] arrays@[i]) == Seq::new(
                    rows,
                    |r: int| cells(r, columns@[i]),
                ),
        decreases columns@.len() - index,
    {
        fields.push((columns[index].name(), columns[index].nullable()));
        arrays.push(column_array(&values[index]));
        index = index + 1;
    }
    proof {
        assert forall|i: int, r: int|
            0 <= i < arrays@.len() && 0 <= r < array_cells(arrays@[i]).len()
                && !fields@[i].1 implies !(#[trigger] array_cells(arrays@[i])[r] is Null) by {
            assert(fields@[i].1 == columns@[i].optional());
            assert(columns@.contains(columns@[i]));
            assert(!(cells(r, columns@[i]) is Null));
        }
    }
    let ghost names = fields@;
    let ghost built = arrays@;
    match arrow_batch(&fields, arrays) {
        Ok(batch) => {
            proof {
                let expected = Seq::new(
                    columns@.len(),
                    |i: int|
                        (
                            columns@[i].wire_name(),
                            columns@[i].representation(),
                            columns@[i].optional(),
                            Seq::new(rows, |r: int| cells(r, columns@[i])),
                        ),
                );
                assert forall|i: int| 0 <= i < columns@.len() implies #[trigger] batch_columns(
                    batch,
                )[i] == expected[i] by {
                    assert(names[i].0@ == columns@[i].wire_name());
                    assert(array_cells(built[i]) == Seq::new(rows, |r: int| cells(r, columns@[i])));
                    assert(array_kind(built[i]) == columns@[i].representation());
                    assert(names[i].1 == columns@[i].optional());
                }
                assert(batch_columns(batch) =~= expected);
            }
            Ok(batch)
        },
        Err(message) => Err(LokiApiError::internal(message.as_str())),
    }
}

/// UTF-8 bytes of the texts among some cells.
pub open spec fn cell_text_bytes(cells: Seq<Cell>) -> nat
    decreases cells.len(),
{
    if cells.len() == 0 {
        0
    } else {
        cell_text_bytes(cells.drop_last()) + (match cells.last() {
            Cell::Text(text) => encode_utf8(text).len(),
            _ => 0,
        })
    }
}

/// UTF-8 bytes of the keys, of the values and number of some pairs.
pub open spec fn listed_bytes(pairs: Seq<(Seq<char>, Seq<char>)>) -> (nat, nat, nat)
    decreases pairs.len(),
{
    if pairs.len() == 0 {
        (0, 0, 0)
    } else {
        let rest = listed_bytes(pairs.drop_last());
        (
            rest.0 + encode_utf8(pairs.last().0).len(),
            rest.1 + encode_utf8(pairs.last().1).len(),
            rest.2 + 1,
        )
    }
}

/// UTF-8 bytes of the keys, of the values and number of the pairs of the maps
/// among some cells.
pub open spec fn cell_map_bytes(cells: Seq<Cell>) -> (nat, nat, nat)
    decreases cells.len(),
{
    if cells.len() == 0 {
        (0, 0, 0)
    } else {
        let rest = cell_map_bytes(cells.drop_last());
        let last = match cells.last() {
            Cell::TextMap(map) => listed_bytes(sorted_pairs(map)),
            _ => (0, 0, 0),
        };
        (rest.0 + last.0, rest.1 + last.1, rest.2 + last.2)
    }
}

/// Whether the 32-bit offsets of Arrow can address the texts of some cells.
pub open spec fn cells_addressable(cells: Seq<Cell>) -> bool {
    let (keys, values, pairs) = cell_map_bytes(cells);
    cell_text_bytes(cells) <= i32::MAX && keys <= i32::MAX && values <= i32::MAX && pairs
        <= i32::MAX
}

proof fn lemma_no_texts(cells: Seq<Cell>)
    requires
        forall|i: int| 0 <= i < cells.len() ==> !(#[trigger] cells[i] is Text),
    ensures
        cell_text_bytes(cells) == 0,
    decreases cells.len(),
{
    if cells.len() > 0 {
        assert(!(cells[cells.len() - 1] is Text));
        assert forall|i: int| 0 <= i < cells.drop_last().len() implies !(
        #[trigger] cells.drop_last()[i] is Text) by {
            assert(!(cells[i] is Text));
        }
        lemma_no_texts(cells.drop_last());
    }
}

proof fn lemma_no_maps(cells: Seq<Cell>)
    requires
        forall|i: int| 0 <= i < cells.len() ==> !(#[trigger] cells[i] is TextMap),
    ensures
        cell_map_bytes(cells) == (0nat, 0nat, 0nat),
    decreases cells.len(),
{
    if cells.len() > 0 {
        assert(!(cells[cells.len() - 1] is TextMap));
        assert forall|i: int| 0 <= i < cells.drop_last().len() implies !(
        #[trigger] cells.drop_last()[i] is TextMap) by {
            assert(!(cells[i] is TextMap));
        }
        lemma_no_maps(cells.drop_last());
    }
}

proof fn lemma_text_cells(texts: Seq<Option<String>>)
    ensures
        cell_text_bytes(Seq::new(texts.len(), |i: int| text_cell(texts[i]))) == text_bytes(texts),
    decreases texts.len(),
{
    let cells = Seq::new(texts.len(), |i: int| text_cell(texts[i]));
    if texts.len() > 0 {
        lemma_text_cells(texts.drop_last());
        assert(cells.drop_last() =~= Seq::new(
            texts.drop_last().len(),
            |i: int| text_cell(texts.drop_last()[i]),
        ));
    }
}

proof fn lemma_listed_pairs(pairs: Seq<(String, String)>)
    ensures
        listed_bytes(pair_views(pairs)) == pair_bytes(pairs),
    decreases pairs.len(),
{
    if pairs.len() > 0 {
        lemma_listed_pairs(pairs.drop_last());
        assert(pair_views(pairs).drop_last() =~= pair_views(pairs.drop_last()));
        assert(pair_views(pairs).last() == pair_view(pairs.last()));
    }
}

proof fn lemma_map_cells(maps: Seq<Vec<(String, String)>>)
    requires
        forall|i: int| 0 <= i < maps.len() ==> increasing(pair_views((#[trigger] maps[i])@)),
    ensures
        cell_map_bytes(
            Seq::new(maps.len(), |i: int| Cell::TextMap(pairs_map(pair_views(maps[i]@)))),
        ) == map_bytes(maps),
    decreases maps.len(),
{
    let cells = Seq::new(maps.len(), |i: int| Cell::TextMap(pairs_map(pair_views(maps[i]@))));
    if maps.len() > 0 {
        let shorter = maps.drop_last();
        assert forall|i: int| 0 <= i < shorter.len() implies increasing(
            pair_views((#[trigger] shorter[i])@),
        ) by {
            assert(increasing(pair_views(maps[i]@)));
        }
        lemma_map_cells(shorter);
        assert(cells.drop_last() =~= Seq::new(
            shorter.len(),
            |i: int| Cell::TextMap(pairs_map(pair_views(shorter[i]@))),
        ));
        let last = pair_views(maps[maps.len() - 1]@);
        assert(increasing(last) && pairs_map(last) == pairs_map(last));
        map_has_one_order(last, sorted_pairs(pairs_map(last)));
        lemma_listed_pairs(maps.last()@);
    }
}

/// Whether a column is addressable is decided by its cells.
proof fn lemma_addressable(values: ColumnValues)
    requires
        values.in_key_order(),
    ensures
        values.addressable() == cells_addressable(values.cells()),
{
    let cells = values.cells();
    match values {
        ColumnValues::Text(texts) => {
            lemma_text_cells(texts@);
            lemma_no_maps(cells);
        },
        ColumnValues::TextMap(maps) => {
            lemma_map_cells(maps@);
            lemma_no_texts(cells);
        },
        _ => {
            lemma_no_texts(cells);
            lemma_no_maps(cells);
        },
    }
}

/// The cells of one column over several rows.
pub open spec fn column_cells(rows: Seq<AnalyticsRow>, column: AnalyticsColumn) -> Seq<Cell> {
    Seq::new(rows.len(), |i: int| rows[i].cell(column))
}

/// Whether Arrow can address the texts of every wanted column.
pub open spec fn rows_addressable(rows: Seq<AnalyticsRow>, columns: Seq<AnalyticsColumn>) -> bool {
    forall|i: int|
        0 <= i < columns.len() ==> cells_addressable(column_cells(rows, #[trigger] columns[i]))
}

/// Returns whether Arrow can address the texts of every wanted column.
pub fn fits_arrow(rows: &[AnalyticsRow], columns: &[AnalyticsColumn]) -> (fits: bool)
    ensures
        fits == rows_addressable(rows@, columns@),
{
    let mut index: usize = 0;
    while index < columns.len()
        invariant
            forall|i: int|
                0 <= i < index ==> cells_addressable(column_cells(rows@, #[trigger] columns@[i])),
        decreases columns@.len() - index,
    {
        let values = column_values(rows, columns[index]);
        proof {
            lemma_addressable(values);
            assert(values.cells() =~= column_cells(rows@, columns@[index as int]));
        }
        if !values.fits() {
            return false;
        }
        index = index + 1;
    }
    true
}

/// Builds an Arrow batch of rows.
pub fn record_batch(rows: &[AnalyticsRow], columns: &[AnalyticsColumn]) -> (result: Result<
    ArrowBatch,
    LokiApiError,
>)
    requires
        rows_addressable(rows@, columns@),
    ensures
        match result {
            Ok(batch) => columns@.len() > 0 && batch_shows(
                batch,
                columns@,
                rows@.len(),
                |r: int, column: AnalyticsColumn| rows@[r].cell(column),
            ),
            Err(error) => columns@.len() == 0 && error.kind == ApiErrorKind::Internal,
        },
{
    let ghost cells = |r: int, column: AnalyticsColumn| rows@[r].cell(column);
    let mut values: Vec<ColumnValues> = Vec::new();
    let mut index: usize = 0;
    while index < columns.len()
        invariant
            index <= columns@.len(),
            values@.len() == index,
            cells == |r: int, column: AnalyticsColumn| rows@[r].cell(column),
            rows_addressable(rows@, columns@),
            forall|i: int|
                0 <= i < index ==> (#[trigger] values@[i]).cells() == Seq::new(
                    rows@.len(),
                    |r: int| cells(r, columns@[i]),
                ) && values@[i].addressable() && values@[i].in_key_order()
                    && values@[i].representation() == columns@[i].representation(),
        decreases columns@.len() - index,
    {
        let column = columns[index];
        let gathered = column_values(rows, column);
        proof {
            lemma_addressable(gathered);
            assert(gathered.cells() =~= column_cells(rows@, columns@[index as int]));
            assert(gathered.cells() =~= Seq::new(
                rows@.len(),
                |r: int| cells(r, columns@[index as int]),
            ));
        }
        values.push(gathered);
        index = index + 1;
    }
    proof {
        assert forall|r: int, column: AnalyticsColumn|
            0 <= r < rows@.len() && !column.optional() && columns@.contains(column) implies !(
        #[trigger] cells(r, column) is Null) by {
            required_columns_have_values(rows@[r], column);
        }
    }
    batch_of_values(columns, &values, Ghost(rows@.len()), Ghost(cells))
}

/// A time that must be there.
fn required_time(value: u64) -> (result: Result<Option<i64>, LokiApiError>)
    ensures
        match result {
            Ok(time) => value <= i64::MAX && time == Some(value as i64),
            Err(error) => value > i64::MAX && time_out_of_range(error),
        },
{
    match timestamp_i64(value) {
        Ok(time) => Ok(Some(time)),
        Err(error) => Err(error),
    }
}

fn point_times(points: &[DurableMetricPoint]) -> (result: Result<Vec<Option<i64>>, LokiApiError>)
    ensures
        match result {
            Ok(values) => (forall|i: int|
                0 <= i < points@.len() ==> #[trigger] point_column_in_range(points@[i], AnalyticsColumn::Timestamp))
                && ColumnValues::Timestamp(values).cells() == Seq::new(
                points@.len(),
                |i: int| direct_point_cell(points@[i], AnalyticsColumn::Timestamp),
            ),
            Err(error) => time_out_of_range(error) && exists|i: int|
                0 <= i < points@.len() && !(#[trigger] point_column_in_range(points@[i], AnalyticsColumn::Timestamp)),
        },
{
    let mut values: Vec<Option<i64>> = Vec::new();
    let mut index: usize = 0;
    while index < points.len()
        invariant
            index <= points@.len(),
            values@.len() == index,
            forall|i: int|
                0 <= i < index ==> #[trigger] point_column_in_range(points@[i], AnalyticsColumn::Timestamp),
            forall|i: int|
                0 <= i < index ==> timestamp_cell(#[trigger] values@[i]) == direct_point_cell(
                    points@[i],
                    AnalyticsColumn::Timestamp,
                ),
        decreases points@.len() - index,
    {
        let point = &points[index];
        match required_time(point.timestamp_unix_nanos) {
            Ok(value) => {
                values.push(value);
            },
            Err(error) => {
                assert(!point_column_in_range(points@[index as int], AnalyticsColumn::Timestamp));
                return Err(error);
            },
        }
        index = index + 1;
    }
    assert(ColumnValues::Timestamp(values).cells() =~= Seq::new(
        points@.len(),
        |i: int| direct_point_cell(points@[i], AnalyticsColumn::Timestamp),
    ));
    Ok(values)
}

fn point_start_times(points: &[DurableMetricPoint]) -> (result: Result<Vec<Option<i64>>, LokiApiError>)
    ensures
        match result {
            Ok(values) => (forall|i: int|
                0 <= i < points@.len() ==> #[trigger] point_column_in_range(points@[i], AnalyticsColumn::StartTimestamp))
                && ColumnValues::Timestamp(values).cells() == Seq::new(
                points@.len(),
                |i: int| direct_point_cell(points@[i], AnalyticsColumn::StartTimestamp),
            ),
            Err(error) => time_out_of_range(error) && exists|i: int|
                0 <= i < points@.len() && !(#[trigger] point_column_in_range(points@[i], AnalyticsColumn::StartTimestamp)),
        },
{
    let mut values: Vec<Option<i64>> = Vec::new();
    let mut index: usize = 0;
    while index < points.len()
        invariant
            index <= points@.len(),
            values@.len() == index,
            forall|i: int|
                0 <= i < index ==> #[trigger] point_column_in_range(points@[i], AnalyticsColumn::StartTimestamp),
            forall|i: int|
                0 <= i < index ==> timestamp_cell(#[trigger] values@[i]) == direct_point_cell(
                    points@[i],
                    AnalyticsColumn::StartTimestamp,
                ),
        decreases points@.len() - index,
    {
        let point = &points[index];
        match nonzero_timestamp(point.start_time_unix_nanos) {
            Ok(value) => {
                values.push(value);
            },
            Err(error) => {
                assert(!point_column_in_range(points@[index as int], AnalyticsColumn::StartTimestamp));
                return Err(error);
            },
        }
        index = index + 1;
    }
    assert(ColumnValues::Timestamp(values).cells() =~= Seq::new(
        points@.len(),
        |i: int| direct_point_cell(points@[i], AnalyticsColumn::StartTimestamp),
    ));
    Ok(values)
}

fn point_partitions(points: &[DurableMetricPoint]) -> (values: Vec<Option<u32>>)
    ensures
        ColumnValues::UInt32(values).cells() == Seq::new(
            points@.len(),
            |i: int| direct_point_cell(points@[i], AnalyticsColumn::Partition),
        ),
{
    let mut values: Vec<Option<u32>> = Vec::new();
    let mut index: usize = 0;
    while index < points.len()
        invariant
            index <= points@.len(),
            values@.len() == index,
            forall|i: int|
                0 <= i < index ==> u32_cell(#[trigger] values@[i]) == direct_point_cell(
                    points@[i],
                    AnalyticsColumn::Partition,
                ),
        decreases points@.len() - index,
    {
        let point = &points[index];
        values.push(Some(point.record_ref.topic_partition.partition_id.get()));
        index = index + 1;
    }
    assert(ColumnValues::UInt32(values).cells() =~= Seq::new(
        points@.len(),
        |i: int| direct_point_cell(points@[i], AnalyticsColumn::Partition),
    ));
    values
}

fn point_offsets(points: &[DurableMetricPoint]) -> (values: Vec<Option<u64>>)
    ensures
        ColumnValues::UInt64(values).cells() == Seq::new(
            points@.len(),
            |i: int| direct_point_cell(points@[i], AnalyticsColumn::Offset),
        ),
{
    let mut values: Vec<Option<u64>> = Vec::new();
    let mut index: usize = 0;
    while index < points.len()
        invariant
            index <= points@.len(),
            values@.len() == index,
            forall|i: int|
                0 <= i < index ==> u64_cell(#[trigger] values@[i]) == direct_point_cell(
                    points@[i],
                    AnalyticsColumn::Offset,
                ),
        decreases points@.len() - index,
    {
        let point = &points[index];
        values.push(Some(point.record_ref.offset.get()));
        index = index + 1;
    }
    assert(ColumnValues::UInt64(values).cells() =~= Seq::new(
        points@.len(),
        |i: int| direct_point_cell(points@[i], AnalyticsColumn::Offset),
    ));
    values
}

fn point_names(points: &[DurableMetricPoint]) -> (values: Vec<Option<String>>)
    ensures
        ColumnValues::Text(values).cells() == Seq::new(
            points@.len(),
            |i: int| direct_point_cell(points@[i], AnalyticsColumn::Name),
        ),
{
    let mut values: Vec<Option<String>> = Vec::new();
    let mut index: usize = 0;
    while index < points.len()
        invariant
            index <= points@.len(),
            values@.len() == index,
            forall|i: int|
                0 <= i < index ==> text_cell(#[trigger] values@[i]) == direct_point_cell(
                    points@[i],
                    AnalyticsColumn::Name,
                ),
        decreases points@.len() - index,
    {
        let point = &points[index];
        values.push(Some(point.identity.name.clone()));
        index = index + 1;
    }
    assert(ColumnValues::Text(values).cells() =~= Seq::new(
        points@.len(),
        |i: int| direct_point_cell(points@[i], AnalyticsColumn::Name),
    ));
    values
}

fn point_integers(points: &[DurableMetricPoint]) -> (values: Vec<Option<i64>>)
    ensures
        ColumnValues::Int64(values).cells() == Seq::new(
            points@.len(),
            |i: int| direct_point_cell(points@[i], AnalyticsColumn::ScalarInteger),
        ),
{
    let mut values: Vec<Option<i64>> = Vec::new();
    let mut index: usize = 0;
    while index < points.len()
        invariant
            index <= points@.len(),
            values@.len() == index,
            forall|i: int|
                0 <= i < index ==> i64_cell(#[trigger] values@[i]) == direct_point_cell(
                    points@[i],
                    AnalyticsColumn::ScalarInteger,
                ),
        decreases points@.len() - index,
    {
        let point = &points[index];
        values.push(integer_of(&point.value));
        index = index + 1;
    }
    assert(ColumnValues::Int64(values).cells() =~= Seq::new(
        points@.len(),
        |i: int| direct_point_cell(points@[i], AnalyticsColumn::ScalarInteger),
    ));
    values
}

fn point_double_bits(points: &[DurableMetricPoint]) -> (values: Vec<Option<u64>>)
    ensures
        ColumnValues::UInt64(values).cells() == Seq::new(
            points@.len(),
            |i: int| direct_point_cell(points@[i], AnalyticsColumn::ScalarDoubleBits),
        ),
{
    let mut values: Vec<Option<u64>> = Vec::new();
    let mut index: usize = 0;
    while index < points.len()
        invariant
            index <= points@.len(),
            values@.len() == index,
            forall|i: int|
                0 <= i < index ==> u64_cell(#[trigger] values@[i]) == direct_point_cell(
                    points@[i],
                    AnalyticsColumn::ScalarDoubleBits,
                ),
        decreases points@.len() - index,
    {
        let point = &points[index];
        values.push(double_bits_of(&point.value));
        index = index + 1;
    }
    assert(ColumnValues::UInt64(values).cells() =~= Seq::new(
        points@.len(),
        |i: int| direct_point_cell(points@[i], AnalyticsColumn::ScalarDoubleBits),
    ));
    values
}

/// Gathers one directly encoded column of several points.
fn point_values(points: &[DurableMetricPoint], column: AnalyticsColumn) -> (result: Result<
    ColumnValues,
    LokiApiError,
>)
    requires
        direct_metric_column(column),
    ensures
        match result {
            Ok(values) => (forall|i: int|
                0 <= i < points@.len() ==> #[trigger] point_column_in_range(points@[i], column))
                && values.cells() == Seq::new(
                points@.len(),
                |i: int| direct_point_cell(points@[i], column),
            ) && values.in_key_order() && values.representation() == column.representation(),
            Err(error) => time_out_of_range(error) && exists|i: int|
                0 <= i < points@.len() && !(#[trigger] point_column_in_range(points@[i], column)),
        },
{
    match column {
        AnalyticsColumn::Timestamp => match point_times(points) {
            Ok(values) => Ok(ColumnValues::Timestamp(values)),
            Err(error) => Err(error),
        },
        AnalyticsColumn::StartTimestamp => match point_start_times(points) {
            Ok(values) => Ok(ColumnValues::Timestamp(values)),
            Err(error) => Err(error),
        },
        AnalyticsColumn::Partition => Ok(ColumnValues::UInt32(point_partitions(points))),
        AnalyticsColumn::Offset => Ok(ColumnValues::UInt64(point_offsets(points))),
        AnalyticsColumn::Name => Ok(ColumnValues::Text(point_names(points))),
        AnalyticsColumn::ScalarInteger => Ok(ColumnValues::Int64(point_integers(points))),
        _ => Ok(ColumnValues::UInt64(point_double_bits(points))),
    }
}

/// Whether Arrow can address the texts of every wanted column of several
/// points.
pub open spec fn points_addressable(points: Seq<DurableMetricPoint>, columns: Seq<AnalyticsColumn>) -> bool {
    forall|i: int|
        0 <= i < columns.len() ==> cells_addressable(
            Seq::new(points.len(), |r: int| direct_point_cell(points[r], #[trigger] columns[i])),
        )
}

/// Returns whether Arrow can address the texts of every wanted column of several
/// points.
pub fn points_fit_arrow(points: &[DurableMetricPoint], columns: &[AnalyticsColumn]) -> (fits: bool)
    requires
        forall|i: int| 0 <= i < columns@.len() ==> #[trigger] direct_metric_column(columns@[i]),
    ensures
        fits == points_addressable(points@, columns@),
{
    let mut index: usize = 0;
    while index < columns.len()
        invariant
            index <= columns@.len(),
            forall|i: int| 0 <= i < columns@.len() ==> #[trigger] direct_metric_column(columns@[i]),
            forall|i: int|
                0 <= i < index ==> cells_addressable(
                    Seq::new(
                        points@.len(),
                        |r: int| direct_point_cell(points@[r], #[trigger] columns@[i]),
                    ),
                ),
        decreases columns@.len() - index,
    {
        let ghost cells = Seq::new(
            points@.len(),
            |r: int| direct_point_cell(points@[r], columns@[index as int]),
        );
        assert(direct_metric_column(columns@[index as int]));
        match point_values(points, columns[index]) {
            Ok(values) => {
                proof {
                    lemma_addressable(values);
                    assert(values.cells() =~= cells);
                }
                if !values.fits() {
                    assert(!cells_addressable(cells));
                    return false;
                }
            },
            Err(_) => {
                proof {
                    let i = choose|i: int|
                        0 <= i < points@.len() && !(#[trigger] point_column_in_range(
                            points@[i],
                            columns@[index as int],
                        ));
                    assert(!point_column_in_range(points@[i], columns@[index as int]));
                    lemma_no_texts(cells);
                    lemma_no_maps(cells);
                }
            },
        }
        index = index + 1;
    }
    true
}

/// Builds an Arrow batch of points, where every wanted column can be encoded
/// directly.
pub fn direct_metric_record_batch(points: &[DurableMetricPoint], columns: &[AnalyticsColumn]) -> (result: Result<
    Option<ArrowBatch>,
    LokiApiError,
>)
    requires
        points_addressable(points@, columns@),
    ensures
        ({
            let direct = forall|i: int|
                0 <= i < columns@.len() ==> #[trigger] direct_metric_column(columns@[i]);
            match result {
                Ok(None) => !direct,
                Ok(Some(batch)) => direct && columns@.len() > 0 && points_in_range(
                    points@,
                    columns@,
                ) && batch_shows(
                    batch,
                    columns@,
                    points@.len(),
                    |r: int, column: AnalyticsColumn| direct_point_cell(points@[r], column),
                ),
                Err(error) => direct && (if columns@.len() == 0 {
                    error.kind == ApiErrorKind::Internal
                } else {
                    !points_in_range(points@, columns@) && time_out_of_range(error)
                }),
            }
        }),
{
    if !can_direct_metric_projection(columns) {
        return Ok(None);
    }
    let ghost cells = |r: int, column: AnalyticsColumn| direct_point_cell(points@[r], column);
    let mut values: Vec<ColumnValues> = Vec::new();
    let mut index: usize = 0;
    while index < columns.len()
        invariant
            index <= columns@.len(),
            values@.len() == index,
            cells == |r: int, column: AnalyticsColumn| direct_point_cell(points@[r], column),
            points_addressable(points@, columns@),
            forall|i: int| 0 <= i < columns@.len() ==> #[trigger] direct_metric_column(columns@[i]),
            forall|i: int, j: int|
                0 <= i < points@.len() && 0 <= j < index ==> #[trigger] point_column_in_range(
                    points@[i],
                    columns@[j],
                ),
            forall|i: int|
                0 <= i < index ==> (#[trigger] values@[i]).cells() == Seq::new(
                    points@.len(),
                    |r: int| cells(r, columns@[i]),
                ) && values@[i].addressable() && values@[i].in_key_order()
                    && values@[i].representation() == columns@[i].representation(),
        decreases columns@.len() - index,
    {
        assert(direct_metric_column(columns@[index as int]));
        match point_values(points, columns[index]) {
            Ok(gathered) => {
                proof {
                    lemma_addressable(gathered);
                    assert(gathered.cells() =~= Seq::new(
                        points@.len(),
                        |r: int| cells(r, columns@[index as int]),
                    ));
                    assert(gathered.cells() =~= Seq::new(
                        points@.len(),
                        |r: int| direct_point_cell(points@[r], columns@[index as int]),
                    ));
                }
                values.push(gathered);
            },
            Err(error) => {
                proof {
                    let i = choose|i: int|
                        0 <= i < points@.len() && !(#[trigger] point_column_in_range(
                            points@[i],
                            columns@[index as int],
                        ));
                    assert(!point_column_in_range(points@[i], columns@[index as int]));
                }
                return Err(error);
            },
        }
        index = index + 1;
    }
    proof {
        assert forall|r: int, column: AnalyticsColumn|
            0 <= r < points@.len() && !column.optional() && columns@.contains(column) implies !(
        #[trigger] cells(r, column) is Null) by {
            let i = choose|i: int| 0 <= i < columns@.len() && columns@[i] == column;
            assert(direct_metric_column(columns@[i]));
        }
    }
    match batch_of_values(columns, &values, Ghost(points@.len()), Ghost(cells)) {
        Ok(batch) => Ok(Some(batch)),
        Err(error) => Err(error),
    }
}

fn span_times(spans: &[DurableSpan]) -> (result: Result<Vec<Option<i64>>, LokiApiError>)
    ensures
        match result {
            Ok(values) => (forall|i: int|
                0 <= i < spans@.len() ==> #[trigger] span_column_in_range(spans@[i], AnalyticsColumn::Timestamp))
                && ColumnValues::Timestamp(values).cells() == Seq::new(
                spans@.len(),
                |i: int| direct_span_cell(spans@[i], AnalyticsColumn::Timestamp),
            ),
            Err(error) => time_out_of_range(error) && exists|i: int|
                0 <= i < spans@.len() && !(#[trigger] span_column_in_range(spans@[i], AnalyticsColumn::Timestamp)),
        },
{
    let mut values: Vec<Option<i64>> = Vec::new();
    let mut index: usize = 0;
    while index < spans.len()
        invariant
            index <= spans@.len(),
            values@.len() == index,
            forall|i: int|
                0 <= i < index ==> #[trigger] span_column_in_range(spans@[i], AnalyticsColumn::Timestamp),
            forall|i: int|
                0 <= i < index ==> timestamp_cell(#[trigger] values@[i]) == direct_span_cell(
                    spans@[i],
                    AnalyticsColumn::Timestamp,
                ),
        decreases spans@.len() - index,
    {
        let span = &spans[index];
        match required_time(span.start_time_unix_nanos) {
            Ok(value) => {
                values.push(value);
            },
            Err(error) => {
                assert(!span_column_in_range(spans@[index as int], AnalyticsColumn::Timestamp));
                return Err(error);
            },
        }
        index = index + 1;
    }
    assert(ColumnValues::Timestamp(values).cells() =~= Seq::new(
        spans@.len(),
        |i: int| direct_span_cell(spans@[i], AnalyticsColumn::Timestamp),
    ));
    Ok(values)
}

fn span_end_times(spans: &[DurableSpan]) -> (result: Result<Vec<Option<i64>>, LokiApiError>)
    ensures
        match result {
            Ok(values) => (forall|i: int|
                0 <= i < spans@.len() ==> #[trigger] span_column_in_range(spans@[i], AnalyticsColumn::EndTimestamp))
                && ColumnValues::Timestamp(values).cells() == Seq::new(
                spans@.len(),
                |i: int| direct_span_cell(spans@[i], AnalyticsColumn::EndTimestamp),
            ),
            Err(error) => time_out_of_range(error) && exists|i: int|
                0 <= i < spans@.len() && !(#[trigger] span_column_in_range(spans@[i], AnalyticsColumn::EndTimestamp)),
        },
{
    let mut values: Vec<Option<i64>> = Vec::new();
    let mut index: usize = 0;
    while index < spans.len()
        invariant
            index <= spans@.len(),
            values@.len() == index,
            forall|i: int|
                0 <= i < index ==> #[trigger] span_column_in_range(spans@[i], AnalyticsColumn::EndTimestamp),
            forall|i: int|
                0 <= i < index ==> timestamp_cell(#[trigger] values@[i]) == direct_span_cell(
                    spans@[i],
                    AnalyticsColumn::EndTimestamp,
                ),
        decreases spans@.len() - index,
    {
        let span = &spans[index];
        match end_timestamp(span) {
            Ok(value) => {
                values.push(value);
            },
            Err(error) => {
                assert(!span_column_in_range(spans@[index as int], AnalyticsColumn::EndTimestamp));
                return Err(error);
            },
        }
        index = index + 1;
    }
    assert(ColumnValues::Timestamp(values).cells() =~= Seq::new(
        spans@.len(),
        |i: int| direct_span_cell(spans@[i], AnalyticsColumn::EndTimestamp),
    ));
    Ok(values)
}

fn span_partitions(spans: &[DurableSpan]) -> (values: Vec<Option<u32>>)
    ensures
        ColumnValues::UInt32(values).cells() == Seq::new(
            spans@.len(),
            |i: int| direct_span_cell(spans@[i], AnalyticsColumn::Partition),
        ),
{
    let mut values: Vec<Option<u32>> = Vec::new();
    let mut index: usize = 0;
    while index < spans.len()
        invariant
            index <= spans@.len(),
            values@.len() == index,
            forall|i: int|
                0 <= i < index ==> u32_cell(#[trigger] values@[i]) == direct_span_cell(
                    spans@[i],
                    AnalyticsColumn::Partition,
                ),
        decreases spans@.len() - index,
    {
        let span = &spans[index];
        values.push(Some(span.record_ref.topic_partition.partition_id.get()));
        index = index + 1;
    }
    assert(ColumnValues::UInt32(values).cells() =~= Seq::new(
        spans@.len(),
        |i: int| direct_span_cell(spans@[i], AnalyticsColumn::Partition),
    ));
    values
}

fn span_offsets(spans: &[DurableSpan]) -> (values: Vec<Option<u64>>)
    ensures
        ColumnValues::UInt64(values).cells() == Seq::new(
            spans@.len(),
            |i: int| direct_span_cell(spans@[i], AnalyticsColumn::Offset),
        ),
{
    let mut values: Vec<Option<u64>> = Vec::new();
    let mut index: usize = 0;
    while index < spans.len()
        invariant
            index <= spans@.len(),
            values@.len() == index,
            forall|i: int|
                0 <= i < index ==> u64_cell(#[trigger] values@[i]) == direct_span_cell(
                    spans@[i],
                    AnalyticsColumn::Offset,
                ),
        decreases spans@.len() - index,
    {
        let span = &spans[index];
        values.push(Some(span.record_ref.offset.get()));
        index = index + 1;
    }
    assert(ColumnValues::UInt64(values).cells() =~= Seq::new(
        spans@.len(),
        |i: int| direct_span_cell(spans@[i], AnalyticsColumn::Offset),
    ));
    values
}

fn span_names(spans: &[DurableSpan]) -> (values: Vec<Option<String>>)
    ensures
        ColumnValues::Text(values).cells() == Seq::new(
            spans@.len(),
            |i: int| direct_span_cell(spans@[i], AnalyticsColumn::Name),
        ),
{
    let mut values: Vec<Option<String>> = Vec::new();
    let mut index: usize = 0;
    while index < spans.len()
        invariant
            index <= spans@.len(),
            values@.len() == index,
            forall|i: int|
                0 <= i < index ==> text_cell(#[trigger] values@[i]) == direct_span_cell(
                    spans@[i],
                    AnalyticsColumn::Name,
                ),
        decreases spans@.len() - index,
    {
        let span = &spans[index];
        values.push(Some(span.name.clone()));
        index = index + 1;
    }
    assert(ColumnValues::Text(values).cells() =~= Seq::new(
        spans@.len(),
        |i: int| direct_span_cell(spans@[i], AnalyticsColumn::Name),
    ));
    values
}

fn span_kinds(spans: &[DurableSpan]) -> (values: Vec<Option<i32>>)
    ensures
        ColumnValues::Int32(values).cells() == Seq::new(
            spans@.len(),
            |i: int| direct_span_cell(spans@[i], AnalyticsColumn::Kind),
        ),
{
    let mut values: Vec<Option<i32>> = Vec::new();
    let mut index: usize = 0;
    while index < spans.len()
        invariant
            index <= spans@.len(),
            values@.len() == index,
            forall|i: int|
                0 <= i < index ==> i32_cell(#[trigger] values@[i]) == direct_span_cell(
                    spans@[i],
                    AnalyticsColumn::Kind,
                ),
        decreases spans@.len() - index,
    {
        let span = &spans[index];
        values.push(Some(span.kind));
        index = index + 1;
    }
    assert(ColumnValues::Int32(values).cells() =~= Seq::new(
        spans@.len(),
        |i: int| direct_span_cell(spans@[i], AnalyticsColumn::Kind),
    ));
    values
}

fn span_durations(spans: &[DurableSpan]) -> (values: Vec<Option<u64>>)
    ensures
        ColumnValues::UInt64(values).cells() == Seq::new(
            spans@.len(),
            |i: int| direct_span_cell(spans@[i], AnalyticsColumn::DurationNanos),
        ),
{
    let mut values: Vec<Option<u64>> = Vec::new();
    let mut index: usize = 0;
    while index < spans.len()
        invariant
            index <= spans@.len(),
            values@.len() == index,
            forall|i: int|
                0 <= i < index ==> u64_cell(#[trigger] values@[i]) == direct_span_cell(
                    spans@[i],
                    AnalyticsColumn::DurationNanos,
                ),
        decreases spans@.len() - index,
    {
        let span = &spans[index];
        values.push(Some(span.duration_nanos));
        index = index + 1;
    }
    assert(ColumnValues::UInt64(values).cells() =~= Seq::new(
        spans@.len(),
        |i: int| direct_span_cell(spans@[i], AnalyticsColumn::DurationNanos),
    ));
    values
}

fn span_statuses(spans: &[DurableSpan]) -> (values: Vec<Option<i32>>)
    ensures
        ColumnValues::Int32(values).cells() == Seq::new(
            spans@.len(),
            |i: int| direct_span_cell(spans@[i], AnalyticsColumn::StatusCode),
        ),
{
    let mut values: Vec<Option<i32>> = Vec::new();
    let mut index: usize = 0;
    while index < spans.len()
        invariant
            index <= spans@.len(),
            values@.len() == index,
            forall|i: int|
                0 <= i < index ==> i32_cell(#[trigger] values@[i]) == direct_span_cell(
                    spans@[i],
                    AnalyticsColumn::StatusCode,
                ),
        decreases spans@.len() - index,
    {
        let span = &spans[index];
        values.push(span_status_code(span));
        index = index + 1;
    }
    assert(ColumnValues::Int32(values).cells() =~= Seq::new(
        spans@.len(),
        |i: int| direct_span_cell(spans@[i], AnalyticsColumn::StatusCode),
    ));
    values
}

/// Gathers one directly encoded column of several spans.
fn span_values(spans: &[DurableSpan], column: AnalyticsColumn) -> (result: Result<
    ColumnValues,
    LokiApiError,
>)
    requires
        direct_span_column(column),
    ensures
        match result {
            Ok(values) => (forall|i: int|
                0 <= i < spans@.len() ==> #[trigger] span_column_in_range(spans@[i], column))
                && values.cells() == Seq::new(
                spans@.len(),
                |i: int| direct_span_cell(spans@[i], column),
            ) && values.in_key_order() && values.representation() == column.representation(),
            Err(error) => time_out_of_range(error) && exists|i: int|
                0 <= i < spans@.len() && !(#[trigger] span_column_in_range(spans@[i], column)),
        },
{
    match column {
        AnalyticsColumn::Timestamp => match span_times(spans) {
            Ok(values) => Ok(ColumnValues::Timestamp(values)),
            Err(error) => Err(error),
        },
        AnalyticsColumn::EndTimestamp => match span_end_times(spans) {
            Ok(values) => Ok(ColumnValues::Timestamp(values)),
            Err(error) => Err(error),
        },
        AnalyticsColumn::Partition => Ok(ColumnValues::UInt32(span_partitions(spans))),
        AnalyticsColumn::Offset => Ok(ColumnValues::UInt64(span_offsets(spans))),
        AnalyticsColumn::Name => Ok(ColumnValues::Text(span_names(spans))),
        AnalyticsColumn::Kind => Ok(ColumnValues::Int32(span_kinds(spans))),
        AnalyticsColumn::DurationNanos => Ok(ColumnValues::UInt64(span_durations(spans))),
        _ => Ok(ColumnValues::Int32(span_statuses(spans))),
    }
}

/// Whether Arrow can address the texts of every wanted column of several
/// spans.
pub open spec fn spans_addressable(spans: Seq<DurableSpan>, columns: Seq<AnalyticsColumn>) -> bool {
    forall|i: int|
        0 <= i < columns.len() ==> cells_addressable(
            Seq::new(spans.len(), |r: int| direct_span_cell(spans[r], #[trigger] columns[i])),
        )
}

/// Returns whether Arrow can address the texts of every wanted column of several
/// spans.
pub fn spans_fit_arrow(spans: &[DurableSpan], columns: &[AnalyticsColumn]) -> (fits: bool)
    requires
        forall|i: int| 0 <= i < columns@.len() ==> #[trigger] direct_span_column(columns@[i]),
    ensures
        fits == spans_addressable(spans@, columns@),
{
    let mut index: usize = 0;
    while index < columns.len()
        invariant
            index <= columns@.len(),
            forall|i: int| 0 <= i < columns@.len() ==> #[trigger] direct_span_column(columns@[i]),
            forall|i: int|
                0 <= i < index ==> cells_addressable(
                    Seq::new(
                        spans@.len(),
                        |r: int| direct_span_cell(spans@[r], #[trigger] columns@[i]),
                    ),
                ),
        decreases columns@.len() - index,
    {
        let ghost cells = Seq::new(
            spans@.len(),
            |r: int| direct_span_cell(spans@[r], columns@[index as int]),
        );
        assert(direct_span_column(columns@[index as int]));
        match span_values(spans, columns[index]) {
            Ok(values) => {
                proof {
                    lemma_addressable(values);
                    assert(values.cells() =~= cells);
                }
                if !values.fits() {
                    assert(!cells_addressable(cells));
                    return false;
                }
            },
            Err(_) => {
                proof {
                    let i = choose|i: int|
                        0 <= i < spans@.len() && !(#[trigger] span_column_in_range(
                            spans@[i],
                            columns@[index as int],
                        ));
                    assert(!span_column_in_range(spans@[i], columns@[index as int]));
                    lemma_no_texts(cells);
                    lemma_no_maps(cells);
                }
            },
        }
        index = index + 1;
    }
    true
}

/// Builds an Arrow batch of spans, where every wanted column can be encoded
/// directly.
pub fn direct_span_record_batch(spans: &[DurableSpan], columns: &[AnalyticsColumn]) -> (result: Result<
    Option<ArrowBatch>,
    LokiApiError,
>)
    requires
        spans_addressable(spans@, columns@),
    ensures
        ({
            let direct = forall|i: int|
                0 <= i < columns@.len() ==> #[trigger] direct_span_column(columns@[i]);
            match result {
                Ok(None) => !direct,
                Ok(Some(batch)) => direct && columns@.len() > 0 && spans_in_range(
                    spans@,
                    columns@,
                ) && batch_shows(
                    batch,
                    columns@,
                    spans@.len(),
                    |r: int, column: AnalyticsColumn| direct_span_cell(spans@[r], column),
                ),
                Err(error) => direct && (if columns@.len() == 0 {
                    error.kind == ApiErrorKind::Internal
                } else {
                    !spans_in_range(spans@, columns@) && time_out_of_range(error)
                }),
            }
        }),
{
    if !can_direct_span_projection(columns) {
        return Ok(None);
    }
    let ghost cells = |r: int, column: AnalyticsColumn| direct_span_cell(spans@[r], column);
    let mut values: Vec<ColumnValues> = Vec::new();
    let mut index: usize = 0;
    while index < columns.len()
        invariant
            index <= columns@.len(),
            values@.len() == index,
            cells == |r: int, column: AnalyticsColumn| direct_span_cell(spans@[r], column),
            spans_addressable(spans@, columns@),
            forall|i: int| 0 <= i < columns@.len() ==> #[trigger] direct_span_column(columns@[i]),
            forall|i: int, j: int|
                0 <= i < spans@.len() && 0 <= j < index ==> #[trigger] span_column_in_range(
                    spans@[i],
                    columns@[j],
                ),
            forall|i: int|
                0 <= i < index ==> (#[trigger] values@[i]).cells() == Seq::new(
                    spans@.len(),
                    |r: int| cells(r, columns@[i]),
                ) && values@[i].addressable() && values@[i].in_key_order()
                    && values@[i].representation() == columns@[i].representation(),
        decreases columns@.len() - index,
    {
        assert(direct_span_column(columns@[index as int]));
        match span_values(spans, columns[index]) {
            Ok(gathered) => {
                proof {
                    lemma_addressable(gathered);
                    assert(gathered.cells() =~= Seq::new(
                        spans@.len(),
                        |r: int| cells(r, columns@[index as int]),
                    ));
                    assert(gathered.cells() =~= Seq::new(
                        spans@.len(),
                        |r: int| direct_span_cell(spans@[r], columns@[index as int]),
                    ));
                }
                values.push(gathered);
            },
            Err(error) => {
                proof {
                    let i = choose|i: int|
                        0 <= i < spans@.len() && !(#[trigger] span_column_in_range(
                            spans@[i],
                            columns@[index as int],
                        ));
                    assert(!span_column_in_range(spans@[i], columns@[index as int]));
                }
                return Err(error);
            },
        }
        index = index + 1;
    }
    proof {
        assert forall|r: int, column: AnalyticsColumn|
            0 <= r < spans@.len() && !column.optional() && columns@.contains(column) implies !(
        #[trigger] cells(r, column) is Null) by {
            let i = choose|i: int| 0 <= i < columns@.len() && columns@[i] == column;
            assert(direct_span_column(columns@[i]));
        }
    }
    match batch_of_values(columns, &values, Ghost(spans@.len()), Ghost(cells)) {
        Ok(batch) => Ok(Some(batch)),
        Err(error) => Err(error),
    }
}

/// A JSON value that a row can show.
#[derive(Debug, PartialEq, Eq)]
pub enum JsonCell {
    /// `null`.
    Null,
    /// A string.
    Text(String),
    /// A signed number.
    Signed(i64),
    /// An unsigned number.
    Unsigned(u64),
    /// `true` or `false`.
    Boolean(bool),
    /// An object of strings.
    Object(Vec<(String, String)>),
}

/// What a JSON value says.
#[verifier::ext_equal]
pub enum JsonView {
    /// `null`.
    Null,
    /// A string.
    Text(Seq<char>),
    /// A number.
    Number(int),
    /// `true` or `false`.
    Boolean(bool),
    /// An object of strings.
    Object(Map<Seq<char>, Seq<char>>),
}

/// What a JSON value says.
pub open spec fn json_view(cell: JsonCell) -> JsonView {
    match cell {
        JsonCell::Null => JsonView::Null,
        JsonCell::Text(text) => JsonView::Text(text@),
        JsonCell::Signed(number) => JsonView::Number(number as int),
        JsonCell::Unsigned(number) => JsonView::Number(number as int),
        JsonCell::Boolean(flag) => JsonView::Boolean(flag),
        JsonCell::Object(pairs) => JsonView::Object(pairs_map(pair_views(pairs@))),
    }
}

/// What a cell says in JSON.
pub open spec fn cell_json(cell: Cell) -> JsonView {
    match cell {
        Cell::Null => JsonView::Null,
        Cell::Text(text) => JsonView::Text(text),
        Cell::Timestamp(time) => JsonView::Number(time as int),
        Cell::UInt32(number) => JsonView::Number(number as int),
        Cell::UInt64(number) => JsonView::Number(number as int),
        Cell::Int32(number) => JsonView::Number(number as int),
        Cell::Int64(number) => JsonView::Number(number as int),
        Cell::Boolean(flag) => JsonView::Boolean(flag),
        Cell::TextMap(map) => JsonView::Object(map),
    }
}

/// The compact JSON text of an object with the given members.
pub uninterp spec fn json_object_text(members: Seq<(Seq<char>, JsonView)>) -> Seq<char>;

/// Calls `serde_json::Value`'s compact rendering of an object: its text depends
/// on nothing but the members.
#[verifier::external_body]
fn json_object(members: Vec<(&'static str, JsonCell)>) -> (text: String)
    ensures
        text@ == json_object_text(
            Seq::new(members@.len(), |i: int| (members@[i].0@, json_view(members@[i].1))),
        ),
{
    let mut object = serde_json::Map::new();
    for (name, cell) in members {
        let value = match cell {
            JsonCell::Null => serde_json::Value::Null,
            JsonCell::Text(text) => serde_json::Value::String(text),
            JsonCell::Signed(number) => serde_json::Value::from(number),
            JsonCell::Unsigned(number) => serde_json::Value::from(number),
            JsonCell::Boolean(flag) => serde_json::Value::Bool(flag),
            JsonCell::Object(pairs) => pairs.into_iter().collect(),
        };
        object.insert(name.to_owned(), value);
    }
    serde_json::Value::Object(object).to_string()
}

/// The JSON value of one column of a row.
fn json_column_value(row: &AnalyticsRow, column: AnalyticsColumn) -> (value: JsonCell)
    ensures
        json_view(value) == cell_json(row.cell(column)),
{
    match column.kind() {
        ColumnKind::Text => match string_value(row, column) {
            Some(text) => JsonCell::Text(text.to_owned()),
            None => JsonCell::Null,
        },
        ColumnKind::Timestamp => match timestamp_value(row, column) {
            Some(time) => JsonCell::Signed(time),
            None => JsonCell::Null,
        },
        ColumnKind::UInt32 => match u32_value(row, column) {
            Some(number) => JsonCell::Unsigned(number as u64),
            None => JsonCell::Null,
        },
        ColumnKind::UInt64 => match u64_value(row, column) {
            Some(number) => JsonCell::Unsigned(number),
            None => JsonCell::Null,
        },
        ColumnKind::Int32 => match i32_value(row, column) {
            Some(number) => JsonCell::Signed(number as i64),
            None => JsonCell::Null,
        },
        ColumnKind::Int64 => match i64_value(row, column) {
            Some(number) => JsonCell::Signed(number),
            None => JsonCell::Null,
        },
        ColumnKind::Boolean => match bool_value(row, column) {
            Some(flag) => JsonCell::Boolean(flag),
            None => JsonCell::Null,
        },
        ColumnKind::TextMap => JsonCell::Object(copy_pairs(map_value(row, column))),
    }
}

/// The members of the JSON object of a row.
pub open spec fn row_members(row: AnalyticsRow, columns: Seq<AnalyticsColumn>) -> Seq<
    (Seq<char>, JsonView),
> {
    Seq::new(
        columns.len(),
        |i: int| (columns[i].wire_name(), cell_json(row.cell(columns[i]))),
    )
}

/// Appends the requested columns of a row as one line of JSON.
pub fn write_jsonlines_row(output: &mut Vec<u8>, row: &AnalyticsRow, columns: &[AnalyticsColumn])
    ensures
        final(output)@ == old(output)@ + encode_utf8(
            json_object_text(row_members(*row, columns@)),
        ).push(0x0a),
{
    let mut members: Vec<(&'static str, JsonCell)> = Vec::new();
    let mut index: usize = 0;
    while index < columns.len()
        invariant
            index <= columns@.len(),
            members@.len() == index,
            forall|i: int|
                0 <= i < index ==> (#[trigger] members@[i]).0@ == columns@[i].wire_name()
                    && json_view(members@[i].1) == cell_json(row.cell(columns@[i])),
        decreases columns@.len() - index,
    {
        members.push((columns[index].name(), json_column_value(row, columns[index])));
        index = index + 1;
    }
    assert(Seq::new(members@.len(), |i: int| (members@[i].0@, json_view(members@[i].1)))
        =~= row_members(*row, columns@));
    let text = json_object(members);
    crate::wire::push_bytes(output, text.as_str().as_bytes());
    output.push(0x0a);
    assert(output@ =~= old(output)@ + encode_utf8(
        json_object_text(row_members(*row, columns@)),
    ).push(0x0a));
}

} // verus!
