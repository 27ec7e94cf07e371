//! Analytical rows of durable records.

use vstd::prelude::*;

use crate::analytics_columns::AnalyticsColumn;
use crate::analytics_row::{
    base_cell, blank, names_column, nonzero_timestamp, optional_time, text_cell, timestamp_cell,
    wants, AnalyticsRow, Cell,
};
use crate::attributes::{attribute_identity, TelemetryAttribute, TelemetryValue};
use crate::error::{ApiErrorKind, LokiApiError};
use crate::records::{hex_text, DurableLog, MetadataField, MetricKind};
use crate::string_map::{pair_view, pair_views, pairs_map, StringMap};
use crate::text::{
    decimal, has_prefix, hex_fixed, push_decimal, push_hex, push_signed, signed_decimal,
    strip_prefix,
};

verus! {

/// Texts of one record that come from a JSON writer or a number formatter.
#[derive(Debug, PartialEq, Eq)]
pub struct Rendered {
    /// Text of each record attribute whose value is a double or is nested.
    pub attributes: Vec<String>,
    /// Text of each resource attribute whose value is a double or is nested.
    pub resource_attributes: Vec<String>,
    /// Text of each scope attribute whose value is a double or is nested.
    pub scope_attributes: Vec<String>,
    /// Text of each metadata attribute whose value is a double or is nested.
    pub metadata: Vec<String>,
    /// Labels of a metric series, later ones winning.
    pub labels: Vec<(String, String)>,
    /// Body of a log as JSON.
    pub body_json: Option<String>,
    /// Record attributes as JSON.
    pub attributes_json: Option<String>,
    /// Resource attributes as JSON.
    pub resource_attributes_json: Option<String>,
    /// Scope attributes as JSON.
    pub scope_attributes_json: Option<String>,
    /// Span events as JSON.
    pub events_json: Option<String>,
    /// Span links as JSON.
    pub links_json: Option<String>,
    /// Metric value as JSON.
    pub value_json: Option<String>,
    /// Metric exemplars as JSON.
    pub exemplars_json: Option<String>,
}

impl Rendered {
    /// No texts.
    pub fn new() -> (rendered: Self)
        ensures
            rendered.attributes@ == Seq::<String>::empty(),
            rendered.resource_attributes@ == Seq::<String>::empty(),
            rendered.scope_attributes@ == Seq::<String>::empty(),
            rendered.metadata@ == Seq::<String>::empty(),
            rendered.labels@ == Seq::<(String, String)>::empty(),
            rendered.body_json is None,
            rendered.attributes_json is None,
            rendered.resource_attributes_json is None,
            rendered.scope_attributes_json is None,
            rendered.events_json is None,
            rendered.links_json is None,
            rendered.value_json is None,
            rendered.exemplars_json is None,
    {
        Self {
            attributes: Vec::new(),
            resource_attributes: Vec::new(),
            scope_attributes: Vec::new(),
            metadata: Vec::new(),
            labels: Vec::new(),
            body_json: None,
            attributes_json: None,
            resource_attributes_json: None,
            scope_attributes_json: None,
            events_json: None,
            links_json: None,
            value_json: None,
            exemplars_json: None,
        }
    }
}

/// The two-digit hexadecimal form of each byte.
pub open spec fn bytes_hex(bytes: Seq<u8>) -> Seq<char>
    decreases bytes.len(),
{
    if bytes.len() == 0 {
        Seq::empty()
    } else {
        bytes_hex(bytes.drop_last()) + hex_fixed(bytes.last() as nat, 2)
    }
}

/// The text of a value; doubles and nested values are rendered as `text`.
pub open spec fn value_text(value: TelemetryValue, text: Seq<char>) -> Seq<char> {
    match value {
        TelemetryValue::Empty => Seq::empty(),
        TelemetryValue::String(found) => found@,
        TelemetryValue::Boolean(flag) => if flag {
            "true"@
        } else {
            "false"@
        },
        TelemetryValue::Integer(number) => signed_decimal(number as int),
        TelemetryValue::DoubleBits(_) => text,
        TelemetryValue::Bytes(bytes) => bytes_hex(bytes@),
        TelemetryValue::StringTableIndex(index) => decimal(index as nat),
        TelemetryValue::Array(_) => text,
        TelemetryValue::KeyValues(_) => text,
    }
}

/// Renders a value.
pub fn render_value(value: &TelemetryValue, text: &str) -> (rendered: String)
    ensures
        rendered@ == value_text(*value, text@),
{
    match value {
        TelemetryValue::Empty => String::new(),
        TelemetryValue::String(found) => found.clone(),
        TelemetryValue::Boolean(flag) => if *flag {
            "true".to_owned()
        } else {
            "false".to_owned()
        },
        TelemetryValue::Integer(number) => {
            let mut rendered = String::new();
            push_signed(&mut rendered, *number);
            assert(rendered@ =~= signed_decimal(*number as int));
            rendered
        },
        TelemetryValue::Bytes(bytes) => {
            let mut rendered = String::new();
            let mut index: usize = 0;
            assert(bytes@.take(0) =~= Seq::<u8>::empty());
            while index < bytes.len()
                invariant
                    index <= bytes@.len(),
                    rendered@ == bytes_hex(bytes@.take(index as int)),
                decreases bytes@.len() - index,
            {
                push_hex(&mut rendered, bytes[index] as u128, 2);
                proof {
                    let longer = bytes@.take(index + 1);
                    assert(longer.drop_last() =~= bytes@.take(index as int));
                }
                index = index + 1;
            }
            assert(bytes@.take(index as int) =~= bytes@);
            rendered
        },
        TelemetryValue::StringTableIndex(index) => {
            let mut rendered = String::new();
            push_decimal(&mut rendered, *index as u128);
            assert(rendered@ =~= decimal(*index as nat));
            rendered
        },
        _ => text.to_owned(),
    }
}

/// The text at a position, empty where there is none.
pub open spec fn text_at(texts: Seq<String>, index: int) -> Seq<char> {
    if 0 <= index < texts.len() {
        texts[index]@
    } else {
        Seq::empty()
    }
}

/// Valued attributes by key, later ones winning.
pub open spec fn attributes_by_key(
    attributes: Seq<TelemetryAttribute>,
    texts: Seq<String>,
) -> Map<Seq<char>, Seq<char>>
    decreases attributes.len(),
{
    if attributes.len() == 0 {
        Map::empty()
    } else {
        let rest = attributes_by_key(attributes.drop_last(), texts);
        match attributes.last().value {
            Some(value) => rest.insert(
                attributes.last().key@,
                value_text(value, text_at(texts, attributes.len() - 1)),
            ),
            None => rest,
        }
    }
}

/// Collects valued attributes by key.
pub fn attribute_map(attributes: &[TelemetryAttribute], texts: &[String]) -> (map: StringMap)
    ensures
        map@ == attributes_by_key(attributes@, texts@),
{
    let mut map = StringMap::new();
    let mut index: usize = 0;
    assert(attributes@.take(0) =~= Seq::<TelemetryAttribute>::empty());
    while index < attributes.len()
        invariant
            index <= attributes@.len(),
            map@ == attributes_by_key(attributes@.take(index as int), texts@),
        decreases attributes@.len() - index,
    {
        proof {
            let longer = attributes@.take(index + 1);
            assert(longer.drop_last() =~= attributes@.take(index as int));
        }
        if let Some(value) = &attributes[index].value {
            let text = if index < texts.len() {
                render_value(value, texts[index].as_str())
            } else {
                proof {
                    reveal_strlit("");
                    assert(""@ =~= Seq::<char>::empty());
                }
                render_value(value, "")
            };
            map.insert(attributes[index].key.clone(), text);
        }
        index = index + 1;
    }
    assert(attributes@.take(index as int) =~= attributes@);
    map
}

/// Identities of attributes by key, later ones winning.
pub open spec fn ids_by_key(attributes: Seq<TelemetryAttribute>) -> Map<Seq<char>, Seq<char>>
    decreases attributes.len(),
{
    if attributes.len() == 0 {
        Map::empty()
    } else {
        ids_by_key(attributes.drop_last()).insert(
            attributes.last().key@,
            hex_fixed(attribute_identity(attributes.last()).0 as nat, 32),
        )
    }
}

/// Collects the identities of attributes by key.
pub fn attribute_ids(attributes: &[TelemetryAttribute]) -> (map: StringMap)
    ensures
        map@ == ids_by_key(attributes@),
{
    let mut map = StringMap::new();
    let mut index: usize = 0;
    assert(attributes@.take(0) =~= Seq::<TelemetryAttribute>::empty());
    while index < attributes.len()
        invariant
            index <= attributes@.len(),
            map@ == ids_by_key(attributes@.take(index as int)),
        decreases attributes@.len() - index,
    {
        proof {
            let longer = attributes@.take(index + 1);
            assert(longer.drop_last() =~= attributes@.take(index as int));
        }
        map.insert(
            attributes[index].key.clone(),
            hex_text(attributes[index].fingerprint().get(), 32),
        );
        index = index + 1;
    }
    assert(attributes@.take(index as int) =~= attributes@);
    map
}

/// Fields whose names begin with `prefix`, by the rest of their names.
pub open spec fn fields_below(fields: Seq<MetadataField>, prefix: Seq<char>) -> Map<
    Seq<char>,
    Seq<char>,
>
    decreases fields.len(),
{
    if fields.len() == 0 {
        Map::empty()
    } else {
        let rest = fields_below(fields.drop_last(), prefix);
        if has_prefix(fields.last().key@, prefix) {
            rest.insert(fields.last().key@.skip(prefix.len() as int), fields.last().value@)
        } else {
            rest
        }
    }
}

/// Collects fields whose names begin with `prefix`.
pub fn prefixed_fields(fields: &[MetadataField], prefix: &str) -> (map: StringMap)
    ensures
        map@ == fields_below(fields@, prefix@),
{
    let mut map = StringMap::new();
    let mut index: usize = 0;
    assert(fields@.take(0) =~= Seq::<MetadataField>::empty());
    while index < fields.len()
        invariant
            index <= fields@.len(),
            map@ == fields_below(fields@.take(index as int), prefix@),
        decreases fields@.len() - index,
    {
        proof {
            let longer = fields@.take(index + 1);
            assert(longer.drop_last() =~= fields@.take(index as int));
        }
        if let Some(name) = strip_prefix(fields[index].key.as_str(), prefix) {
            map.insert(name, fields[index].value.clone());
        }
        index = index + 1;
    }
    assert(fields@.take(index as int) =~= fields@);
    map
}

/// Collects pairs, later ones winning.
pub(crate) fn collect_pairs(pairs: &[(String, String)]) -> (map: StringMap)
    ensures
        map@ == pairs_map(pair_views(pairs@)),
{
    let ghost all = pair_views(pairs@);
    let mut map = StringMap::new();
    let mut index: usize = 0;
    assert(all.take(0) =~= Seq::<(Seq<char>, Seq<char>)>::empty());
    while index < pairs.len()
        invariant
            index <= pairs@.len(),
            all == pair_views(pairs@),
            map@ == pairs_map(all.take(index as int)),
        decreases pairs@.len() - index,
    {
        proof {
            let longer = all.take(index + 1);
            assert(longer.drop_last() =~= all.take(index as int));
            assert(longer.last() == pair_view(pairs@[index as int]));
        }
        map.insert(pairs[index].0.clone(), pairs[index].1.clone());
        index = index + 1;
    }
    assert(all.take(index as int) =~= all);
    map
}

/// Copies optional text.
pub(crate) fn copy_text(text: &Option<String>) -> (copy: Option<String>)
    ensures
        text_cell(copy) == text_cell(*text),
{
    match text {
        Some(found) => Some(found.clone()),
        None => None,
    }
}

/// Whether a column is filled in every row.
pub open spec fn always_shown(column: AnalyticsColumn) -> bool {
    match column {
        AnalyticsColumn::Tenant => true,
        AnalyticsColumn::Signal => true,
        AnalyticsColumn::Timestamp => true,
        AnalyticsColumn::Partition => true,
        AnalyticsColumn::Offset => true,
        _ => false,
    }
}

/// Whether a projected row fills a column.
pub open spec fn shown(columns: Seq<AnalyticsColumn>, column: AnalyticsColumn) -> bool {
    always_shown(column) || names_column(columns, column)
}

/// An identity as thirty-two hexadecimal digits.
pub open spec fn id_cell(id: u128) -> Cell {
    Cell::Text(hex_fixed(id as nat, 32))
}

/// Whether a result is the failure to represent a time.
pub open spec fn time_out_of_range(error: LokiApiError) -> bool {
    error.says(ApiErrorKind::Internal, "timestamp exceeds ClickHouse i64 range"@)
}

/// The cells that attributes fill, or the cell before.
pub open spec fn record_attributes_cell(
    before: Cell,
    attributes: Seq<TelemetryAttribute>,
    texts: Seq<String>,
    json: Option<String>,
    column: AnalyticsColumn,
) -> Cell {
    match column {
        AnalyticsColumn::Attributes => Cell::TextMap(attributes_by_key(attributes, texts)),
        AnalyticsColumn::AttributeIds => Cell::TextMap(ids_by_key(attributes)),
        AnalyticsColumn::AttributesJson => text_cell(json),
        _ => before,
    }
}

/// The cells that the attributes of both contexts fill, or the cell before.
pub open spec fn context_attributes_cell(
    before: Cell,
    resource: Seq<TelemetryAttribute>,
    scope: Seq<TelemetryAttribute>,
    rendered: Rendered,
    column: AnalyticsColumn,
) -> Cell {
    match column {
        AnalyticsColumn::ResourceAttributes => Cell::TextMap(
            attributes_by_key(resource, rendered.resource_attributes@),
        ),
        AnalyticsColumn::ScopeAttributes => Cell::TextMap(
            attributes_by_key(scope, rendered.scope_attributes@),
        ),
        AnalyticsColumn::ResourceAttributeIds => Cell::TextMap(ids_by_key(resource)),
        AnalyticsColumn::ScopeAttributeIds => Cell::TextMap(ids_by_key(scope)),
        AnalyticsColumn::ResourceAttributesJson => text_cell(rendered.resource_attributes_json),
        AnalyticsColumn::ScopeAttributesJson => text_cell(rendered.scope_attributes_json),
        _ => before,
    }
}

/// Fills the columns of record attributes.
pub(crate) fn set_record_attributes(
    row: &mut AnalyticsRow,
    attributes: &[TelemetryAttribute],
    texts: &[String],
    json: &Option<String>,
)
    ensures
        *final(row) == (AnalyticsRow {
            attributes: final(row).attributes,
            attribute_ids: final(row).attribute_ids,
            attributes_json: final(row).attributes_json,
            ..*old(row)
        }),
        final(row).attributes@ == attributes_by_key(attributes@, texts@),
        final(row).attribute_ids@ == ids_by_key(attributes@),
        text_cell(final(row).attributes_json) == text_cell(*json),
{
    row.attributes = attribute_map(attributes, texts);
    row.attribute_ids = attribute_ids(attributes);
    row.attributes_json = copy_text(json);
}

/// Fills the columns of the attributes of both contexts.
pub(crate) fn set_context_attributes(
    row: &mut AnalyticsRow,
    resource: &[TelemetryAttribute],
    scope: &[TelemetryAttribute],
    rendered: &Rendered,
)
    ensures
        *final(row) == (AnalyticsRow {
            resource_attributes: final(row).resource_attributes,
            scope_attributes: final(row).scope_attributes,
            resource_attribute_ids: final(row).resource_attribute_ids,
            scope_attribute_ids: final(row).scope_attribute_ids,
            resource_attributes_json: final(row).resource_attributes_json,
            scope_attributes_json: final(row).scope_attributes_json,
            ..*old(row)
        }),
        final(row).resource_attributes@ == attributes_by_key(
            resource@,
            rendered.resource_attributes@,
        ),
        final(row).scope_attributes@ == attributes_by_key(scope@, rendered.scope_attributes@),
        final(row).resource_attribute_ids@ == ids_by_key(resource@),
        final(row).scope_attribute_ids@ == ids_by_key(scope@),
        text_cell(final(row).resource_attributes_json) == text_cell(
            rendered.resource_attributes_json,
        ),
        text_cell(final(row).scope_attributes_json) == text_cell(rendered.scope_attributes_json),
{
    row.resource_attributes = attribute_map(resource, rendered.resource_attributes.as_slice());
    row.scope_attributes = attribute_map(scope, rendered.scope_attributes.as_slice());
    row.resource_attribute_ids = attribute_ids(resource);
    row.scope_attribute_ids = attribute_ids(scope);
    row.resource_attributes_json = copy_text(&rendered.resource_attributes_json);
    row.scope_attributes_json = copy_text(&rendered.scope_attributes_json);
}

/// All cells that attributes fill, or the cell before.
pub open spec fn attributes_cell(
    before: Cell,
    attributes: Seq<TelemetryAttribute>,
    resource: Seq<TelemetryAttribute>,
    scope: Seq<TelemetryAttribute>,
    rendered: Rendered,
    column: AnalyticsColumn,
) -> Cell {
    context_attributes_cell(
        record_attributes_cell(
            before,
            attributes,
            rendered.attributes@,
            rendered.attributes_json,
            column,
        ),
        resource,
        scope,
        rendered,
        column,
    )
}

/// Fills the attribute columns that a projection names and clears the others.
pub(crate) fn populate_projected_attributes(
    row: &mut AnalyticsRow,
    columns: &[AnalyticsColumn],
    attributes: &[TelemetryAttribute],
    resource: &[TelemetryAttribute],
    scope: &[TelemetryAttribute],
    rendered: &Rendered,
)
    ensures
        *final(row) == (AnalyticsRow {
            attributes: final(row).attributes,
            resource_attributes: final(row).resource_attributes,
            scope_attributes: final(row).scope_attributes,
            attribute_ids: final(row).attribute_ids,
            resource_attribute_ids: final(row).resource_attribute_ids,
            scope_attribute_ids: final(row).scope_attribute_ids,
            attributes_json: final(row).attributes_json,
            resource_attributes_json: final(row).resource_attributes_json,
            scope_attributes_json: final(row).scope_attributes_json,
            ..*old(row)
        }),
        final(row).attributes@ == (if names_column(columns@, AnalyticsColumn::Attributes) {
            attributes_by_key(attributes@, rendered.attributes@)
        } else {
            Map::<Seq<char>, Seq<char>>::empty()
        }),
        final(row).resource_attributes@ == (if names_column(columns@, AnalyticsColumn::ResourceAttributes) {
            attributes_by_key(resource@, rendered.resource_attributes@)
        } else {
            Map::<Seq<char>, Seq<char>>::empty()
        }),
        final(row).scope_attributes@ == (if names_column(columns@, AnalyticsColumn::ScopeAttributes) {
            attributes_by_key(scope@, rendered.scope_attributes@)
        } else {
            Map::<Seq<char>, Seq<char>>::empty()
        }),
        final(row).attribute_ids@ == (if names_column(columns@, AnalyticsColumn::AttributeIds) {
            ids_by_key(attributes@)
        } else {
            Map::<Seq<char>, Seq<char>>::empty()
        }),
        final(row).resource_attribute_ids@ == (if names_column(columns@, AnalyticsColumn::ResourceAttributeIds) {
            ids_by_key(resource@)
        } else {
            Map::<Seq<char>, Seq<char>>::empty()
        }),
        final(row).scope_attribute_ids@ == (if names_column(columns@, AnalyticsColumn::ScopeAttributeIds) {
            ids_by_key(scope@)
        } else {
            Map::<Seq<char>, Seq<char>>::empty()
        }),
        text_cell(final(row).attributes_json) == (if names_column(columns@, AnalyticsColumn::AttributesJson) {
            text_cell(rendered.attributes_json)
        } else {
            Cell::Null
        }),
        text_cell(final(row).resource_attributes_json) == (if names_column(columns@, AnalyticsColumn::ResourceAttributesJson) {
            text_cell(rendered.resource_attributes_json)
        } else {
            Cell::Null
        }),
        text_cell(final(row).scope_attributes_json) == (if names_column(columns@, AnalyticsColumn::ScopeAttributesJson) {
            text_cell(rendered.scope_attributes_json)
        } else {
            Cell::Null
        }),
{
    row.attributes = if wants(columns, AnalyticsColumn::Attributes) {
        attribute_map(attributes, rendered.attributes.as_slice())
    } else {
        StringMap::new()
    };
    row.resource_attributes = if wants(columns, AnalyticsColumn::ResourceAttributes) {
        attribute_map(resource, rendered.resource_attributes.as_slice())
    } else {
        StringMap::new()
    };
    row.scope_attributes = if wants(columns, AnalyticsColumn::ScopeAttributes) {
        attribute_map(scope, rendered.scope_attributes.as_slice())
    } else {
        StringMap::new()
    };
    row.attribute_ids = if wants(columns, AnalyticsColumn::AttributeIds) {
        attribute_ids(attributes)
    } else {
        StringMap::new()
    };
    row.resource_attribute_ids = if wants(columns, AnalyticsColumn::ResourceAttributeIds) {
        attribute_ids(resource)
    } else {
        StringMap::new()
    };
    row.scope_attribute_ids = if wants(columns, AnalyticsColumn::ScopeAttributeIds) {
        attribute_ids(scope)
    } else {
        StringMap::new()
    };
    row.attributes_json = if wants(columns, AnalyticsColumn::AttributesJson) {
        copy_text(&rendered.attributes_json)
    } else {
        None
    };
    row.resource_attributes_json = if wants(columns, AnalyticsColumn::ResourceAttributesJson) {
        copy_text(&rendered.resource_attributes_json)
    } else {
        None
    };
    row.scope_attributes_json = if wants(columns, AnalyticsColumn::ScopeAttributesJson) {
        copy_text(&rendered.scope_attributes_json)
    } else {
        None
    };
}

/// The cell of a log.
pub open spec fn log_cell(
    tenant: Seq<char>,
    log: DurableLog,
    labels: Map<Seq<char>, Seq<char>>,
    metadata: Map<Seq<char>, Seq<char>>,
    rendered: Rendered,
    column: AnalyticsColumn,
) -> Cell {
    let own = match column {
        AnalyticsColumn::ObservedTimestamp => timestamp_cell(
            optional_time(log.observed_timestamp_unix_nanos),
        ),
        AnalyticsColumn::ResourceId => id_cell(log.resource.identity().0),
        AnalyticsColumn::ScopeId => id_cell(log.scope.identity().0),
        AnalyticsColumn::TraceId => match log.trace_id {
            Some(id) => id_cell(id.0),
            None => Cell::Null,
        },
        AnalyticsColumn::SpanId => match log.span_id {
            Some(id) => Cell::Text(hex_fixed(id.0 as nat, 16)),
            None => Cell::Null,
        },
        AnalyticsColumn::Message => Cell::Text(log.message@),
        AnalyticsColumn::BodyJson => text_cell(rendered.body_json),
        AnalyticsColumn::EventName => Cell::Text(log.event_name@),
        AnalyticsColumn::SeverityNumber => Cell::Int32(log.severity_number),
        AnalyticsColumn::SeverityText => Cell::Text(log.severity_text@),
        AnalyticsColumn::Flags => Cell::UInt32(log.flags),
        AnalyticsColumn::DroppedAttributesCount => Cell::UInt32(log.dropped_attributes_count),
        AnalyticsColumn::Labels => Cell::TextMap(labels),
        AnalyticsColumn::Metadata => Cell::TextMap(metadata),
        _ => base_cell(
            tenant,
            "logs"@,
            log.timestamp_unix_nanos,
            log.record_ref.topic_partition.partition_id.0,
            log.record_ref.offset.0,
            column,
        ),
    };
    attributes_cell(
        own,
        log.attributes@,
        log.resource.attributes@,
        log.scope.attributes@,
        rendered,
        column,
    )
}

/// Builds the complete row of a log.
pub fn log_row(
    tenant: &str,
    record: &DurableLog,
    labels: StringMap,
    metadata: StringMap,
    rendered: &Rendered,
) -> (result: Result<AnalyticsRow, LokiApiError>)
    ensures
        match result {
            Ok(row) => {
                &&& record.timestamp_unix_nanos <= i64::MAX
                &&& record.observed_timestamp_unix_nanos <= i64::MAX
                &&& forall|column: AnalyticsColumn| #[trigger]
                    row.cell(column) == log_cell(
                        tenant@,
                        *record,
                        labels@,
                        metadata@,
                        *rendered,
                        column,
                    )
            },
            Err(error) => (record.timestamp_unix_nanos > i64::MAX
                || record.observed_timestamp_unix_nanos > i64::MAX) && time_out_of_range(error),
        },
{
    let mut row = match AnalyticsRow::empty(
        tenant,
        "logs",
        record.timestamp_unix_nanos,
        record.record_ref.topic_partition.partition_id.get(),
        record.record_ref.offset.get(),
    ) {
        Ok(row) => row,
        Err(error) => {
            return Err(error);
        },
    };
    row.observed_timestamp_unix_nanos = match nonzero_timestamp(
        record.observed_timestamp_unix_nanos,
    ) {
        Ok(time) => time,
        Err(error) => {
            return Err(error);
        },
    };
    row.resource_id = Some(hex_text(record.resource_id().0, 32));
    row.scope_id = Some(hex_text(record.scope_id().0, 32));
    row.trace_id = match record.trace_id {
        Some(id) => Some(id.text()),
        None => None,
    };
    row.span_id = match record.span_id {
        Some(id) => Some(id.text()),
        None => None,
    };
    row.message = Some(record.message.clone());
    row.body_json = copy_text(&rendered.body_json);
    row.event_name = Some(record.event_name.clone());
    row.severity_number = Some(record.severity_number);
    row.severity_text = Some(record.severity_text.clone());
    row.flags = Some(record.flags);
    row.dropped_attributes_count = Some(record.dropped_attributes_count);
    row.labels = labels;
    row.metadata = metadata;
    set_record_attributes(
        &mut row,
        record.attributes.as_slice(),
        rendered.attributes.as_slice(),
        &rendered.attributes_json,
    );
    set_context_attributes(
        &mut row,
        record.resource.attributes.as_slice(),
        record.scope.attributes.as_slice(),
        rendered,
    );
    Ok(row)
}

/// Fills the columns of a log's own fields that a projection names and clears
/// the others.
fn populate_projected_log(
    row: &mut AnalyticsRow,
    columns: &[AnalyticsColumn],
    record: &DurableLog,
    rendered: &Rendered,
)
    ensures
        *final(row) == (AnalyticsRow {
            resource_id: final(row).resource_id,
            scope_id: final(row).scope_id,
            trace_id: final(row).trace_id,
            span_id: final(row).span_id,
            message: final(row).message,
            body_json: final(row).body_json,
            event_name: final(row).event_name,
            severity_number: final(row).severity_number,
            severity_text: final(row).severity_text,
            flags: final(row).flags,
            dropped_attributes_count: final(row).dropped_attributes_count,
            labels: final(row).labels,
            metadata: final(row).metadata,
            ..*old(row)
        }),
        text_cell(final(row).resource_id) == (if names_column(columns@, AnalyticsColumn::ResourceId) {
            id_cell(record.resource.identity().0)
        } else {
            Cell::Null
        }),
        text_cell(final(row).scope_id) == (if names_column(columns@, AnalyticsColumn::ScopeId) {
            id_cell(record.scope.identity().0)
        } else {
            Cell::Null
        }),
        text_cell(final(row).trace_id) == (if names_column(columns@, AnalyticsColumn::TraceId) {
            match record.trace_id {
                Some(id) => id_cell(id.0),
                None => Cell::Null,
            }
        } else {
            Cell::Null
        }),
        text_cell(final(row).span_id) == (if names_column(columns@, AnalyticsColumn::SpanId) {
            match record.span_id {
                Some(id) => Cell::Text(hex_fixed(id.0 as nat, 16)),
                None => Cell::Null,
            }
        } else {
            Cell::Null
        }),
        text_cell(final(row).message) == (if names_column(columns@, AnalyticsColumn::Message) {
            Cell::Text(record.message@)
        } else {
            Cell::Null
        }),
        text_cell(final(row).body_json) == (if names_column(columns@, AnalyticsColumn::BodyJson) {
            text_cell(rendered.body_json)
        } else {
            Cell::Null
        }),
        text_cell(final(row).event_name) == (if names_column(columns@, AnalyticsColumn::EventName) {
            Cell::Text(record.event_name@)
        } else {
            Cell::Null
        }),
        final(row).severity_number == (if names_column(columns@, AnalyticsColumn::SeverityNumber) {
            Some(record.severity_number)
        } else {
            None
        }),
        text_cell(final(row).severity_text) == (if names_column(columns@, AnalyticsColumn::SeverityText) {
            Cell::Text(record.severity_text@)
        } else {
            Cell::Null
        }),
        final(row).flags == (if names_column(columns@, AnalyticsColumn::Flags) {
            Some(record.flags)
        } else {
            None
        }),
        final(row).dropped_attributes_count == (if names_column(columns@, AnalyticsColumn::DroppedAttributesCount) {
            Some(record.dropped_attributes_count)
        } else {
            None
        }),
        final(row).labels@ == (if names_column(columns@, AnalyticsColumn::Labels) {
            fields_below(record.fields@, "resource.loki.label."@)
        } else {
            Map::<Seq<char>, Seq<char>>::empty()
        }),
        final(row).metadata@ == (if names_column(columns@, AnalyticsColumn::Metadata) {
            fields_below(record.fields@, "attr.loki.metadata."@)
        } else {
            Map::<Seq<char>, Seq<char>>::empty()
        }),
{
    row.resource_id = if wants(columns, AnalyticsColumn::ResourceId) {
        Some(hex_text(record.resource_id().0, 32))
    } else {
        None
    };
    row.scope_id = if wants(columns, AnalyticsColumn::ScopeId) {
        Some(hex_text(record.scope_id().0, 32))
    } else {
        None
    };
    row.trace_id = if wants(columns, AnalyticsColumn::TraceId) {
        match record.trace_id {
            Some(id) => Some(id.text()),
            None => None,
        }
    } else {
        None
    };
    row.span_id = if wants(columns, AnalyticsColumn::SpanId) {
        match record.span_id {
            Some(id) => Some(id.text()),
            None => None,
        }
    } else {
        None
    };
    row.message = if wants(columns, AnalyticsColumn::Message) {
        Some(record.message.clone())
    } else {
        None
    };
    row.body_json = if wants(columns, AnalyticsColumn::BodyJson) {
        copy_text(&rendered.body_json)
    } else {
        None
    };
    row.event_name = if wants(columns, AnalyticsColumn::EventName) {
        Some(record.event_name.clone())
    } else {
        None
    };
    row.severity_number = if wants(columns, AnalyticsColumn::SeverityNumber) {
        Some(record.severity_number)
    } else {
        None
    };
    row.severity_text = if wants(columns, AnalyticsColumn::SeverityText) {
        Some(record.severity_text.clone())
    } else {
        None
    };
    row.flags = if wants(columns, AnalyticsColumn::Flags) {
        Some(record.flags)
    } else {
        None
    };
    row.dropped_attributes_count = if wants(columns, AnalyticsColumn::DroppedAttributesCount) {
        Some(record.dropped_attributes_count)
    } else {
        None
    };
    row.labels = if wants(columns, AnalyticsColumn::Labels) {
        prefixed_fields(record.fields.as_slice(), "resource.loki.label.")
    } else {
        StringMap::new()
    };
    row.metadata = if wants(columns, AnalyticsColumn::Metadata) {
        prefixed_fields(record.fields.as_slice(), "attr.loki.metadata.")
    } else {
        StringMap::new()
    };
}

/// The cell of a projected log row.
pub open spec fn projected_log_cell(
    tenant: Seq<char>,
    record: DurableLog,
    columns: Seq<AnalyticsColumn>,
    rendered: Rendered,
    column: AnalyticsColumn,
) -> Cell {
    if shown(columns, column) {
        log_cell(
            tenant,
            record,
            fields_below(record.fields@, "resource.loki.label."@),
            fields_below(record.fields@, "attr.loki.metadata."@),
            rendered,
            column,
        )
    } else {
        blank(column)
    }
}

/// What a projected log row holds, field by field.
spec fn projected_log_fields(
    row: AnalyticsRow,
    tenant: Seq<char>,
    record: DurableLog,
    columns: Seq<AnalyticsColumn>,
    rendered: Rendered,
) -> bool {
    &&& text_cell(row.resource_id) == (if names_column(columns, AnalyticsColumn::ResourceId) {
        id_cell(record.resource.identity().0)
    } else {
        Cell::Null})
    &&& text_cell(row.scope_id) == (if names_column(columns, AnalyticsColumn::ScopeId) {
        id_cell(record.scope.identity().0)
    } else {
        Cell::Null})
    &&& text_cell(row.trace_id) == (if names_column(columns, AnalyticsColumn::TraceId) {
        match record.trace_id {
            Some(id) => id_cell(id.0),
            None => Cell::Null,
        }
    } else {
        Cell::Null})
    &&& text_cell(row.span_id) == (if names_column(columns, AnalyticsColumn::SpanId) {
        match record.span_id {
            Some(id) => Cell::Text(hex_fixed(id.0 as nat, 16)),
            None => Cell::Null,
        }
    } else {
        Cell::Null})
    &&& text_cell(row.message) == (if names_column(columns, AnalyticsColumn::Message) {
        Cell::Text(record.message@)
    } else {
        Cell::Null})
    &&& text_cell(row.body_json) == (if names_column(columns, AnalyticsColumn::BodyJson) {
        text_cell(rendered.body_json)
    } else {
        Cell::Null})
    &&& text_cell(row.event_name) == (if names_column(columns, AnalyticsColumn::EventName) {
        Cell::Text(record.event_name@)
    } else {
        Cell::Null})
    &&& row.severity_number == (if names_column(columns, AnalyticsColumn::SeverityNumber) {
        Some(record.severity_number)
    } else {
        None})
    &&& text_cell(row.severity_text) == (if names_column(columns, AnalyticsColumn::SeverityText) {
        Cell::Text(record.severity_text@)
    } else {
        Cell::Null})
    &&& row.flags == (if names_column(columns, AnalyticsColumn::Flags) {
        Some(record.flags)
    } else {
        None})
    &&& row.dropped_attributes_count == (if names_column(columns, AnalyticsColumn::DroppedAttributesCount) {
        Some(record.dropped_attributes_count)
    } else {
        None})
    &&& row.labels@ == (if names_column(columns, AnalyticsColumn::Labels) {
        fields_below(record.fields@, "resource.loki.label."@)
    } else {
        Map::<Seq<char>, Seq<char>>::empty()})
    &&& row.metadata@ == (if names_column(columns, AnalyticsColumn::Metadata) {
        fields_below(record.fields@, "attr.loki.metadata."@)
    } else {
        Map::<Seq<char>, Seq<char>>::empty()})
    &&& row.attributes@ == (if names_column(columns, AnalyticsColumn::Attributes) {
        attributes_by_key(record.attributes@, rendered.attributes@)
    } else {
        Map::<Seq<char>, Seq<char>>::empty()})
    &&& row.resource_attributes@ == (if names_column(columns, AnalyticsColumn::ResourceAttributes) {
        attributes_by_key(record.resource.attributes@, rendered.resource_attributes@)
    } else {
        Map::<Seq<char>, Seq<char>>::empty()})
    &&& row.scope_attributes@ == (if names_column(columns, AnalyticsColumn::ScopeAttributes) {
        attributes_by_key(record.scope.attributes@, rendered.scope_attributes@)
    } else {
        Map::<Seq<char>, Seq<char>>::empty()})
    &&& row.attribute_ids@ == (if names_column(columns, AnalyticsColumn::AttributeIds) {
        ids_by_key(record.attributes@)
    } else {
        Map::<Seq<char>, Seq<char>>::empty()})
    &&& row.resource_attribute_ids@ == (if names_column(columns, AnalyticsColumn::ResourceAttributeIds) {
        ids_by_key(record.resource.attributes@)
    } else {
        Map::<Seq<char>, Seq<char>>::empty()})
    &&& row.scope_attribute_ids@ == (if names_column(columns, AnalyticsColumn::ScopeAttributeIds) {
        ids_by_key(record.scope.attributes@)
    } else {
        Map::<Seq<char>, Seq<char>>::empty()})
    &&& text_cell(row.attributes_json) == (if names_column(columns, AnalyticsColumn::AttributesJson) {
        text_cell(rendered.attributes_json)
    } else {
        Cell::Null})
    &&& text_cell(row.resource_attributes_json) == (if names_column(columns, AnalyticsColumn::ResourceAttributesJson) {
        text_cell(rendered.resource_attributes_json)
    } else {
        Cell::Null})
    &&& text_cell(row.scope_attributes_json) == (if names_column(columns, AnalyticsColumn::ScopeAttributesJson) {
        text_cell(rendered.scope_attributes_json)
    } else {
        Cell::Null})
    &&& row.observed_timestamp_unix_nanos == (if names_column(
        columns,
        AnalyticsColumn::ObservedTimestamp,
    ) {
        optional_time(record.observed_timestamp_unix_nanos)
    } else {
        None
    })
    &&& row.tenant@ == tenant
    &&& row.signal@ == "logs"@
    &&& row.timestamp_unix_nanos == record.timestamp_unix_nanos as i64
    &&& row.partition == record.record_ref.topic_partition.partition_id.0
    &&& row.offset == record.record_ref.offset.0
    &&& row.parent_timestamp_unix_nanos is None
    &&& row.start_timestamp_unix_nanos is None
    &&& row.end_timestamp_unix_nanos is None
    &&& row.ordinal is None
    &&& row.parent_span_id is None
    &&& row.linked_trace_id is None
    &&& row.linked_span_id is None
    &&& row.series_id is None
    &&& row.name is None
    &&& row.kind is None
    &&& row.duration_nanos is None
    &&& row.status_code is None
    &&& row.status_message is None
    &&& row.trace_state is None
    &&& row.dropped_events_count is None
    &&& row.dropped_links_count is None
    &&& row.events_json is None
    &&& row.links_json is None
    &&& row.description is None
    &&& row.unit is None
    &&& row.metric_kind is None
    &&& row.temporality is None
    &&& row.monotonic is None
    &&& row.value_type is None
    &&& row.scalar_integer is None
    &&& row.scalar_double_bits is None
    &&& row.value_json is None
    &&& row.exemplars_json is None
}

/// One column of a projected log row is as stated.
#[verifier::opaque]
spec fn projected_log_agrees(
    row: AnalyticsRow,
    tenant: Seq<char>,
    record: DurableLog,
    columns: Seq<AnalyticsColumn>,
    rendered: Rendered,
    column: AnalyticsColumn,
) -> bool {
    row.cell(column) == projected_log_cell(tenant, record, columns, rendered, column)
}

proof fn lemma_projected_log_columns(
    row: AnalyticsRow,
    tenant: Seq<char>,
    record: DurableLog,
    columns: Seq<AnalyticsColumn>,
    rendered: Rendered,
)
    requires
        projected_log_fields(row, tenant, record, columns, rendered),
    ensures
        projected_log_agrees(row, tenant, record, columns, rendered, AnalyticsColumn::Tenant),
        projected_log_agrees(row, tenant, record, columns, rendered, AnalyticsColumn::Signal),
        projected_log_agrees(row, tenant, record, columns, rendered, AnalyticsColumn::Timestamp),
        projected_log_agrees(row, tenant, record, columns, rendered, AnalyticsColumn::ParentTimestamp),
        projected_log_agrees(row, tenant, record, columns, rendered, AnalyticsColumn::ObservedTimestamp),
        projected_log_agrees(row, tenant, record, columns, rendered, AnalyticsColumn::StartTimestamp),
        projected_log_agrees(row, tenant, record, columns, rendered, AnalyticsColumn::EndTimestamp),
        projected_log_agrees(row, tenant, record, columns, rendered, AnalyticsColumn::Partition),
        projected_log_agrees(row, tenant, record, columns, rendered, AnalyticsColumn::Offset),
        projected_log_agrees(row, tenant, record, columns, rendered, AnalyticsColumn::Ordinal),
        projected_log_agrees(row, tenant, record, columns, rendered, AnalyticsColumn::ResourceId),
        projected_log_agrees(row, tenant, record, columns, rendered, AnalyticsColumn::ScopeId),
        projected_log_agrees(row, tenant, record, columns, rendered, AnalyticsColumn::TraceId),
        projected_log_agrees(row, tenant, record, columns, rendered, AnalyticsColumn::SpanId),
        projected_log_agrees(row, tenant, record, columns, rendered, AnalyticsColumn::ParentSpanId),
        projected_log_agrees(row, tenant, record, columns, rendered, AnalyticsColumn::LinkedTraceId),
        projected_log_agrees(row, tenant, record, columns, rendered, AnalyticsColumn::LinkedSpanId),
        projected_log_agrees(row, tenant, record, columns, rendered, AnalyticsColumn::SeriesId),
        projected_log_agrees(row, tenant, record, columns, rendered, AnalyticsColumn::Message),
        projected_log_agrees(row, tenant, record, columns, rendered, AnalyticsColumn::BodyJson),
        projected_log_agrees(row, tenant, record, columns, rendered, AnalyticsColumn::Name),
        projected_log_agrees(row, tenant, record, columns, rendered, AnalyticsColumn::EventName),
        projected_log_agrees(row, tenant, record, columns, rendered, AnalyticsColumn::SeverityNumber),
        projected_log_agrees(row, tenant, record, columns, rendered, AnalyticsColumn::SeverityText),
        projected_log_agrees(row, tenant, record, columns, rendered, AnalyticsColumn::Kind),
        projected_log_agrees(row, tenant, record, columns, rendered, AnalyticsColumn::DurationNanos),
        projected_log_agrees(row, tenant, record, columns, rendered, AnalyticsColumn::StatusCode),
        projected_log_agrees(row, tenant, record, columns, rendered, AnalyticsColumn::StatusMessage),
        projected_log_agrees(row, tenant, record, columns, rendered, AnalyticsColumn::TraceState),
        projected_log_agrees(row, tenant, record, columns, rendered, AnalyticsColumn::Flags),
        projected_log_agrees(row, tenant, record, columns, rendered, AnalyticsColumn::DroppedAttributesCount),
        projected_log_agrees(row, tenant, record, columns, rendered, AnalyticsColumn::DroppedEventsCount),
        projected_log_agrees(row, tenant, record, columns, rendered, AnalyticsColumn::DroppedLinksCount),
        projected_log_agrees(row, tenant, record, columns, rendered, AnalyticsColumn::Labels),
        projected_log_agrees(row, tenant, record, columns, rendered, AnalyticsColumn::Metadata),
        projected_log_agrees(row, tenant, record, columns, rendered, AnalyticsColumn::Attributes),
        projected_log_agrees(row, tenant, record, columns, rendered, AnalyticsColumn::ResourceAttributes),
        projected_log_agrees(row, tenant, record, columns, rendered, AnalyticsColumn::ScopeAttributes),
        projected_log_agrees(row, tenant, record, columns, rendered, AnalyticsColumn::AttributeIds),
        projected_log_agrees(row, tenant, record, columns, rendered, AnalyticsColumn::ResourceAttributeIds),
        projected_log_agrees(row, tenant, record, columns, rendered, AnalyticsColumn::ScopeAttributeIds),
        projected_log_agrees(row, tenant, record, columns, rendered, AnalyticsColumn::AttributesJson),
        projected_log_agrees(row, tenant, record, columns, rendered, AnalyticsColumn::ResourceAttributesJson),
        projected_log_agrees(row, tenant, record, columns, rendered, AnalyticsColumn::ScopeAttributesJson),
        projected_log_agrees(row, tenant, record, columns, rendered, AnalyticsColumn::EventsJson),
        projected_log_agrees(row, tenant, record, columns, rendered, AnalyticsColumn::LinksJson),
        projected_log_agrees(row, tenant, record, columns, rendered, AnalyticsColumn::Description),
        projected_log_agrees(row, tenant, record, columns, rendered, AnalyticsColumn::Unit),
        projected_log_agrees(row, tenant, record, columns, rendered, AnalyticsColumn::MetricKind),
        projected_log_agrees(row, tenant, record, columns, rendered, AnalyticsColumn::Temporality),
        projected_log_agrees(row, tenant, record, columns, rendered, AnalyticsColumn::Monotonic),
        projected_log_agrees(row, tenant, record, columns, rendered, AnalyticsColumn::ValueType),
        projected_log_agrees(row, tenant, record, columns, rendered, AnalyticsColumn::ScalarInteger),
        projected_log_agrees(row, tenant, record, columns, rendered, AnalyticsColumn::ScalarDoubleBits),
        projected_log_agrees(row, tenant, record, columns, rendered, AnalyticsColumn::ValueJson),
        projected_log_agrees(row, tenant, record, columns, rendered, AnalyticsColumn::ExemplarsJson),
{
    reveal(projected_log_agrees);
}

proof fn lemma_projected_log(
    row: AnalyticsRow,
    tenant: Seq<char>,
    record: DurableLog,
    columns: Seq<AnalyticsColumn>,
    rendered: Rendered,
    column: AnalyticsColumn,
)
    requires
        projected_log_fields(row, tenant, record, columns, rendered),
    ensures
        projected_log_agrees(row, tenant, record, columns, rendered, column),
{
    lemma_projected_log_columns(row, tenant, record, columns, rendered);
}

/// Builds only the columns requested by the analytical boundary. Storage
/// pushdown has already applied the predicate before this function is used,
/// so omitted filter-only columns do not need to be materialized a second
/// time.
pub fn projected_log_row(
    tenant: &str,
    record: &DurableLog,
    columns: &[AnalyticsColumn],
    rendered: &Rendered,
) -> (result: Result<AnalyticsRow, LokiApiError>)
    ensures
        ({
            let in_range = record.timestamp_unix_nanos <= i64::MAX && (names_column(columns@, AnalyticsColumn::ObservedTimestamp) ==> record.observed_timestamp_unix_nanos <= i64::MAX);
            match result {
                Ok(row) => in_range && forall|column: AnalyticsColumn| #[trigger]
                    row.cell(column) == projected_log_cell(
                        tenant@,
                        *record,
                        columns@,
                        *rendered,
                        column,
                    ),
                Err(error) => !in_range && time_out_of_range(error),
            }
        }),
{
    let mut row = match AnalyticsRow::empty(
        tenant,
        "logs",
        record.timestamp_unix_nanos,
        record.record_ref.topic_partition.partition_id.get(),
        record.record_ref.offset.get(),
    ) {
        Ok(row) => row,
        Err(error) => {
            return Err(error);
        },
    };
    row.observed_timestamp_unix_nanos = if wants(columns, AnalyticsColumn::ObservedTimestamp) {
        match nonzero_timestamp(record.observed_timestamp_unix_nanos) {
            Ok(time) => time,
            Err(error) => {
                return Err(error);
            },
        }
    } else {
        None
    };
    populate_projected_log(&mut row, columns, record, rendered);
    populate_projected_attributes(
        &mut row,
        columns,
        record.attributes.as_slice(),
        record.resource.attributes.as_slice(),
        record.scope.attributes.as_slice(),
        rendered,
    );
    proof {
        assert(projected_log_fields(row, tenant@, *record, columns@, *rendered));
        assert forall|column: AnalyticsColumn| #[trigger] row.cell(column) == projected_log_cell(
            tenant@,
            *record,
            columns@,
            *rendered,
            column,
        ) by {
            lemma_projected_log(row, tenant@, *record, columns@, *rendered, column);
            reveal(projected_log_agrees);
        }
    }
    Ok(row)
}

} // verus!
