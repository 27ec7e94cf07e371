//! What analytical rows say of the records that they show.

use vstd::arithmetic::power::pow;
use vstd::prelude::*;

use crate::analytics_columns::{AnalyticsColumn, AnalyticsRelation};
use crate::analytics_metrics::{exemplar_cell, metric_cell, projected_metric_cell, value_type_name};
use crate::analytics_projection::{
    attributes_by_key, bytes_hex, fields_below, ids_by_key, log_cell, projected_log_cell, text_at,
    value_text, Rendered,
};
use crate::analytics_row::{names_column, AnalyticsRow, Cell};
use crate::analytics_spans::{projected_span_cell, span_cell, span_event_cell, span_link_cell};
use crate::attributes::{attribute_identity, TelemetryAttribute, TelemetryValue};
use crate::records::{
    DurableLog, DurableMetricPoint, DurableSpan, MetadataField, MetricKind, MetricValue,
    NumberValue,
};
use crate::string_map::pairs_map;
use crate::text::hex_fixed;
use crate::text_laws::{
    all_small_hex, decimals_read_back, fixed_hex_reads_back, signed_decimals_read_back,
    spelled_number,
};

verus! {

/// Whether a text spells a number in so many hexadecimal digits.
pub open spec fn spells(text: Seq<char>, number: nat, width: nat) -> bool {
    text.len() == width && all_small_hex(text) && spelled_number(text, 16) == number
}

/// Whether a field spells a number in so many hexadecimal digits.
pub open spec fn field_spells(field: Option<String>, number: nat, width: nat) -> bool {
    field matches Some(text) && spells(text@, number, width)
}

/// Whether a field is a text.
pub open spec fn field_says(field: Option<String>, text: Seq<char>) -> bool {
    field matches Some(found) && found@ == text
}

/// Whether two optional texts are the same.
pub open spec fn same_field(left: Option<String>, right: Option<String>) -> bool {
    match (left, right) {
        (Some(left), Some(right)) => left@ == right@,
        (None, None) => true,
        _ => false,
    }
}

/// Whether an optional time is a time, zero standing for none.
pub open spec fn time_says(field: Option<i64>, time: u64) -> bool {
    match field {
        Some(found) => found == time && time != 0,
        None => time == 0,
    }
}

proof fn lemma_powers()
    ensures
        pow(16, 32) == 0x1_0000_0000_0000_0000_0000_0000_0000_0000,
        pow(16, 16) == 0x1_0000_0000_0000_0000,
        pow(16, 2) == 256,
{
    vstd::arithmetic::power2::lemma_pow2(128);
    vstd::arithmetic::power2::lemma_pow2(64);
    vstd::arithmetic::power2::lemma2_to64();
    vstd::arithmetic::power2::lemma2_to64_rest();
    vstd::arithmetic::power2::lemma_pow2_adds(64, 64);
    lemma_sixteen(32);
    lemma_sixteen(16);
    lemma_sixteen(2);
}

proof fn lemma_sixteen(width: nat)
    ensures
        pow(16, width) == vstd::arithmetic::power2::pow2(4 * width),
    decreases width,
{
    vstd::arithmetic::power2::lemma2_to64();
    vstd::arithmetic::power::lemma_pow0(16);
    if width > 0 {
        let narrower = (width - 1) as nat;
        lemma_sixteen(narrower);
        vstd::arithmetic::power::lemma_pow1(16);
        vstd::arithmetic::power::lemma_pow_adds(16, 1, narrower);
        vstd::arithmetic::power2::lemma_pow2_adds(4, 4 * narrower);
    }
}

/// An identity of 128 bits is shown as 32 digits that spell it, one of 64 bits as
/// 16.
pub proof fn identities_are_spelled(wide: u128, narrow: u64)
    ensures
        spells(hex_fixed(wide as nat, 32), wide as nat, 32),
        spells(hex_fixed(narrow as nat, 16), narrow as nat, 16),
{
    lemma_powers();
    fixed_hex_reads_back(wide as nat, 32);
    fixed_hex_reads_back(narrow as nat, 16);
}

/// The text of bytes spells each of them with two digits, in order.
pub proof fn bytes_are_spelled(bytes: Seq<u8>)
    ensures
        bytes_hex(bytes).len() == 2 * bytes.len(),
        forall|i: int|
            0 <= i < bytes.len() ==> spells(
                #[trigger] bytes_hex(bytes).subrange(2 * i, 2 * i + 2),
                bytes[i] as nat,
                2,
            ),
    decreases bytes.len(),
{
    if bytes.len() > 0 {
        let shorter = bytes.drop_last();
        bytes_are_spelled(shorter);
        lemma_powers();
        fixed_hex_reads_back(bytes.last() as nat, 2);
        let whole = bytes_hex(bytes);
        assert forall|i: int| 0 <= i < bytes.len() implies spells(
            #[trigger] whole.subrange(2 * i, 2 * i + 2),
            bytes[i] as nat,
            2,
        ) by {
            if i < shorter.len() {
                assert(whole.subrange(2 * i, 2 * i + 2) =~= bytes_hex(shorter).subrange(
                    2 * i,
                    2 * i + 2,
                ));
            } else {
                assert(whole.subrange(2 * i, 2 * i + 2) =~= hex_fixed(bytes.last() as nat, 2));
            }
        }
    }
}

/// What the text of a value says: a string is itself, an integer is spelled in
/// decimal with its sign, a boolean is its name, an empty value is nothing; doubles
/// and nested values are the text that was rendered for them.
pub proof fn values_are_rendered(value: TelemetryValue, text: Seq<char>)
    ensures
        match value {
            TelemetryValue::Empty => value_text(value, text).len() == 0,
            TelemetryValue::String(found) => value_text(value, text) == found@,
            TelemetryValue::Boolean(true) => value_text(value, text) == seq!['t', 'r', 'u', 'e'],
            TelemetryValue::Boolean(false) => value_text(value, text) == seq![
                'f',
                'a',
                'l',
                's',
                'e',
            ],
            TelemetryValue::Integer(number) => if number < 0 {
                value_text(value, text)[0] == '-' && spelled_number(
                    value_text(value, text).skip(1),
                    10,
                ) == -number
            } else {
                spelled_number(value_text(value, text), 10) == number
            },
            TelemetryValue::StringTableIndex(index) => spelled_number(
                value_text(value, text),
                10,
            ) == index,
            TelemetryValue::Bytes(bytes) => value_text(value, text).len() == 2 * bytes@.len(),
            _ => value_text(value, text) == text,
        },
{
    reveal_strlit("true");
    reveal_strlit("false");
    match value {
        TelemetryValue::Integer(number) => {
            signed_decimals_read_back(number as int);
        },
        TelemetryValue::StringTableIndex(index) => {
            decimals_read_back(index as nat, 0);
        },
        TelemetryValue::Bytes(bytes) => {
            bytes_are_spelled(bytes@);
        },
        TelemetryValue::Boolean(flag) => {
            assert("true"@ =~= seq!['t', 'r', 'u', 'e']);
            assert("false"@ =~= seq!['f', 'a', 'l', 's', 'e']);
        },
        _ => {},
    }
}

/// Whether an attribute is the last valued one of its key.
pub open spec fn last_valued(attributes: Seq<TelemetryAttribute>, at: int) -> bool {
    &&& 0 <= at < attributes.len()
    &&& attributes[at].value is Some
    &&& forall|later: int|
        at < later < attributes.len() ==> (#[trigger] attributes[later]).key@ != attributes[at].key@
            || attributes[later].value is None
}

/// Attributes by key: a key is there exactly where a valued attribute has it, and
/// the last of those gives its text.
pub proof fn attributes_are_kept_by_key(attributes: Seq<TelemetryAttribute>, texts: Seq<String>)
    ensures
        forall|at: int|
            0 <= at < attributes.len() && (#[trigger] attributes[at]).value is Some
                ==> attributes_by_key(attributes, texts).contains_key(attributes[at].key@),
        forall|key: Seq<char>| #[trigger]
            attributes_by_key(attributes, texts).contains_key(key) ==> exists|at: int|
                0 <= at < attributes.len() && (#[trigger] attributes[at]).key@ == key
                    && attributes[at].value is Some,
        forall|at: int|
            #[trigger] last_valued(attributes, at) ==> attributes_by_key(
                attributes,
                texts,
            )[attributes[at].key@] == value_text(
                attributes[at].value->0,
                text_at(texts, at),
            ),
    decreases attributes.len(),
{
    if attributes.len() > 0 {
        let shorter = attributes.drop_last();
        let last = attributes.len() - 1;
        let before = attributes_by_key(shorter, texts);
        let after = attributes_by_key(attributes, texts);
        attributes_are_kept_by_key(shorter, texts);
        assert forall|at: int|
            0 <= at < attributes.len() && (#[trigger] attributes[at]).value is Some
            implies after.contains_key(attributes[at].key@) by {
            if at < last {
                assert(shorter[at] == attributes[at]);
            }
        }
        assert forall|key: Seq<char>| #[trigger] after.contains_key(key) implies exists|at: int|
            0 <= at < attributes.len() && (#[trigger] attributes[at]).key@ == key
                && attributes[at].value is Some by {
            if attributes[last].value is Some && attributes[last].key@ == key {
            } else {
                assert(before.contains_key(key));
                let at = choose|at: int|
                    0 <= at < shorter.len() && (#[trigger] shorter[at]).key@ == key
                        && shorter[at].value is Some;
                assert(attributes[at] == shorter[at]);
            }
        }
        assert forall|at: int| #[trigger] last_valued(attributes, at) implies after[
        attributes[at].key@] == value_text(attributes[at].value->0, text_at(texts, at)) by {
            if at < last {
                assert(attributes[last].key@ != attributes[at].key@
                    || attributes[last].value is None);
                assert(last_valued(shorter, at)) by {
                    assert forall|later: int| at < later < shorter.len() implies (
                    #[trigger] shorter[later]).key@ != shorter[at].key@
                        || shorter[later].value is None by {
                        assert(shorter[later] == attributes[later]);
                    }
                }
                assert(shorter[at] == attributes[at]);
            }
        }
    }
}

/// Whether an attribute is the last one of its key.
pub open spec fn last_named(attributes: Seq<TelemetryAttribute>, at: int) -> bool {
    &&& 0 <= at < attributes.len()
    &&& forall|later: int|
        at < later < attributes.len() ==> (#[trigger] attributes[later]).key@ != attributes[at].key@
}

/// Identities by key: a key is there exactly where an attribute has it, valued or
/// not, and the identity of the last of those is spelled.
pub proof fn identities_are_kept_by_key(attributes: Seq<TelemetryAttribute>)
    ensures
        forall|at: int|
            0 <= at < attributes.len() ==> ids_by_key(attributes).contains_key(
                (#[trigger] attributes[at]).key@,
            ),
        forall|key: Seq<char>| #[trigger]
            ids_by_key(attributes).contains_key(key) ==> exists|at: int|
                0 <= at < attributes.len() && (#[trigger] attributes[at]).key@ == key,
        forall|at: int|
            #[trigger] last_named(attributes, at) ==> spells(
                ids_by_key(attributes)[attributes[at].key@],
                attribute_identity(attributes[at]).0 as nat,
                32,
            ),
    decreases attributes.len(),
{
    if attributes.len() > 0 {
        let shorter = attributes.drop_last();
        let last = attributes.len() - 1;
        let before = ids_by_key(shorter);
        let after = ids_by_key(attributes);
        identities_are_kept_by_key(shorter);
        identities_are_spelled(attribute_identity(attributes[last]).0, 0);
        assert forall|at: int| 0 <= at < attributes.len() implies after.contains_key(
            (#[trigger] attributes[at]).key@,
        ) by {
            if at < last {
                assert(shorter[at] == attributes[at]);
            }
        }
        assert forall|key: Seq<char>| #[trigger] after.contains_key(key) implies exists|at: int|
            0 <= at < attributes.len() && (#[trigger] attributes[at]).key@ == key by {
            if attributes[last].key@ != key {
                assert(before.contains_key(key));
                let at = choose|at: int|
                    0 <= at < shorter.len() && (#[trigger] shorter[at]).key@ == key;
                assert(attributes[at] == shorter[at]);
            }
        }
        assert forall|at: int| #[trigger] last_named(attributes, at) implies spells(
            after[attributes[at].key@],
            attribute_identity(attributes[at]).0 as nat,
            32,
        ) by {
            if at < last {
                assert(attributes[last].key@ != attributes[at].key@);
                assert(last_named(shorter, at)) by {
                    assert forall|later: int| at < later < shorter.len() implies (
                    #[trigger] shorter[later]).key@ != shorter[at].key@ by {
                        assert(shorter[later] == attributes[later]);
                    }
                }
                assert(shorter[at] == attributes[at]);
            }
        }
    }
}

/// Fields below a prefix: a name is there exactly where a field is the prefix and
/// that name, and the last such field gives its value.
pub proof fn fields_are_kept_below_their_prefix(fields: Seq<MetadataField>, prefix: Seq<char>)
    ensures
        forall|at: int, name: Seq<char>|
            0 <= at < fields.len() && (#[trigger] fields[at]).key@ == #[trigger] (prefix + name)
                ==> fields_below(fields, prefix).contains_key(name),
        forall|name: Seq<char>| #[trigger]
            fields_below(fields, prefix).contains_key(name) ==> exists|at: int|
                0 <= at < fields.len() && (#[trigger] fields[at]).key@ == prefix + name
                    && fields[at].value@ == fields_below(fields, prefix)[name] && forall|later: int|
                    at < later < fields.len() ==> (#[trigger] fields[later]).key@ != prefix + name,
    decreases fields.len(),
{
    if fields.len() > 0 {
        let shorter = fields.drop_last();
        let last = fields.len() - 1;
        let key = fields[last].key@;
        let before = fields_below(shorter, prefix);
        let after = fields_below(fields, prefix);
        fields_are_kept_below_their_prefix(shorter, prefix);
        assert forall|at: int, name: Seq<char>|
            0 <= at < fields.len() && (#[trigger] fields[at]).key@ == #[trigger] (prefix + name)
            implies after.contains_key(name) by {
            if at < last {
                assert(shorter[at] == fields[at]);
                assert(before.contains_key(name));
            } else {
                assert(key.take(prefix.len() as int) =~= prefix);
                assert(key.skip(prefix.len() as int) =~= name);
            }
        }
        assert forall|name: Seq<char>| #[trigger] after.contains_key(name) implies exists|at: int|
            0 <= at < fields.len() && (#[trigger] fields[at]).key@ == prefix + name
                && fields[at].value@ == after[name] && forall|later: int|
                at < later < fields.len() ==> (#[trigger] fields[later]).key@ != prefix + name by {
            if key == prefix + name {
                assert(key.take(prefix.len() as int) =~= prefix);
                assert(key.skip(prefix.len() as int) =~= name);
                assert(fields[last].value@ == after[name]);
            } else {
                if crate::text::has_prefix(key, prefix) {
                    assert(key =~= prefix + key.skip(prefix.len() as int));
                }
                assert(before.contains_key(name) && before[name] == after[name]);
                let at = choose|at: int|
                    0 <= at < shorter.len() && (#[trigger] shorter[at]).key@ == prefix + name
                        && shorter[at].value@ == before[name] && forall|later: int|
                        at < later < shorter.len() ==> (#[trigger] shorter[later]).key@ != prefix
                            + name;
                assert(fields[at] == shorter[at]);
                assert forall|later: int| at < later < fields.len() implies (
                #[trigger] fields[later]).key@ != prefix + name by {
                    if later < last {
                        assert(shorter[later] == fields[later]);
                    }
                }
            }
        }
    }
}

/// Pairs as a map: a key is there exactly where a pair has it, and the last of
/// those gives its value.
pub proof fn later_pairs_win(pairs: Seq<(Seq<char>, Seq<char>)>)
    ensures
        forall|at: int|
            0 <= at < pairs.len() ==> pairs_map(pairs).contains_key((#[trigger] pairs[at]).0),
        forall|key: Seq<char>| #[trigger]
            pairs_map(pairs).contains_key(key) ==> exists|at: int|
                0 <= at < pairs.len() && (#[trigger] pairs[at]).0 == key && pairs[at].1
                    == pairs_map(pairs)[key] && forall|later: int|
                    at < later < pairs.len() ==> (#[trigger] pairs[later]).0 != key,
    decreases pairs.len(),
{
    if pairs.len() > 0 {
        let shorter = pairs.drop_last();
        let last = pairs.len() - 1;
        let before = pairs_map(shorter);
        let after = pairs_map(pairs);
        later_pairs_win(shorter);
        assert forall|at: int| 0 <= at < pairs.len() implies after.contains_key(
            (#[trigger] pairs[at]).0,
        ) by {
            if at < last {
                assert(shorter[at] == pairs[at]);
            }
        }
        assert forall|key: Seq<char>| #[trigger] after.contains_key(key) implies exists|at: int|
            0 <= at < pairs.len() && (#[trigger] pairs[at]).0 == key && pairs[at].1 == after[key]
                && forall|later: int|
                at < later < pairs.len() ==> (#[trigger] pairs[later]).0 != key by {
            if pairs[last].0 != key {
                assert(before.contains_key(key));
                let at = choose|at: int|
                    0 <= at < shorter.len() && (#[trigger] shorter[at]).0 == key && shorter[at].1
                        == before[key] && forall|later: int|
                        at < later < shorter.len() ==> (#[trigger] shorter[later]).0 != key;
                assert(pairs[at] == shorter[at]);
                assert forall|later: int| at < later < pairs.len() implies (
                #[trigger] pairs[later]).0 != key by {
                    if later < last {
                        assert(shorter[later] == pairs[later]);
                    }
                }
            } else {
                assert(pairs[last].1 == after[key]);
            }
        }
    }
}

/// The row of a log says, field by field, what the log says.
pub proof fn log_rows_say_what_the_log_says(
    row: AnalyticsRow,
    tenant: Seq<char>,
    log: DurableLog,
    labels: Map<Seq<char>, Seq<char>>,
    metadata: Map<Seq<char>, Seq<char>>,
    rendered: Rendered,
)
    requires
        log.timestamp_unix_nanos <= i64::MAX,
        log.observed_timestamp_unix_nanos <= i64::MAX,
        forall|column: AnalyticsColumn| #[trigger]
            row.cell(column) == log_cell(
        tenant,
        log,
        labels,
        metadata,
        rendered,
        column,
    ),
    ensures
        row.tenant@ == tenant,
        row.signal@ == "logs"@,
        row.timestamp_unix_nanos == log.timestamp_unix_nanos,
        row.partition == log.record_ref.topic_partition.partition_id.0,
        row.offset == log.record_ref.offset.0,
        time_says(row.observed_timestamp_unix_nanos, log.observed_timestamp_unix_nanos),
        field_spells(row.resource_id, log.resource.identity().0 as nat, 32),
        field_spells(row.scope_id, log.scope.identity().0 as nat, 32),
        row.resource_attributes@ == attributes_by_key(
            log.resource.attributes@,
            rendered.resource_attributes@,
        ),
        row.scope_attributes@ == attributes_by_key(
            log.scope.attributes@,
            rendered.scope_attributes@,
        ),
        row.resource_attribute_ids@ == ids_by_key(log.resource.attributes@),
        row.scope_attribute_ids@ == ids_by_key(log.scope.attributes@),
        same_field(row.resource_attributes_json, rendered.resource_attributes_json),
        same_field(row.scope_attributes_json, rendered.scope_attributes_json),
        match log.trace_id {
            Some(id) => field_spells(row.trace_id, id.0 as nat, 32),
            None => row.trace_id is None,
        },
        match log.span_id {
            Some(id) => field_spells(row.span_id, id.0 as nat, 16),
            None => row.span_id is None,
        },
        field_says(row.message, log.message@),
        same_field(row.body_json, rendered.body_json),
        field_says(row.event_name, log.event_name@),
        row.severity_number == Some(log.severity_number),
        field_says(row.severity_text, log.severity_text@),
        row.flags == Some(log.flags),
        row.dropped_attributes_count == Some(log.dropped_attributes_count),
        row.labels@ == labels,
        row.metadata@ == metadata,
        row.attributes@ == attributes_by_key(log.attributes@, rendered.attributes@),
        row.attribute_ids@ == ids_by_key(log.attributes@),
        same_field(row.attributes_json, rendered.attributes_json),
        row.name is None,
        row.series_id is None,
        row.parent_span_id is None,
{
    let cells = |column: AnalyticsColumn| log_cell(
        tenant,
        log,
        labels,
        metadata,
        rendered,
        column,
    );
    identities_are_spelled(log.resource.identity().0, 0);
    identities_are_spelled(log.scope.identity().0, 0);
    identities_are_spelled((match log.trace_id {
        Some(id) => id.0,
        None => 0,
    }), (match log.span_id {
        Some(id) => id.0,
        None => 0,
    }));
    assert(row.cell(AnalyticsColumn::Tenant) == cells(AnalyticsColumn::Tenant));
    assert(row.cell(AnalyticsColumn::Signal) == cells(AnalyticsColumn::Signal));
    assert(row.cell(AnalyticsColumn::Timestamp) == cells(AnalyticsColumn::Timestamp));
    assert(row.cell(AnalyticsColumn::Partition) == cells(AnalyticsColumn::Partition));
    assert(row.cell(AnalyticsColumn::Offset) == cells(AnalyticsColumn::Offset));
    assert(row.cell(AnalyticsColumn::ObservedTimestamp) == cells(AnalyticsColumn::ObservedTimestamp));
    assert(row.cell(AnalyticsColumn::ResourceId) == cells(AnalyticsColumn::ResourceId));
    assert(row.cell(AnalyticsColumn::ScopeId) == cells(AnalyticsColumn::ScopeId));
    assert(row.cell(AnalyticsColumn::ResourceAttributes) == cells(AnalyticsColumn::ResourceAttributes));
    assert(row.cell(AnalyticsColumn::ScopeAttributes) == cells(AnalyticsColumn::ScopeAttributes));
    assert(row.cell(AnalyticsColumn::ResourceAttributeIds) == cells(AnalyticsColumn::ResourceAttributeIds));
    assert(row.cell(AnalyticsColumn::ScopeAttributeIds) == cells(AnalyticsColumn::ScopeAttributeIds));
    assert(row.cell(AnalyticsColumn::ResourceAttributesJson) == cells(AnalyticsColumn::ResourceAttributesJson));
    assert(row.cell(AnalyticsColumn::ScopeAttributesJson) == cells(AnalyticsColumn::ScopeAttributesJson));
    assert(row.cell(AnalyticsColumn::TraceId) == cells(AnalyticsColumn::TraceId));
    assert(row.cell(AnalyticsColumn::SpanId) == cells(AnalyticsColumn::SpanId));
    assert(row.cell(AnalyticsColumn::Message) == cells(AnalyticsColumn::Message));
    assert(row.cell(AnalyticsColumn::BodyJson) == cells(AnalyticsColumn::BodyJson));
    assert(row.cell(AnalyticsColumn::EventName) == cells(AnalyticsColumn::EventName));
    assert(row.cell(AnalyticsColumn::SeverityNumber) == cells(AnalyticsColumn::SeverityNumber));
    assert(row.cell(AnalyticsColumn::SeverityText) == cells(AnalyticsColumn::SeverityText));
    assert(row.cell(AnalyticsColumn::Flags) == cells(AnalyticsColumn::Flags));
    assert(row.cell(AnalyticsColumn::DroppedAttributesCount) == cells(AnalyticsColumn::DroppedAttributesCount));
    assert(row.cell(AnalyticsColumn::Labels) == cells(AnalyticsColumn::Labels));
    assert(row.cell(AnalyticsColumn::Metadata) == cells(AnalyticsColumn::Metadata));
    assert(row.cell(AnalyticsColumn::Attributes) == cells(AnalyticsColumn::Attributes));
    assert(row.cell(AnalyticsColumn::AttributeIds) == cells(AnalyticsColumn::AttributeIds));
    assert(row.cell(AnalyticsColumn::AttributesJson) == cells(AnalyticsColumn::AttributesJson));
    assert(row.cell(AnalyticsColumn::Name) == cells(AnalyticsColumn::Name));
    assert(row.cell(AnalyticsColumn::SeriesId) == cells(AnalyticsColumn::SeriesId));
    assert(row.cell(AnalyticsColumn::ParentSpanId) == cells(AnalyticsColumn::ParentSpanId));
}

/// The row of a span says, field by field, what the span says; its end lies its
/// duration behind its start.
pub proof fn span_rows_say_what_the_span_says(
    row: AnalyticsRow,
    span: DurableSpan,
    rendered: Rendered,
)
    requires
        span.start_time_unix_nanos + span.duration_nanos <= i64::MAX,
        forall|column: AnalyticsColumn| #[trigger]
            row.cell(column) == span_cell(span, rendered, column),
    ensures
        row.tenant@ == span.tenant@,
        row.signal@ == "traces"@,
        row.timestamp_unix_nanos == span.start_time_unix_nanos,
        row.partition == span.record_ref.topic_partition.partition_id.0,
        row.offset == span.record_ref.offset.0,
        field_spells(row.resource_id, span.resource.identity().0 as nat, 32),
        field_spells(row.scope_id, span.scope.identity().0 as nat, 32),
        row.resource_attributes@ == attributes_by_key(
            span.resource.attributes@,
            rendered.resource_attributes@,
        ),
        row.scope_attributes@ == attributes_by_key(
            span.scope.attributes@,
            rendered.scope_attributes@,
        ),
        row.resource_attribute_ids@ == ids_by_key(span.resource.attributes@),
        row.scope_attribute_ids@ == ids_by_key(span.scope.attributes@),
        same_field(row.resource_attributes_json, rendered.resource_attributes_json),
        same_field(row.scope_attributes_json, rendered.scope_attributes_json),
        field_spells(row.trace_id, span.trace_id.0 as nat, 32),
        field_spells(row.span_id, span.span_id.0 as nat, 16),
        row.end_timestamp_unix_nanos matches Some(end) && end == row.timestamp_unix_nanos
            + span.duration_nanos,
        match span.parent_span_id {
            Some(id) => field_spells(row.parent_span_id, id.0 as nat, 16),
            None => row.parent_span_id is None,
        },
        field_says(row.name, span.name@),
        row.kind == Some(span.kind),
        row.duration_nanos == Some(span.duration_nanos),
        match span.status {
            Some(status) => row.status_code == Some(status.code) && field_says(
                row.status_message,
                status.message@,
            ),
            None => row.status_code is None && row.status_message is None,
        },
        field_says(row.trace_state, span.trace_state@),
        row.flags == Some(span.flags),
        row.dropped_attributes_count == Some(span.dropped_attributes_count),
        row.dropped_events_count == Some(span.dropped_events_count),
        row.dropped_links_count == Some(span.dropped_links_count),
        same_field(row.events_json, rendered.events_json),
        same_field(row.links_json, rendered.links_json),
        row.attributes@ == attributes_by_key(span.attributes@, rendered.attributes@),
        row.attribute_ids@ == ids_by_key(span.attributes@),
        same_field(row.attributes_json, rendered.attributes_json),
{
    let cells = |column: AnalyticsColumn| span_cell(span, rendered, column);
    identities_are_spelled(span.resource.identity().0, span.span_id.0);
    identities_are_spelled(span.scope.identity().0, (match span.parent_span_id {
        Some(id) => id.0,
        None => 0,
    }));
    identities_are_spelled(span.trace_id.0, 0);
    assert(row.cell(AnalyticsColumn::Tenant) == cells(AnalyticsColumn::Tenant));
    assert(row.cell(AnalyticsColumn::Signal) == cells(AnalyticsColumn::Signal));
    assert(row.cell(AnalyticsColumn::Timestamp) == cells(AnalyticsColumn::Timestamp));
    assert(row.cell(AnalyticsColumn::Partition) == cells(AnalyticsColumn::Partition));
    assert(row.cell(AnalyticsColumn::Offset) == cells(AnalyticsColumn::Offset));
    assert(row.cell(AnalyticsColumn::ResourceId) == cells(AnalyticsColumn::ResourceId));
    assert(row.cell(AnalyticsColumn::ScopeId) == cells(AnalyticsColumn::ScopeId));
    assert(row.cell(AnalyticsColumn::ResourceAttributes) == cells(AnalyticsColumn::ResourceAttributes));
    assert(row.cell(AnalyticsColumn::ScopeAttributes) == cells(AnalyticsColumn::ScopeAttributes));
    assert(row.cell(AnalyticsColumn::ResourceAttributeIds) == cells(AnalyticsColumn::ResourceAttributeIds));
    assert(row.cell(AnalyticsColumn::ScopeAttributeIds) == cells(AnalyticsColumn::ScopeAttributeIds));
    assert(row.cell(AnalyticsColumn::ResourceAttributesJson) == cells(AnalyticsColumn::ResourceAttributesJson));
    assert(row.cell(AnalyticsColumn::ScopeAttributesJson) == cells(AnalyticsColumn::ScopeAttributesJson));
    assert(row.cell(AnalyticsColumn::TraceId) == cells(AnalyticsColumn::TraceId));
    assert(row.cell(AnalyticsColumn::SpanId) == cells(AnalyticsColumn::SpanId));
    assert(row.cell(AnalyticsColumn::EndTimestamp) == cells(AnalyticsColumn::EndTimestamp));
    assert(row.cell(AnalyticsColumn::ParentSpanId) == cells(AnalyticsColumn::ParentSpanId));
    assert(row.cell(AnalyticsColumn::Name) == cells(AnalyticsColumn::Name));
    assert(row.cell(AnalyticsColumn::Kind) == cells(AnalyticsColumn::Kind));
    assert(row.cell(AnalyticsColumn::DurationNanos) == cells(AnalyticsColumn::DurationNanos));
    assert(row.cell(AnalyticsColumn::StatusCode) == cells(AnalyticsColumn::StatusCode));
    assert(row.cell(AnalyticsColumn::StatusMessage) == cells(AnalyticsColumn::StatusMessage));
    assert(row.cell(AnalyticsColumn::TraceState) == cells(AnalyticsColumn::TraceState));
    assert(row.cell(AnalyticsColumn::Flags) == cells(AnalyticsColumn::Flags));
    assert(row.cell(AnalyticsColumn::DroppedAttributesCount) == cells(AnalyticsColumn::DroppedAttributesCount));
    assert(row.cell(AnalyticsColumn::DroppedEventsCount) == cells(AnalyticsColumn::DroppedEventsCount));
    assert(row.cell(AnalyticsColumn::DroppedLinksCount) == cells(AnalyticsColumn::DroppedLinksCount));
    assert(row.cell(AnalyticsColumn::EventsJson) == cells(AnalyticsColumn::EventsJson));
    assert(row.cell(AnalyticsColumn::LinksJson) == cells(AnalyticsColumn::LinksJson));
    assert(row.cell(AnalyticsColumn::Attributes) == cells(AnalyticsColumn::Attributes));
    assert(row.cell(AnalyticsColumn::AttributeIds) == cells(AnalyticsColumn::AttributeIds));
    assert(row.cell(AnalyticsColumn::AttributesJson) == cells(AnalyticsColumn::AttributesJson));
}

/// The row of a span event says what the event says, which of the events of its span
/// it is, and to which span it belongs.
pub proof fn event_rows_say_what_the_event_says(
    row: AnalyticsRow,
    span: DurableSpan,
    index: int,
    rendered: Rendered,
)
    requires
        0 <= index < span.events@.len(),
        index <= u32::MAX,
        span.start_time_unix_nanos <= i64::MAX,
        span.events@[index].timestamp_unix_nanos <= i64::MAX,
        forall|column: AnalyticsColumn| #[trigger]
            row.cell(column) == span_event_cell(
        span,
        index,
        rendered,
        column,
    ),
    ensures
        row.tenant@ == span.tenant@,
        row.signal@ == "traces"@,
        row.timestamp_unix_nanos == span.events@[index].timestamp_unix_nanos,
        row.partition == span.record_ref.topic_partition.partition_id.0,
        row.offset == span.record_ref.offset.0,
        field_spells(row.resource_id, span.resource.identity().0 as nat, 32),
        field_spells(row.scope_id, span.scope.identity().0 as nat, 32),
        row.resource_attributes@ == attributes_by_key(
            span.resource.attributes@,
            rendered.resource_attributes@,
        ),
        row.scope_attributes@ == attributes_by_key(
            span.scope.attributes@,
            rendered.scope_attributes@,
        ),
        row.resource_attribute_ids@ == ids_by_key(span.resource.attributes@),
        row.scope_attribute_ids@ == ids_by_key(span.scope.attributes@),
        same_field(row.resource_attributes_json, rendered.resource_attributes_json),
        same_field(row.scope_attributes_json, rendered.scope_attributes_json),
        field_spells(row.trace_id, span.trace_id.0 as nat, 32),
        field_spells(row.span_id, span.span_id.0 as nat, 16),
        row.parent_timestamp_unix_nanos matches Some(start) && start == span.start_time_unix_nanos,
        row.ordinal matches Some(ordinal) && ordinal == index,
        field_says(row.name, span.events@[index].name@),
        row.dropped_attributes_count == Some(span.events@[index].dropped_attributes_count),
        row.attributes@ == attributes_by_key(span.events@[index].attributes@, rendered.attributes@),
        row.attribute_ids@ == ids_by_key(span.events@[index].attributes@),
        same_field(row.attributes_json, rendered.attributes_json),
{
    let cells = |column: AnalyticsColumn| span_event_cell(
        span,
        index,
        rendered,
        column,
    );
    identities_are_spelled(span.resource.identity().0, span.span_id.0);
    identities_are_spelled(span.scope.identity().0, 0);
    identities_are_spelled(span.trace_id.0, 0);
    assert(row.cell(AnalyticsColumn::Tenant) == cells(AnalyticsColumn::Tenant));
    assert(row.cell(AnalyticsColumn::Signal) == cells(AnalyticsColumn::Signal));
    assert(row.cell(AnalyticsColumn::Timestamp) == cells(AnalyticsColumn::Timestamp));
    assert(row.cell(AnalyticsColumn::Partition) == cells(AnalyticsColumn::Partition));
    assert(row.cell(AnalyticsColumn::Offset) == cells(AnalyticsColumn::Offset));
    assert(row.cell(AnalyticsColumn::ResourceId) == cells(AnalyticsColumn::ResourceId));
    assert(row.cell(AnalyticsColumn::ScopeId) == cells(AnalyticsColumn::ScopeId));
    assert(row.cell(AnalyticsColumn::ResourceAttributes) == cells(AnalyticsColumn::ResourceAttributes));
    assert(row.cell(AnalyticsColumn::ScopeAttributes) == cells(AnalyticsColumn::ScopeAttributes));
    assert(row.cell(AnalyticsColumn::ResourceAttributeIds) == cells(AnalyticsColumn::ResourceAttributeIds));
    assert(row.cell(AnalyticsColumn::ScopeAttributeIds) == cells(AnalyticsColumn::ScopeAttributeIds));
    assert(row.cell(AnalyticsColumn::ResourceAttributesJson) == cells(AnalyticsColumn::ResourceAttributesJson));
    assert(row.cell(AnalyticsColumn::ScopeAttributesJson) == cells(AnalyticsColumn::ScopeAttributesJson));
    assert(row.cell(AnalyticsColumn::TraceId) == cells(AnalyticsColumn::TraceId));
    assert(row.cell(AnalyticsColumn::SpanId) == cells(AnalyticsColumn::SpanId));
    assert(row.cell(AnalyticsColumn::ParentTimestamp) == cells(AnalyticsColumn::ParentTimestamp));
    assert(row.cell(AnalyticsColumn::Ordinal) == cells(AnalyticsColumn::Ordinal));
    assert(row.cell(AnalyticsColumn::Name) == cells(AnalyticsColumn::Name));
    assert(row.cell(AnalyticsColumn::DroppedAttributesCount) == cells(AnalyticsColumn::DroppedAttributesCount));
    assert(row.cell(AnalyticsColumn::Attributes) == cells(AnalyticsColumn::Attributes));
    assert(row.cell(AnalyticsColumn::AttributeIds) == cells(AnalyticsColumn::AttributeIds));
    assert(row.cell(AnalyticsColumn::AttributesJson) == cells(AnalyticsColumn::AttributesJson));
}

/// The row of a span link says what the link says, which of the links of its span it
/// is, and to which span it belongs.
pub proof fn link_rows_say_what_the_link_says(
    row: AnalyticsRow,
    span: DurableSpan,
    index: int,
    rendered: Rendered,
)
    requires
        0 <= index < span.links@.len(),
        index <= u32::MAX,
        span.start_time_unix_nanos <= i64::MAX,
        forall|column: AnalyticsColumn| #[trigger]
            row.cell(column) == span_link_cell(
        span,
        index,
        rendered,
        column,
    ),
    ensures
        row.tenant@ == span.tenant@,
        row.signal@ == "traces"@,
        row.timestamp_unix_nanos == span.start_time_unix_nanos,
        row.partition == span.record_ref.topic_partition.partition_id.0,
        row.offset == span.record_ref.offset.0,
        field_spells(row.resource_id, span.resource.identity().0 as nat, 32),
        field_spells(row.scope_id, span.scope.identity().0 as nat, 32),
        row.resource_attributes@ == attributes_by_key(
            span.resource.attributes@,
            rendered.resource_attributes@,
        ),
        row.scope_attributes@ == attributes_by_key(
            span.scope.attributes@,
            rendered.scope_attributes@,
        ),
        row.resource_attribute_ids@ == ids_by_key(span.resource.attributes@),
        row.scope_attribute_ids@ == ids_by_key(span.scope.attributes@),
        same_field(row.resource_attributes_json, rendered.resource_attributes_json),
        same_field(row.scope_attributes_json, rendered.scope_attributes_json),
        field_spells(row.trace_id, span.trace_id.0 as nat, 32),
        field_spells(row.span_id, span.span_id.0 as nat, 16),
        row.ordinal matches Some(ordinal) && ordinal == index,
        field_spells(row.linked_trace_id, span.links@[index].trace_id.0 as nat, 32),
        field_spells(row.linked_span_id, span.links@[index].span_id.0 as nat, 16),
        field_says(row.trace_state, span.links@[index].trace_state@),
        row.flags == Some(span.links@[index].flags),
        row.dropped_attributes_count == Some(span.links@[index].dropped_attributes_count),
        row.attributes@ == attributes_by_key(span.links@[index].attributes@, rendered.attributes@),
        row.attribute_ids@ == ids_by_key(span.links@[index].attributes@),
        same_field(row.attributes_json, rendered.attributes_json),
{
    let cells = |column: AnalyticsColumn| span_link_cell(
        span,
        index,
        rendered,
        column,
    );
    identities_are_spelled(span.resource.identity().0, span.span_id.0);
    identities_are_spelled(span.scope.identity().0, span.links@[index].span_id.0);
    identities_are_spelled(span.trace_id.0, 0);
    identities_are_spelled(span.links@[index].trace_id.0, 0);
    assert(row.cell(AnalyticsColumn::Tenant) == cells(AnalyticsColumn::Tenant));
    assert(row.cell(AnalyticsColumn::Signal) == cells(AnalyticsColumn::Signal));
    assert(row.cell(AnalyticsColumn::Timestamp) == cells(AnalyticsColumn::Timestamp));
    assert(row.cell(AnalyticsColumn::Partition) == cells(AnalyticsColumn::Partition));
    assert(row.cell(AnalyticsColumn::Offset) == cells(AnalyticsColumn::Offset));
    assert(row.cell(AnalyticsColumn::ResourceId) == cells(AnalyticsColumn::ResourceId));
    assert(row.cell(AnalyticsColumn::ScopeId) == cells(AnalyticsColumn::ScopeId));
    assert(row.cell(AnalyticsColumn::ResourceAttributes) == cells(AnalyticsColumn::ResourceAttributes));
    assert(row.cell(AnalyticsColumn::ScopeAttributes) == cells(AnalyticsColumn::ScopeAttributes));
    assert(row.cell(AnalyticsColumn::ResourceAttributeIds) == cells(AnalyticsColumn::ResourceAttributeIds));
    assert(row.cell(AnalyticsColumn::ScopeAttributeIds) == cells(AnalyticsColumn::ScopeAttributeIds));
    assert(row.cell(AnalyticsColumn::ResourceAttributesJson) == cells(AnalyticsColumn::ResourceAttributesJson));
    assert(row.cell(AnalyticsColumn::ScopeAttributesJson) == cells(AnalyticsColumn::ScopeAttributesJson));
    assert(row.cell(AnalyticsColumn::TraceId) == cells(AnalyticsColumn::TraceId));
    assert(row.cell(AnalyticsColumn::SpanId) == cells(AnalyticsColumn::SpanId));
    assert(row.cell(AnalyticsColumn::Ordinal) == cells(AnalyticsColumn::Ordinal));
    assert(row.cell(AnalyticsColumn::LinkedTraceId) == cells(AnalyticsColumn::LinkedTraceId));
    assert(row.cell(AnalyticsColumn::LinkedSpanId) == cells(AnalyticsColumn::LinkedSpanId));
    assert(row.cell(AnalyticsColumn::TraceState) == cells(AnalyticsColumn::TraceState));
    assert(row.cell(AnalyticsColumn::Flags) == cells(AnalyticsColumn::Flags));
    assert(row.cell(AnalyticsColumn::DroppedAttributesCount) == cells(AnalyticsColumn::DroppedAttributesCount));
    assert(row.cell(AnalyticsColumn::Attributes) == cells(AnalyticsColumn::Attributes));
    assert(row.cell(AnalyticsColumn::AttributeIds) == cells(AnalyticsColumn::AttributeIds));
    assert(row.cell(AnalyticsColumn::AttributesJson) == cells(AnalyticsColumn::AttributesJson));
}

/// Whether a row shows a number in the field of its type and leaves the other one
/// empty.
pub open spec fn number_shown(row: AnalyticsRow, number: NumberValue) -> bool {
    match number {
        NumberValue::Integer(value) => field_says(row.value_type, "integer"@)
            && row.scalar_integer == Some(value) && row.scalar_double_bits is None,
        NumberValue::DoubleBits(bits) => field_says(row.value_type, "double"@)
            && row.scalar_integer is None && row.scalar_double_bits == Some(bits),
    }
}

/// The row of a metric point says, field by field, what the point says.
pub proof fn metric_rows_say_what_the_point_says(
    row: AnalyticsRow,
    point: DurableMetricPoint,
    rendered: Rendered,
)
    requires
        point.timestamp_unix_nanos <= i64::MAX,
        point.start_time_unix_nanos <= i64::MAX,
        forall|column: AnalyticsColumn| #[trigger]
            row.cell(column) == metric_cell(point, rendered, column),
    ensures
        row.tenant@ == point.identity.tenant@,
        row.signal@ == "metrics"@,
        row.timestamp_unix_nanos == point.timestamp_unix_nanos,
        row.partition == point.record_ref.topic_partition.partition_id.0,
        row.offset == point.record_ref.offset.0,
        field_spells(row.resource_id, point.identity.resource.identity().0 as nat, 32),
        field_spells(row.scope_id, point.identity.scope.identity().0 as nat, 32),
        row.resource_attributes@ == attributes_by_key(
            point.identity.resource.attributes@,
            rendered.resource_attributes@,
        ),
        row.scope_attributes@ == attributes_by_key(
            point.identity.scope.attributes@,
            rendered.scope_attributes@,
        ),
        row.resource_attribute_ids@ == ids_by_key(point.identity.resource.attributes@),
        row.scope_attribute_ids@ == ids_by_key(point.identity.scope.attributes@),
        same_field(row.resource_attributes_json, rendered.resource_attributes_json),
        same_field(row.scope_attributes_json, rendered.scope_attributes_json),
        field_spells(row.series_id, point.identity.series().0 as nat, 32),
        field_says(row.name, point.identity.name@),
        time_says(row.start_timestamp_unix_nanos, point.start_time_unix_nanos),
        field_says(row.description, point.description@),
        field_says(row.unit, point.identity.unit@),
        match point.identity.kind {
            MetricKind::Gauge => field_says(row.metric_kind, "gauge"@) && row.temporality is None
                && row.monotonic is None,
            MetricKind::Sum { temporality, monotonic } => field_says(row.metric_kind, "sum"@)
                && row.temporality == Some(temporality) && row.monotonic == Some(monotonic),
            MetricKind::ExplicitHistogram { temporality } => field_says(
                row.metric_kind,
                "explicit_histogram"@,
            ) && row.temporality == Some(temporality) && row.monotonic is None,
            MetricKind::ExponentialHistogram { temporality } => field_says(
                row.metric_kind,
                "exponential_histogram"@,
            ) && row.temporality == Some(temporality) && row.monotonic is None,
            MetricKind::Summary => field_says(row.metric_kind, "summary"@)
                && row.temporality is None && row.monotonic is None,
        },
        row.flags == Some(point.flags),
        row.metadata@ == attributes_by_key(point.metadata@, rendered.metadata@),
        match point.value {
            MetricValue::Gauge(number) => number_shown(row, number),
            MetricValue::Sum(number) => number_shown(row, number),
            MetricValue::ExplicitHistogram(_) => field_says(
                row.value_type,
                "explicit_histogram"@,
            ) && row.scalar_integer is None && row.scalar_double_bits is None,
            MetricValue::ExponentialHistogram(_) => field_says(
                row.value_type,
                "exponential_histogram"@,
            ) && row.scalar_integer is None && row.scalar_double_bits is None,
            MetricValue::Summary(_) => field_says(row.value_type, "summary"@)
                && row.scalar_integer is None && row.scalar_double_bits is None,
        },
        same_field(row.value_json, rendered.value_json),
        same_field(row.exemplars_json, rendered.exemplars_json),
        row.attributes@ == attributes_by_key(point.identity.point_attributes@, rendered.attributes@),
        row.attribute_ids@ == ids_by_key(point.identity.point_attributes@),
        same_field(row.attributes_json, rendered.attributes_json),
{
    let cells = |column: AnalyticsColumn| metric_cell(point, rendered, column);
    identities_are_spelled(point.identity.resource.identity().0, 0);
    identities_are_spelled(point.identity.scope.identity().0, 0);
    identities_are_spelled(point.identity.series().0, 0);
    assert(row.cell(AnalyticsColumn::Tenant) == cells(AnalyticsColumn::Tenant));
    assert(row.cell(AnalyticsColumn::Signal) == cells(AnalyticsColumn::Signal));
    assert(row.cell(AnalyticsColumn::Timestamp) == cells(AnalyticsColumn::Timestamp));
    assert(row.cell(AnalyticsColumn::Partition) == cells(AnalyticsColumn::Partition));
    assert(row.cell(AnalyticsColumn::Offset) == cells(AnalyticsColumn::Offset));
    assert(row.cell(AnalyticsColumn::ResourceId) == cells(AnalyticsColumn::ResourceId));
    assert(row.cell(AnalyticsColumn::ScopeId) == cells(AnalyticsColumn::ScopeId));
    assert(row.cell(AnalyticsColumn::ResourceAttributes) == cells(AnalyticsColumn::ResourceAttributes));
    assert(row.cell(AnalyticsColumn::ScopeAttributes) == cells(AnalyticsColumn::ScopeAttributes));
    assert(row.cell(AnalyticsColumn::ResourceAttributeIds) == cells(AnalyticsColumn::ResourceAttributeIds));
    assert(row.cell(AnalyticsColumn::ScopeAttributeIds) == cells(AnalyticsColumn::ScopeAttributeIds));
    assert(row.cell(AnalyticsColumn::ResourceAttributesJson) == cells(AnalyticsColumn::ResourceAttributesJson));
    assert(row.cell(AnalyticsColumn::ScopeAttributesJson) == cells(AnalyticsColumn::ScopeAttributesJson));
    assert(row.cell(AnalyticsColumn::SeriesId) == cells(AnalyticsColumn::SeriesId));
    assert(row.cell(AnalyticsColumn::Name) == cells(AnalyticsColumn::Name));
    assert(row.cell(AnalyticsColumn::StartTimestamp) == cells(AnalyticsColumn::StartTimestamp));
    assert(row.cell(AnalyticsColumn::Description) == cells(AnalyticsColumn::Description));
    assert(row.cell(AnalyticsColumn::Unit) == cells(AnalyticsColumn::Unit));
    assert(row.cell(AnalyticsColumn::MetricKind) == cells(AnalyticsColumn::MetricKind));
    assert(row.cell(AnalyticsColumn::Temporality) == cells(AnalyticsColumn::Temporality));
    assert(row.cell(AnalyticsColumn::Monotonic) == cells(AnalyticsColumn::Monotonic));
    assert(row.cell(AnalyticsColumn::Flags) == cells(AnalyticsColumn::Flags));
    assert(row.cell(AnalyticsColumn::Metadata) == cells(AnalyticsColumn::Metadata));
    assert(row.cell(AnalyticsColumn::ValueType) == cells(AnalyticsColumn::ValueType));
    assert(row.cell(AnalyticsColumn::ScalarInteger) == cells(AnalyticsColumn::ScalarInteger));
    assert(row.cell(AnalyticsColumn::ScalarDoubleBits) == cells(AnalyticsColumn::ScalarDoubleBits));
    assert(row.cell(AnalyticsColumn::ValueJson) == cells(AnalyticsColumn::ValueJson));
    assert(row.cell(AnalyticsColumn::ExemplarsJson) == cells(AnalyticsColumn::ExemplarsJson));
    assert(row.cell(AnalyticsColumn::Attributes) == cells(AnalyticsColumn::Attributes));
    assert(row.cell(AnalyticsColumn::AttributeIds) == cells(AnalyticsColumn::AttributeIds));
    assert(row.cell(AnalyticsColumn::AttributesJson) == cells(AnalyticsColumn::AttributesJson));
}

/// The row of an exemplar says what the exemplar says, which of the exemplars of its
/// point it is, and to which series it belongs.
pub proof fn exemplar_rows_say_what_the_exemplar_says(
    row: AnalyticsRow,
    point: DurableMetricPoint,
    index: int,
    rendered: Rendered,
)
    requires
        0 <= index < point.exemplars@.len(),
        index <= u32::MAX,
        point.timestamp_unix_nanos <= i64::MAX,
        point.exemplars@[index].timestamp_unix_nanos <= i64::MAX,
        forall|column: AnalyticsColumn| #[trigger]
            row.cell(column) == exemplar_cell(
        point,
        index,
        rendered,
        column,
    ),
    ensures
        row.tenant@ == point.identity.tenant@,
        row.signal@ == "metrics"@,
        row.timestamp_unix_nanos == point.exemplars@[index].timestamp_unix_nanos,
        row.partition == point.record_ref.topic_partition.partition_id.0,
        row.offset == point.record_ref.offset.0,
        field_spells(row.resource_id, point.identity.resource.identity().0 as nat, 32),
        field_spells(row.scope_id, point.identity.scope.identity().0 as nat, 32),
        row.resource_attributes@ == attributes_by_key(
            point.identity.resource.attributes@,
            rendered.resource_attributes@,
        ),
        row.scope_attributes@ == attributes_by_key(
            point.identity.scope.attributes@,
            rendered.scope_attributes@,
        ),
        row.resource_attribute_ids@ == ids_by_key(point.identity.resource.attributes@),
        row.scope_attribute_ids@ == ids_by_key(point.identity.scope.attributes@),
        same_field(row.resource_attributes_json, rendered.resource_attributes_json),
        same_field(row.scope_attributes_json, rendered.scope_attributes_json),
        field_spells(row.series_id, point.identity.series().0 as nat, 32),
        field_says(row.name, point.identity.name@),
        row.parent_timestamp_unix_nanos matches Some(time) && time == point.timestamp_unix_nanos,
        row.ordinal matches Some(ordinal) && ordinal == index,
        match point.exemplars@[index].trace_id {
            Some(id) => field_spells(row.trace_id, id.0 as nat, 32),
            None => row.trace_id is None,
        },
        match point.exemplars@[index].span_id {
            Some(id) => field_spells(row.span_id, id.0 as nat, 16),
            None => row.span_id is None,
        },
        number_shown(row, point.exemplars@[index].value),
        row.attributes@ == attributes_by_key(point.exemplars@[index].filtered_attributes@, rendered.attributes@),
        row.attribute_ids@ == ids_by_key(point.exemplars@[index].filtered_attributes@),
        same_field(row.attributes_json, rendered.attributes_json),
{
    let cells = |column: AnalyticsColumn| exemplar_cell(
        point,
        index,
        rendered,
        column,
    );
    identities_are_spelled(point.identity.resource.identity().0, 0);
    identities_are_spelled(point.identity.scope.identity().0, 0);
    identities_are_spelled(point.identity.series().0, 0);
    identities_are_spelled((match point.exemplars@[index].trace_id {
        Some(id) => id.0,
        None => 0,
    }), (match point.exemplars@[index].span_id {
        Some(id) => id.0,
        None => 0,
    }));
    assert(row.cell(AnalyticsColumn::Tenant) == cells(AnalyticsColumn::Tenant));
    assert(row.cell(AnalyticsColumn::Signal) == cells(AnalyticsColumn::Signal));
    assert(row.cell(AnalyticsColumn::Timestamp) == cells(AnalyticsColumn::Timestamp));
    assert(row.cell(AnalyticsColumn::Partition) == cells(AnalyticsColumn::Partition));
    assert(row.cell(AnalyticsColumn::Offset) == cells(AnalyticsColumn::Offset));
    assert(row.cell(AnalyticsColumn::ResourceId) == cells(AnalyticsColumn::ResourceId));
    assert(row.cell(AnalyticsColumn::ScopeId) == cells(AnalyticsColumn::ScopeId));
    assert(row.cell(AnalyticsColumn::ResourceAttributes) == cells(AnalyticsColumn::ResourceAttributes));
    assert(row.cell(AnalyticsColumn::ScopeAttributes) == cells(AnalyticsColumn::ScopeAttributes));
    assert(row.cell(AnalyticsColumn::ResourceAttributeIds) == cells(AnalyticsColumn::ResourceAttributeIds));
    assert(row.cell(AnalyticsColumn::ScopeAttributeIds) == cells(AnalyticsColumn::ScopeAttributeIds));
    assert(row.cell(AnalyticsColumn::ResourceAttributesJson) == cells(AnalyticsColumn::ResourceAttributesJson));
    assert(row.cell(AnalyticsColumn::ScopeAttributesJson) == cells(AnalyticsColumn::ScopeAttributesJson));
    assert(row.cell(AnalyticsColumn::SeriesId) == cells(AnalyticsColumn::SeriesId));
    assert(row.cell(AnalyticsColumn::Name) == cells(AnalyticsColumn::Name));
    assert(row.cell(AnalyticsColumn::ParentTimestamp) == cells(AnalyticsColumn::ParentTimestamp));
    assert(row.cell(AnalyticsColumn::Ordinal) == cells(AnalyticsColumn::Ordinal));
    assert(row.cell(AnalyticsColumn::TraceId) == cells(AnalyticsColumn::TraceId));
    assert(row.cell(AnalyticsColumn::SpanId) == cells(AnalyticsColumn::SpanId));
    assert(row.cell(AnalyticsColumn::ValueType) == cells(AnalyticsColumn::ValueType));
    assert(row.cell(AnalyticsColumn::ScalarInteger) == cells(AnalyticsColumn::ScalarInteger));
    assert(row.cell(AnalyticsColumn::ScalarDoubleBits) == cells(AnalyticsColumn::ScalarDoubleBits));
    assert(row.cell(AnalyticsColumn::Attributes) == cells(AnalyticsColumn::Attributes));
    assert(row.cell(AnalyticsColumn::AttributeIds) == cells(AnalyticsColumn::AttributeIds));
    assert(row.cell(AnalyticsColumn::AttributesJson) == cells(AnalyticsColumn::AttributesJson));
}

/// Whether a cell shows nothing: it is absent, or a map without pairs.
pub open spec fn shows_nothing(cell: Cell) -> bool {
    cell is Null || cell == Cell::TextMap(Map::empty())
}

/// Whether a column says where and when a record is.
pub open spec fn says_where(column: AnalyticsColumn) -> bool {
    ||| column is Tenant
    ||| column is Signal
    ||| column is Timestamp
    ||| column is Partition
    ||| column is Offset
}

/// A projected row shows the columns that were asked for, and where and when its
/// record is, as the full row does, and nothing in the others. The labels and the
/// metadata of a log are its fields below their prefixes. A metric value that is no
/// scalar is told by its type also where only a scalar was asked for.
pub proof fn projections_show_what_was_asked(
    tenant: Seq<char>,
    log: DurableLog,
    span: DurableSpan,
    point: DurableMetricPoint,
    rendered: Rendered,
    columns: Seq<AnalyticsColumn>,
    column: AnalyticsColumn,
)
    ensures
        columns.contains(column) || says_where(column) ==> {
            &&& projected_log_cell(tenant, log, columns, rendered, column) == log_cell(
                tenant,
                log,
                fields_below(log.fields@, "resource.loki.label."@),
                fields_below(log.fields@, "attr.loki.metadata."@),
                rendered,
                column,
            )
            &&& projected_span_cell(span, columns, rendered, column) == span_cell(
                span,
                rendered,
                column,
            )
            &&& projected_metric_cell(point, columns, rendered, column) == metric_cell(
                point,
                rendered,
                column,
            )
        },
        !columns.contains(column) && !says_where(column) ==> {
            &&& shows_nothing(projected_log_cell(tenant, log, columns, rendered, column))
            &&& shows_nothing(projected_span_cell(span, columns, rendered, column))
            &&& !(column is ValueType) ==> shows_nothing(
                projected_metric_cell(point, columns, rendered, column),
            )
        },
        !columns.contains(AnalyticsColumn::ValueType) ==> projected_metric_cell(
            point,
            columns,
            rendered,
            AnalyticsColumn::ValueType,
        ) == (if (columns.contains(AnalyticsColumn::ScalarInteger) || columns.contains(
            AnalyticsColumn::ScalarDoubleBits,
        )) && !(point.value is Gauge) && !(point.value is Sum) {
            Cell::Text(value_type_name(point.value))
        } else {
            Cell::Null
        }),
{
    reveal(names_column);
}

/// A span ends its duration after its start, where a time can say so.
pub proof fn spans_end_after_their_duration(span: DurableSpan)
    ensures
        match span.end_time() {
            Some(end) => end - span.start_time_unix_nanos == span.duration_nanos,
            None => span.start_time_unix_nanos > u64::MAX - span.duration_nanos,
        },
{
}

/// The rows of a relation name its signal.
pub proof fn rows_name_the_signal_of_their_relation(
    tenant: Seq<char>,
    log: DurableLog,
    span: DurableSpan,
    point: DurableMetricPoint,
    labels: Map<Seq<char>, Seq<char>>,
    metadata: Map<Seq<char>, Seq<char>>,
    rendered: Rendered,
    index: int,
)
    ensures
        log_cell(tenant, log, labels, metadata, rendered, AnalyticsColumn::Signal) == Cell::Text(
            AnalyticsRelation::Logs.parent_signal(),
        ),
        span_cell(span, rendered, AnalyticsColumn::Signal) == Cell::Text(
            AnalyticsRelation::Spans.parent_signal(),
        ),
        span_event_cell(span, index, rendered, AnalyticsColumn::Signal) == Cell::Text(
            AnalyticsRelation::SpanEvents.parent_signal(),
        ),
        span_link_cell(span, index, rendered, AnalyticsColumn::Signal) == Cell::Text(
            AnalyticsRelation::SpanLinks.parent_signal(),
        ),
        metric_cell(point, rendered, AnalyticsColumn::Signal) == Cell::Text(
            AnalyticsRelation::MetricPoints.parent_signal(),
        ),
        exemplar_cell(point, index, rendered, AnalyticsColumn::Signal) == Cell::Text(
            AnalyticsRelation::MetricExemplars.parent_signal(),
        ),
{
}

} // verus!
