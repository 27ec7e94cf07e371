//! A generated corpus of logs, spans and metric points.

use std::sync::Arc;

use vstd::bytes::spec_u64_to_le_bytes;
use vstd::prelude::*;

use crate::attributes::{
    canonical_attribute, canonical_attributes, sized_text, TelemetryAttribute, TelemetryValue,
};
use crate::dictionary::CompressionCohortId;
use crate::model::{
    LogicalOffset, LogicalPartitionId, ShardId, TelemetryRecordRef, TelemetrySignal, TopicId,
    TopicPartition, LOGS_TOPIC_ID, METRICS_TOPIC_ID, TRACES_TOPIC_ID,
};
use crate::records::{
    canonical_series, hex_text, DurableLog, DurableMetricPoint, DurableSpan, MetadataField, MetricIdentity,
    MetricKind, MetricValue, NumberValue, ResourceContext, ScopeContext, SpanId, SpanStatus,
    TraceId,
};
use crate::shared::share;
use crate::text::{decimal, hex_fixed, hex_padded, push_decimal, push_hex, push_hex_padded};

verus! {

/// Tenant of the corpus.
pub const TENANT: &'static str = "production-example";

/// Time of the first record.
pub const CORPUS_START: u64 = 1_785_700_000_000_000_000;

/// Partition of every record.
pub const CORPUS_PARTITION: u32 = 3;

/// Series of the metric points.
pub const CORPUS_SERIES: usize = 128;

/// Gauge values of the metric points.
pub const CORPUS_GAUGES: usize = 910;

/// Records that a corpus can hold before its times overflow.
pub const MAX_CORPUS_RECORDS: u64 = 140_000_000_000;

/// A number with its bits spread.
pub open spec fn mixed(value: u64) -> u64 {
    let first = (value ^ (value >> 30)).wrapping_mul(0xbf58_476d_1ce4_e5b9);
    let second = (first ^ (first >> 27)).wrapping_mul(0x94d0_49bb_1331_11eb);
    second ^ (second >> 31)
}

/// Spreads the bits of a number.
pub fn mix(value: u64) -> (result: u64)
    ensures
        result == mixed(value),
{
    let first = (value ^ (value >> 30)).wrapping_mul(0xbf58_476d_1ce4_e5b9);
    let second = (first ^ (first >> 27)).wrapping_mul(0x94d0_49bb_1331_11eb);
    second ^ (second >> 31)
}

/// The status of a record.
pub open spec fn status_of(ordinal: nat) -> i64 {
    if ordinal % 8 == 0 {
        200
    } else if ordinal % 8 == 1 {
        200
    } else if ordinal % 8 == 2 {
        200
    } else if ordinal % 8 == 3 {
        400
    } else if ordinal % 8 == 4 {
        404
    } else if ordinal % 8 == 5 {
        500
    } else if ordinal % 8 == 6 {
        502
    } else {
        503
    }
}

/// The status of a series.
pub open spec fn series_status(series: nat) -> i64 {
    if (series / 4) % 4 == 0 {
        200
    } else if (series / 4) % 4 == 1 {
        400
    } else if (series / 4) % 4 == 2 {
        404
    } else {
        500
    }
}

/// The route of a record.
pub open spec fn route_of(ordinal: nat) -> Seq<char> {
    if ordinal % 4 == 0 {
        "/checkout"@
    } else if ordinal % 4 == 1 {
        "/cart"@
    } else if ordinal % 4 == 2 {
        "/products"@
    } else {
        "/payment"@
    }
}

/// The name of a span.
pub open spec fn span_name_of(ordinal: nat) -> Seq<char> {
    if ordinal % 4 == 0 {
        "POST /checkout"@
    } else if ordinal % 4 == 1 {
        "GET /cart"@
    } else if ordinal % 4 == 2 {
        "GET /products"@
    } else {
        "POST /payment"@
    }
}

/// The trace of a record: eight records share one.
pub open spec fn trace_of(ordinal: nat) -> TraceId {
    TraceId((ordinal / 8 + 1) as u128)
}

/// The span of a record.
pub open spec fn span_of(ordinal: nat) -> SpanId {
    SpanId((ordinal + 1) as u64)
}

/// Text of a checkout.
#[verifier::opaque]
pub open spec fn checkout_text(ordinal: nat) -> Seq<char> {
    "completed POST "@ + route_of(ordinal) + " status="@ + decimal(status_of(ordinal) as nat)
        + " duration_ms="@ + decimal(4 + ordinal % 91) + " request_id="@ + hex_padded(
        mixed(ordinal as u64) as nat,
        16,
    )
}

/// Text of a reservation.
#[verifier::opaque]
pub open spec fn reservation_text(ordinal: nat) -> Seq<char> {
    "inventory reservation item="@ + decimal(ordinal % 10_003) + " warehouse="@ + decimal(
        ordinal % 17,
    ) + " quantity="@ + decimal(1 + ordinal % 5) + " trace="@ + hex_fixed(
        trace_of(ordinal).0 as nat,
        32,
    )
}

/// Text of a payment.
#[verifier::opaque]
pub open spec fn payment_text(ordinal: nat) -> Seq<char> {
    "payment authorization provider=stripe result="@ + (if status_of(ordinal) < 400 {
        "approved"@
    } else {
        "declined"@
    }) + " amount_cents="@ + decimal(100 + ordinal % 50_000) + " customer="@ + hex_padded(
        mixed((ordinal as u64) ^ 0xa5a5) as nat,
        12,
    )
}

/// Text of a checkpoint.
#[verifier::opaque]
pub open spec fn checkpoint_text(ordinal: nat) -> Seq<char> {
    "worker checkpoint partition="@ + decimal(ordinal % 256) + " offset="@ + decimal(ordinal * 97)
        + " lag_ms="@ + decimal(ordinal % 31) + " node=node-"@ + decimal(ordinal % 16)
}

/// The text of a record.
pub open spec fn message_of(ordinal: nat) -> Seq<char> {
    if ordinal % 4 == 0 {
        checkout_text(ordinal)
    } else if ordinal % 4 == 1 {
        reservation_text(ordinal)
    } else if ordinal % 4 == 2 {
        payment_text(ordinal)
    } else {
        checkpoint_text(ordinal)
    }
}

/// Whether an attribute maps a key to a text.
pub open spec fn says_text(attribute: TelemetryAttribute, key: Seq<char>, text: Seq<char>) -> bool {
    attribute.key@ == key && match attribute.value {
        Some(TelemetryValue::String(value)) => value@ == text,
        _ => false,
    }
}

/// Whether an attribute maps a key to an integer.
pub open spec fn says_integer(attribute: TelemetryAttribute, key: Seq<char>, number: i64) -> bool {
    attribute.key@ == key && attribute.value == Some(TelemetryValue::Integer(number))
}

/// Whether a field maps a name to a text.
pub open spec fn field_says(field: MetadataField, key: Seq<char>, value: Seq<char>) -> bool {
    field.key@ == key && field.value@ == value
}

/// Whether attributes are those of a record.
pub open spec fn record_attributes_say(attributes: Seq<TelemetryAttribute>, ordinal: nat) -> bool {
    &&& attributes.len() == 2
    &&& says_text(attributes[0], "http.route"@, route_of(ordinal))
    &&& says_integer(attributes[1], "http.response.status_code"@, status_of(ordinal))
}

/// Whether a resource is that of the corpus.
pub open spec fn corpus_resource(resource: ResourceContext) -> bool {
    &&& resource.attributes@.len() == 3
    &&& says_text(resource.attributes@[0], "service.name"@, "checkout-api"@)
    &&& says_text(resource.attributes@[1], "deployment.environment"@, "production"@)
    &&& says_text(resource.attributes@[2], "cloud.region"@, "us-east-1"@)
    &&& resource.dropped_attributes_count == 0
    &&& resource.schema_url@ == "https://opentelemetry.io/schemas/1.37.0"@
}

/// Whether a scope is that of the corpus.
pub open spec fn corpus_scope(scope: ScopeContext) -> bool {
    &&& scope.name@ == "checkout/http"@
    &&& scope.version@ == "2026.8.3"@
    &&& scope.attributes@.len() == 0
    &&& scope.dropped_attributes_count == 0
    &&& scope.schema_url@ == ""@
}

/// The reference to a record of the corpus.
pub open spec fn corpus_reference(signal: TelemetrySignal, ordinal: nat) -> TelemetryRecordRef {
    let topic = match signal {
        TelemetrySignal::Logs => LOGS_TOPIC_ID,
        TelemetrySignal::Traces => TRACES_TOPIC_ID,
        TelemetrySignal::Metrics => METRICS_TOPIC_ID,
    };
    TelemetryRecordRef {
        signal,
        topic_partition: TopicPartition {
            topic_id: TopicId(topic),
            partition_id: LogicalPartitionId(CORPUS_PARTITION),
        },
        offset: LogicalOffset(ordinal as u64),
    }
}

/// Whether fields are those of a log record.
pub open spec fn corpus_fields(
    fields: Seq<MetadataField>,
    ordinal: nat,
    resource: ResourceContext,
    scope: ScopeContext,
) -> bool {
    &&& fields.len() == 8
    &&& field_says(fields[0], "service.name"@, "checkout-api"@)
    &&& field_says(fields[1], "resource.service.name"@, "checkout-api"@)
    &&& field_says(fields[2], "attr.http.route"@, route_of(ordinal))
    &&& field_says(
        fields[3],
        "attr.http.response.status_code"@,
        decimal(status_of(ordinal) as nat),
    )
    &&& field_says(fields[4], "otel.trace_id"@, hex_fixed(trace_of(ordinal).0 as nat, 32))
    &&& field_says(fields[5], "otel.span_id"@, hex_fixed(span_of(ordinal).0 as nat, 16))
    &&& field_says(fields[6], "otel.resource.id"@, hex_fixed(resource.identity().0 as nat, 32))
    &&& field_says(fields[7], "otel.scope.id"@, hex_fixed(scope.identity().0 as nat, 32))
}

/// Whether a log is the record at a place of the corpus.
pub open spec fn corpus_log(
    log: DurableLog,
    ordinal: nat,
    resource: ResourceContext,
    scope: ScopeContext,
) -> bool {
    &&& log.stream_shard_id == ShardId(0)
    &&& log.record_ref == corpus_reference(TelemetrySignal::Logs, ordinal)
    &&& log.timestamp_unix_nanos == CORPUS_START + ordinal * 1_000_000
    &&& log.observed_timestamp_unix_nanos == CORPUS_START + ordinal * 1_000_000 + 5_000
    &&& match log.body {
        Some(TelemetryValue::String(text)) => text@ == message_of(ordinal),
        _ => false,
    }
    &&& log.message@ == message_of(ordinal)
    &&& log.event_name@ == ""@
    &&& corpus_fields(log.fields@, ordinal, resource, scope)
    &&& record_attributes_say(log.attributes@, ordinal)
    &&& *log.resource == resource
    &&& *log.scope == scope
    &&& log.severity_number == if status_of(ordinal) >= 500 {
        17
    } else {
        9int
    }
    &&& log.severity_text@ == if status_of(ordinal) >= 500 {
        "ERROR"@
    } else {
        "INFO"@
    }
    &&& log.dropped_attributes_count == 0
    &&& log.flags == 0
    &&& log.trace_id == Some(trace_of(ordinal))
    &&& log.span_id == Some(span_of(ordinal))
    &&& log.compression_cohort == CompressionCohortId(7)
}

/// Whether a span is the record at a place of the corpus.
pub open spec fn corpus_span(
    span: DurableSpan,
    ordinal: nat,
    resource: ResourceContext,
    scope: ScopeContext,
) -> bool {
    &&& span.stream_shard_id == ShardId(0)
    &&& span.record_ref == corpus_reference(TelemetrySignal::Traces, ordinal)
    &&& span.tenant@ == TENANT@
    &&& *span.resource == resource
    &&& *span.scope == scope
    &&& span.trace_id == trace_of(ordinal)
    &&& span.span_id == span_of(ordinal)
    &&& span.parent_span_id == if ordinal % 8 == 0 {
        None::<SpanId>
    } else {
        Some(SpanId(ordinal as u64))
    }
    &&& span.trace_state@ == "vendor=production"@
    &&& span.flags == 1
    &&& span.name@ == span_name_of(ordinal)
    &&& span.kind == 2
    &&& span.start_time_unix_nanos == CORPUS_START + ordinal * 1_000_000
    &&& span.duration_nanos == (4 + ordinal % 91) * 1_000_000
    &&& record_attributes_say(span.attributes@, ordinal)
    &&& span.dropped_attributes_count == 0
    &&& span.events@.len() == 0
    &&& span.dropped_events_count == 0
    &&& span.links@.len() == 0
    &&& span.dropped_links_count == 0
    &&& match span.status {
        Some(status) => status.message@ == (if status_of(ordinal) >= 500 {
            "upstream failure"@
        } else {
            ""@
        }) && status.code == if status_of(ordinal) >= 500 {
            2
        } else {
            1int
        },
        None => false,
    }
}

/// Whether attributes are those of a series.
pub open spec fn series_attributes_say(attributes: Seq<TelemetryAttribute>, series: nat) -> bool {
    &&& attributes.len() == 4
    &&& says_text(attributes[0], "http.route"@, route_of(series))
    &&& says_integer(attributes[1], "http.response.status_code"@, series_status(series))
    &&& says_text(attributes[2], "instance"@, "node-"@ + decimal(series % 16))
    &&& says_integer(attributes[3], "benchmark.series"@, series as i64)
}

/// Whether a series is one of the corpus.
pub open spec fn corpus_series(
    identity: MetricIdentity,
    series: nat,
    resource: ResourceContext,
    scope: ScopeContext,
) -> bool {
    &&& identity.tenant@ == TENANT@
    &&& *identity.resource == resource
    &&& *identity.scope == scope
    &&& identity.name@ == "http.server.request.duration"@
    &&& identity.unit@ == "ms"@
    &&& identity.kind == MetricKind::Gauge
    &&& series_attributes_say(identity.point_attributes@, series)
}

/// Whether a point is the record at a place of the corpus.
pub open spec fn corpus_point(
    point: DurableMetricPoint,
    ordinal: nat,
    resource: ResourceContext,
    scope: ScopeContext,
    gauge_bits: Seq<u64>,
) -> bool {
    &&& point.stream_shard_id == ShardId(0)
    &&& point.record_ref == corpus_reference(TelemetrySignal::Metrics, ordinal)
    &&& corpus_series(*point.identity, ordinal % CORPUS_SERIES as nat, resource, scope)
    &&& point.description@ == "HTTP server request duration"@
    &&& point.metadata@.len() == 0
    &&& point.start_time_unix_nanos == CORPUS_START
    &&& point.timestamp_unix_nanos == CORPUS_START + (ordinal / CORPUS_SERIES as nat)
        * 15_000_000_000
    &&& point.flags == 0
    &&& point.value == MetricValue::Gauge(
        NumberValue::DoubleBits(gauge_bits[((ordinal * 17) % CORPUS_GAUGES as nat) as int]),
    )
    &&& point.exemplars@.len() == 0
}

proof fn lemma_series_bytes(attributes: Seq<TelemetryAttribute>, series: nat)
    requires
        series_attributes_say(attributes, series),
    ensures
        canonical_attributes(attributes) == series_bytes(series),
{
    let first = attributes.take(1);
    let second = attributes.take(2);
    let third = attributes.take(3);
    assert(attributes.drop_last() =~= third);
    assert(third.drop_last() =~= second);
    assert(second.drop_last() =~= first);
    assert(first.drop_last() =~= Seq::<TelemetryAttribute>::empty());
    assert(canonical_attributes(first.drop_last()) == Seq::<u8>::empty());
    assert(canonical_attributes(first) == Seq::<u8>::empty() + canonical_attribute(attributes[0]));
    assert(canonical_attributes(second) == canonical_attributes(first) + canonical_attribute(
        attributes[1],
    ));
    assert(canonical_attributes(third) == canonical_attributes(second) + canonical_attribute(
        attributes[2],
    ));
    assert(canonical_attributes(attributes) == canonical_attributes(third) + canonical_attribute(
        attributes[3],
    ));
    assert(canonical_attributes(attributes) =~= series_bytes(series));
}

/// The canonical bytes of the labels of a series.
pub open spec fn series_bytes(series: nat) -> Seq<u8> {
    sized_text("http.route"@) + (seq![2u8] + sized_text(route_of(series))) + sized_text(
        "http.response.status_code"@,
    ) + (seq![4u8] + spec_u64_to_le_bytes(series_status(series) as u64)) + sized_text("instance"@)
        + (seq![2u8] + sized_text("node-"@ + decimal(series % 16))) + sized_text(
        "benchmark.series"@,
    ) + (seq![4u8] + spec_u64_to_le_bytes((series as i64) as u64))
}

/// Points of one series number share a fingerprint, and points of two numbers
/// differ in the bytes behind it.
pub proof fn series_follow_their_number(
    left: MetricIdentity,
    right: MetricIdentity,
    first: nat,
    second: nat,
    resource: ResourceContext,
    scope: ScopeContext,
)
    requires
        corpus_series(left, first, resource, scope),
        corpus_series(right, second, resource, scope),
        first < CORPUS_SERIES,
        second < CORPUS_SERIES,
    ensures
        first == second ==> left.series() == right.series(),
        first != second ==> canonical_series(left) != canonical_series(right),
{
    lemma_series_bytes(left.point_attributes@, first);
    lemma_series_bytes(right.point_attributes@, second);
    if first == second {
        assert(canonical_series(left) =~= canonical_series(right));
    } else if canonical_series(left) == canonical_series(right) {
        crate::wire::fields_read_back();
        let (a, b) = (canonical_series(left), canonical_series(right));
        let (x, y) = ((first as i64) as u64, (second as i64) as u64);
        assert(a.skip(a.len() - 8) =~= spec_u64_to_le_bytes(x));
        assert(b.skip(b.len() - 8) =~= spec_u64_to_le_bytes(y));
    }
}

fn status_at(ordinal: u64) -> (status: i64)
    ensures
        status == status_of(ordinal as nat),
{
    match ordinal % 8 {
        0 => 200,
        1 => 200,
        2 => 200,
        3 => 400,
        4 => 404,
        5 => 500,
        6 => 502,
        _ => 503,
    }
}

fn series_status_at(series: u64) -> (status: i64)
    ensures
        status == series_status(series as nat),
{
    match (series / 4) % 4 {
        0 => 200,
        1 => 400,
        2 => 404,
        _ => 500,
    }
}

fn route_at(ordinal: u64) -> (route: &'static str)
    ensures
        route@ == route_of(ordinal as nat),
{
    match ordinal % 4 {
        0 => "/checkout",
        1 => "/cart",
        2 => "/products",
        _ => "/payment",
    }
}

fn span_name_at(ordinal: u64) -> (name: &'static str)
    ensures
        name@ == span_name_of(ordinal as nat),
{
    match ordinal % 4 {
        0 => "POST /checkout",
        1 => "GET /cart",
        2 => "GET /products",
        _ => "POST /payment",
    }
}

fn write_checkout(ordinal: u64) -> (text: String)
    ensures
        text@ == checkout_text(ordinal as nat),
{
    let mut text = "completed POST ".to_owned();
    text.append(route_at(ordinal));
    text.append(" status=");
    push_decimal(&mut text, status_at(ordinal) as u128);
    text.append(" duration_ms=");
    push_decimal(&mut text, (4 + ordinal % 91) as u128);
    text.append(" request_id=");
    push_hex_padded(&mut text, mix(ordinal) as u128, 16);
    proof {
        reveal(checkout_text);
        assert(text@ =~= checkout_text(ordinal as nat));
    }
    text
}

fn write_reservation(ordinal: u64) -> (text: String)
    ensures
        text@ == reservation_text(ordinal as nat),
{
    let mut text = "inventory reservation item=".to_owned();
    push_decimal(&mut text, (ordinal % 10_003) as u128);
    text.append(" warehouse=");
    push_decimal(&mut text, (ordinal % 17) as u128);
    text.append(" quantity=");
    push_decimal(&mut text, (1 + ordinal % 5) as u128);
    text.append(" trace=");
    push_hex(&mut text, (ordinal / 8 + 1) as u128, 32);
    proof {
        reveal(reservation_text);
        assert(text@ =~= reservation_text(ordinal as nat));
    }
    text
}

fn write_payment(ordinal: u64) -> (text: String)
    ensures
        text@ == payment_text(ordinal as nat),
{
    let mut text = "payment authorization provider=stripe result=".to_owned();
    if status_at(ordinal) < 400 {
        text.append("approved");
    } else {
        text.append("declined");
    }
    text.append(" amount_cents=");
    push_decimal(&mut text, (100 + ordinal % 50_000) as u128);
    text.append(" customer=");
    push_hex_padded(&mut text, mix(ordinal ^ 0xa5a5) as u128, 12);
    proof {
        reveal(payment_text);
        assert(text@ =~= payment_text(ordinal as nat));
    }
    text
}

fn write_checkpoint(ordinal: u64) -> (text: String)
    requires
        ordinal < MAX_CORPUS_RECORDS,
    ensures
        text@ == checkpoint_text(ordinal as nat),
{
    let mut text = "worker checkpoint partition=".to_owned();
    push_decimal(&mut text, (ordinal % 256) as u128);
    text.append(" offset=");
    push_decimal(&mut text, (ordinal * 97) as u128);
    text.append(" lag_ms=");
    push_decimal(&mut text, (ordinal % 31) as u128);
    text.append(" node=node-");
    push_decimal(&mut text, (ordinal % 16) as u128);
    proof {
        reveal(checkpoint_text);
        assert(text@ =~= checkpoint_text(ordinal as nat));
    }
    text
}

fn write_message(ordinal: u64) -> (text: String)
    requires
        ordinal < MAX_CORPUS_RECORDS,
    ensures
        text@ == message_of(ordinal as nat),
{
    match ordinal % 4 {
        0 => write_checkout(ordinal),
        1 => write_reservation(ordinal),
        2 => write_payment(ordinal),
        _ => write_checkpoint(ordinal),
    }
}

fn text_attribute(key: &str, text: &str) -> (attribute: TelemetryAttribute)
    ensures
        says_text(attribute, key@, text@),
{
    TelemetryAttribute::new(key, TelemetryValue::String(text.to_owned()))
}

fn integer_attribute(key: &str, number: i64) -> (attribute: TelemetryAttribute)
    ensures
        says_integer(attribute, key@, number),
{
    TelemetryAttribute::new(key, TelemetryValue::Integer(number))
}

fn record_attributes(ordinal: u64) -> (attributes: Vec<TelemetryAttribute>)
    ensures
        record_attributes_say(attributes@, ordinal as nat),
{
    let mut attributes: Vec<TelemetryAttribute> = Vec::new();
    attributes.push(text_attribute("http.route", route_at(ordinal)));
    attributes.push(integer_attribute("http.response.status_code", status_at(ordinal)));
    attributes
}

fn make_resource() -> (resource: ResourceContext)
    ensures
        corpus_resource(resource),
{
    let mut attributes: Vec<TelemetryAttribute> = Vec::new();
    attributes.push(text_attribute("service.name", "checkout-api"));
    attributes.push(text_attribute("deployment.environment", "production"));
    attributes.push(text_attribute("cloud.region", "us-east-1"));
    ResourceContext {
        attributes: Arc::new(attributes),
        dropped_attributes_count: 0,
        schema_url: "https://opentelemetry.io/schemas/1.37.0".to_owned(),
    }
}

fn make_scope() -> (scope: ScopeContext)
    ensures
        corpus_scope(scope),
{
    ScopeContext {
        name: "checkout/http".to_owned(),
        version: "2026.8.3".to_owned(),
        attributes: Arc::new(Vec::new()),
        dropped_attributes_count: 0,
        schema_url: "".to_owned(),
    }
}

fn make_reference(signal: TelemetrySignal, ordinal: u64) -> (reference: TelemetryRecordRef)
    ensures
        reference == corpus_reference(signal, ordinal as nat),
{
    let topic = match signal {
        TelemetrySignal::Logs => LOGS_TOPIC_ID,
        TelemetrySignal::Traces => TRACES_TOPIC_ID,
        TelemetrySignal::Metrics => METRICS_TOPIC_ID,
    };
    let partition = TopicPartition::new(
        TopicId::new(topic),
        LogicalPartitionId::new(CORPUS_PARTITION),
    );
    TelemetryRecordRef::for_signal(signal, partition, LogicalOffset::new(ordinal))
}

fn make_fields(ordinal: u64, resource: &ResourceContext, scope: &ScopeContext) -> (fields: Vec<
    MetadataField,
>)
    requires
        ordinal < MAX_CORPUS_RECORDS,
    ensures
        corpus_fields(fields@, ordinal as nat, *resource, *scope),
{
    let mut status = String::new();
    push_decimal(&mut status, status_at(ordinal) as u128);
    assert(status@ =~= decimal(status_of(ordinal as nat) as nat));
    let trace = TraceId((ordinal / 8 + 1) as u128).text();
    let span = SpanId(ordinal + 1).text();
    let resource_id = hex_text(resource.id().0, 32);
    let scope_id = hex_text(scope.id().0, 32);
    let mut fields: Vec<MetadataField> = Vec::new();
    fields.push(MetadataField::new("service.name", "checkout-api"));
    fields.push(MetadataField::new("resource.service.name", "checkout-api"));
    fields.push(MetadataField::new("attr.http.route", route_at(ordinal)));
    fields.push(MetadataField::new("attr.http.response.status_code", status.as_str()));
    fields.push(MetadataField::new("otel.trace_id", trace.as_str()));
    fields.push(MetadataField::new("otel.span_id", span.as_str()));
    fields.push(MetadataField::new("otel.resource.id", resource_id.as_str()));
    fields.push(MetadataField::new("otel.scope.id", scope_id.as_str()));
    fields
}

fn make_log(
    ordinal: u64,
    resource: &Arc<ResourceContext>,
    scope: &Arc<ScopeContext>,
    attributes: &Arc<Vec<TelemetryAttribute>>,
) -> (log: DurableLog)
    requires
        ordinal < MAX_CORPUS_RECORDS,
        record_attributes_say(attributes@, ordinal as nat),
    ensures
        corpus_log(log, ordinal as nat, **resource, **scope),
{
    let status = status_at(ordinal);
    let message = write_message(ordinal);
    DurableLog {
        stream_shard_id: ShardId::new(0),
        record_ref: make_reference(TelemetrySignal::Logs, ordinal),
        timestamp_unix_nanos: CORPUS_START + ordinal * 1_000_000,
        observed_timestamp_unix_nanos: CORPUS_START + ordinal * 1_000_000 + 5_000,
        body: Some(TelemetryValue::String(message.clone())),
        message,
        event_name: "".to_owned(),
        fields: Arc::new(make_fields(ordinal, resource, scope)),
        attributes: share(attributes),
        resource: share(resource),
        scope: share(scope),
        severity_number: if status >= 500 {
            17
        } else {
            9
        },
        severity_text: if status >= 500 {
            "ERROR".to_owned()
        } else {
            "INFO".to_owned()
        },
        dropped_attributes_count: 0,
        flags: 0,
        trace_id: Some(TraceId((ordinal / 8 + 1) as u128)),
        span_id: Some(SpanId(ordinal + 1)),
        compression_cohort: CompressionCohortId::new(7),
    }
}

fn make_span(
    ordinal: u64,
    resource: &Arc<ResourceContext>,
    scope: &Arc<ScopeContext>,
    attributes: &Arc<Vec<TelemetryAttribute>>,
) -> (span: DurableSpan)
    requires
        ordinal < MAX_CORPUS_RECORDS,
        record_attributes_say(attributes@, ordinal as nat),
    ensures
        corpus_span(span, ordinal as nat, **resource, **scope),
{
    let failed = status_at(ordinal) >= 500;
    DurableSpan {
        stream_shard_id: ShardId::new(0),
        record_ref: make_reference(TelemetrySignal::Traces, ordinal),
        tenant: TENANT.to_owned(),
        resource: share(resource),
        scope: share(scope),
        trace_id: TraceId((ordinal / 8 + 1) as u128),
        span_id: SpanId(ordinal + 1),
        parent_span_id: if ordinal % 8 == 0 {
            None
        } else {
            Some(SpanId(ordinal))
        },
        trace_state: "vendor=production".to_owned(),
        flags: 1,
        name: span_name_at(ordinal).to_owned(),
        kind: 2,
        start_time_unix_nanos: CORPUS_START + ordinal * 1_000_000,
        duration_nanos: (4 + ordinal % 91) * 1_000_000,
        attributes: share(attributes),
        dropped_attributes_count: 0,
        events: Arc::new(Vec::new()),
        dropped_events_count: 0,
        links: Arc::new(Vec::new()),
        dropped_links_count: 0,
        status: Some(
            SpanStatus {
                message: if failed {
                    "upstream failure".to_owned()
                } else {
                    "".to_owned()
                },
                code: if failed {
                    2
                } else {
                    1
                },
            },
        ),
    }
}

fn make_series(series: u64, resource: &Arc<ResourceContext>, scope: &Arc<ScopeContext>) -> (identity:
    MetricIdentity)
    requires
        series < CORPUS_SERIES,
    ensures
        corpus_series(identity, series as nat, **resource, **scope),
{
    let mut node = "node-".to_owned();
    push_decimal(&mut node, (series % 16) as u128);
    let mut attributes: Vec<TelemetryAttribute> = Vec::new();
    attributes.push(text_attribute("http.route", route_at(series)));
    attributes.push(integer_attribute("http.response.status_code", series_status_at(series)));
    attributes.push(text_attribute("instance", node.as_str()));
    attributes.push(integer_attribute("benchmark.series", series as i64));
    MetricIdentity {
        tenant: TENANT.to_owned(),
        resource: share(resource),
        scope: share(scope),
        name: "http.server.request.duration".to_owned(),
        unit: "ms".to_owned(),
        kind: MetricKind::Gauge,
        point_attributes: Arc::new(attributes),
    }
}

fn make_point(
    ordinal: u64,
    resource: &Arc<ResourceContext>,
    scope: &Arc<ScopeContext>,
    gauge_bits: &Vec<u64>,
) -> (point: DurableMetricPoint)
    requires
        ordinal < MAX_CORPUS_RECORDS,
        gauge_bits@.len() == CORPUS_GAUGES,
    ensures
        corpus_point(point, ordinal as nat, **resource, **scope, gauge_bits@),
{
    let series = ordinal % 128;
    let gauge = ((ordinal * 17) % 910) as usize;
    DurableMetricPoint {
        stream_shard_id: ShardId::new(0),
        record_ref: make_reference(TelemetrySignal::Metrics, ordinal),
        identity: Arc::new(make_series(series, resource, scope)),
        description: "HTTP server request duration".to_owned(),
        metadata: Arc::new(Vec::new()),
        start_time_unix_nanos: CORPUS_START,
        timestamp_unix_nanos: CORPUS_START + (ordinal / 128) * 15_000_000_000,
        flags: 0,
        value: MetricValue::Gauge(NumberValue::DoubleBits(gauge_bits[gauge])),
        exemplars: Arc::new(Vec::new()),
    }
}

/// Logs, spans and points over one resource.
#[derive(Debug)]
pub struct Corpus {
    /// Log records.
    pub durable_logs: Vec<DurableLog>,
    /// Spans.
    pub spans: Vec<DurableSpan>,
    /// Metric points.
    pub points: Vec<DurableMetricPoint>,
    /// Resource of every record.
    pub resource: Arc<ResourceContext>,
    /// Attribute that names the service.
    pub label: TelemetryAttribute,
}

impl Corpus {
    /// Whether this is the corpus of some length.
    pub open spec fn generated(
        self,
        count: nat,
        scope: ScopeContext,
        gauge_bits: Seq<u64>,
    ) -> bool {
        &&& corpus_resource(*self.resource)
        &&& corpus_scope(scope)
        &&& says_text(self.label, "service.name"@, "checkout-api"@)
        &&& self.durable_logs@.len() == count
        &&& self.spans@.len() == count
        &&& self.points@.len() == count
        &&& forall|i: int|
            0 <= i < count ==> corpus_log(
                #[trigger] self.durable_logs@[i],
                i as nat,
                *self.resource,
                scope,
            )
        &&& forall|i: int|
            0 <= i < count ==> corpus_span(#[trigger] self.spans@[i], i as nat, *self.resource, scope)
        &&& forall|i: int|
            0 <= i < count ==> corpus_point(
                #[trigger] self.points@[i],
                i as nat,
                *self.resource,
                scope,
                gauge_bits,
            )
    }

    /// Generates a corpus. `gauge_bits` holds the bits of the doubles from 4 to
    /// 94.9, a tenth apart, that the points take in turn.
    pub fn generate(count: usize, gauge_bits: &Vec<u64>) -> (corpus: Self)
        requires
            count <= MAX_CORPUS_RECORDS,
            gauge_bits@.len() == CORPUS_GAUGES,
        ensures
            exists|scope: ScopeContext| #[trigger] corpus.generated(count as nat, scope, gauge_bits@),
    {
        let resource = Arc::new(make_resource());
        let scope = Arc::new(make_scope());
        let mut corpus = Corpus {
            durable_logs: Vec::new(),
            spans: Vec::new(),
            points: Vec::new(),
            resource: share(&resource),
            label: text_attribute("service.name", "checkout-api"),
        };
        let mut ordinal: usize = 0;
        while ordinal < count
            invariant
                ordinal <= count <= MAX_CORPUS_RECORDS,
                gauge_bits@.len() == CORPUS_GAUGES,
                corpus.resource == resource,
                corpus.generated(ordinal as nat, *scope, gauge_bits@),
            decreases count - ordinal,
        {
            let attributes = Arc::new(record_attributes(ordinal as u64));
            let log = make_log(ordinal as u64, &resource, &scope, &attributes);
            let span = make_span(ordinal as u64, &resource, &scope, &attributes);
            let point = make_point(ordinal as u64, &resource, &scope, gauge_bits);
            corpus.durable_logs.push(log);
            corpus.spans.push(span);
            corpus.points.push(point);
            ordinal = ordinal + 1;
        }
        assert(corpus.generated(count as nat, *scope, gauge_bits@));
        corpus
    }
}

} // verus!
