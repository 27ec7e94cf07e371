//! Corpus records as RowBinary rows, and the answers that lookups should give.

use vstd::bytes::{spec_u32_to_le_bytes, spec_u64_to_le_bytes};
use vstd::prelude::*;
use vstd::utf8::encode_utf8;

use crate::attributes::{TelemetryAttribute, TelemetryValue};
use crate::records::{
    DurableMetricPoint, DurableSpan, MetricExemplar, MetricValue, NumberValue, ResourceContextId,
    SeriesFingerprint, TraceId,
};
use crate::structural_report::{push_number, report_line};
use crate::template_encoder::{counted, push_counted};
use crate::text::{decimal, hex_fixed, push_decimal, push_hex, same_str};
use crate::wire::{push_u128, push_u32, push_u64, u128_le};

verus! {

/// The low bytes of a number, the highest first.
pub open spec fn be_bytes(value: nat, width: nat) -> Seq<u8>
    decreases width,
{
    if width == 0 {
        Seq::empty()
    } else {
        be_bytes(value / 256, (width - 1) as nat).push((value % 256) as u8)
    }
}

/// Appends the low bytes of a number, the highest first.
pub fn push_be(output: &mut Vec<u8>, value: u128, width: usize)
    ensures
        final(output)@ == old(output)@ + be_bytes(value as nat, width as nat),
    decreases width,
{
    if width > 0 {
        push_be(output, value / 256, width - 1);
        output.push((value % 256) as u8);
    }
    assert(output@ =~= old(output)@ + be_bytes(value as nat, width as nat));
}

/// Bytes that may be missing: a mark, then the bytes.
pub open spec fn nullable(bytes: Option<Seq<u8>>) -> Seq<u8> {
    match bytes {
        Some(bytes) => seq![0u8] + bytes,
        None => seq![1u8],
    }
}

/// The first attribute with a key.
pub open spec fn attribute_named(attributes: Seq<TelemetryAttribute>, key: Seq<char>) -> Option<
    Option<TelemetryValue>,
>
    decreases attributes.len(),
{
    if attributes.len() == 0 {
        None
    } else if attributes[0].key@ == key {
        Some(attributes[0].value)
    } else {
        attribute_named(attributes.drop_first(), key)
    }
}

/// The bytes of a text attribute, or none.
pub open spec fn text_bytes(attributes: Seq<TelemetryAttribute>, key: Seq<char>) -> Seq<u8> {
    match attribute_named(attributes, key) {
        Some(Some(TelemetryValue::String(text))) => encode_utf8(text@),
        _ => Seq::empty(),
    }
}

/// The number of an integer attribute.
pub open spec fn integer_of(attributes: Seq<TelemetryAttribute>, key: Seq<char>) -> Option<i64> {
    match attribute_named(attributes, key) {
        Some(Some(TelemetryValue::Integer(number))) => Some(number),
        _ => None,
    }
}

fn find_attribute<'a>(attributes: &'a Vec<TelemetryAttribute>, key: &str) -> (found: Option<
    &'a TelemetryAttribute,
>)
    ensures
        match found {
            Some(attribute) => attribute_named(attributes@, key@) == Some(attribute.value),
            None => attribute_named(attributes@, key@) is None,
        },
{
    let mut index: usize = 0;
    assert(attributes@.skip(0) =~= attributes@);
    while index < attributes.len()
        invariant
            index <= attributes@.len(),
            attribute_named(attributes@, key@) == attribute_named(
                attributes@.skip(index as int),
                key@,
            ),
        decreases attributes@.len() - index,
    {
        assert(attributes@.skip(index as int)[0] == attributes@[index as int]);
        assert(attributes@.skip(index as int).drop_first() =~= attributes@.skip(index + 1));
        if same_str(attributes[index].key.as_str(), key) {
            return Some(&attributes[index]);
        }
        index = index + 1;
    }
    assert(attributes@.skip(index as int).len() == 0);
    None
}

/// The text of an attribute, or none.
pub fn attribute_string<'a>(attributes: &'a Vec<TelemetryAttribute>, key: &str) -> (text: &'a [u8])
    ensures
        text@ == text_bytes(attributes@, key@),
{
    if let Some(attribute) = find_attribute(attributes, key) {
        if let Some(TelemetryValue::String(text)) = &attribute.value {
            return text.as_str().as_bytes();
        }
    }
    proof {
        reveal_strlit("");
        vstd::utf8::is_ascii_chars_encode_utf8(""@);
        assert(encode_utf8(""@) =~= Seq::<u8>::empty());
    }
    "".as_bytes()
}

/// The integer of an attribute.
pub fn attribute_integer(attributes: &Vec<TelemetryAttribute>, key: &str) -> (number: Option<i64>)
    ensures
        number == integer_of(attributes@, key@),
{
    if let Some(attribute) = find_attribute(attributes, key) {
        if let Some(TelemetryValue::Integer(number)) = &attribute.value {
            return Some(*number);
        }
    }
    None
}

/// Identity and times of a span row.
#[verifier::opaque]
pub open spec fn trace_head(span: DurableSpan) -> Seq<u8> {
    counted(encode_utf8(span.tenant@)) + be_bytes(span.trace_id.0 as nat, 16) + be_bytes(
        span.span_id.0 as nat,
        8,
    ) + nullable(
        match span.parent_span_id {
            Some(parent) => Some(be_bytes(parent.0 as nat, 8)),
            None => None,
        },
    ) + spec_u64_to_le_bytes(span.record_ref.offset.0) + spec_u64_to_le_bytes(
        span.start_time_unix_nanos,
    ) + spec_u64_to_le_bytes(span.duration_nanos)
}

/// The rest of a span row.
#[verifier::opaque]
pub open spec fn trace_tail(span: DurableSpan, raw: Seq<u8>) -> Seq<u8> {
    counted(encode_utf8(span.name@)) + spec_u32_to_le_bytes(span.kind as u32)
        + spec_u32_to_le_bytes(
        (match span.status {
            Some(status) => status.code,
            None => 0,
        }) as u32,
    ) + u128_le(span.resource.identity().0) + u128_le(span.scope.identity().0) + counted(
        text_bytes(span.resource.attributes@, "service.name"@),
    ) + counted(text_bytes(span.resource.attributes@, "deployment.environment"@)) + counted(
        text_bytes(span.attributes@, "http.route"@),
    ) + spec_u64_to_le_bytes(
        (match integer_of(span.attributes@, "http.response.status_code"@) {
            Some(status) => status,
            None => 0,
        }) as u64,
    ) + counted(raw)
}

/// The row of a span.
pub open spec fn trace_row(span: DurableSpan, raw: Seq<u8>) -> Seq<u8> {
    trace_head(span) + trace_tail(span, raw)
}

fn push_trace_head(output: &mut Vec<u8>, span: &DurableSpan)
    ensures
        final(output)@ == old(output)@ + trace_head(*span),
{
    push_counted(output, span.tenant.as_str().as_bytes());
    push_be(output, span.trace_id.0, 16);
    push_be(output, span.span_id.0 as u128, 8);
    match span.parent_span_id {
        Some(parent) => {
            output.push(0);
            push_be(output, parent.0 as u128, 8);
        },
        None => {
            output.push(1);
        },
    }
    push_u64(output, span.record_ref.offset.0);
    push_u64(output, span.start_time_unix_nanos);
    push_u64(output, span.duration_nanos);
    proof {
        reveal(trace_head);
        assert(output@ =~= old(output)@ + trace_head(*span));
    }
}

fn push_trace_tail(output: &mut Vec<u8>, span: &DurableSpan, raw: &[u8])
    ensures
        final(output)@ == old(output)@ + trace_tail(*span, raw@),
{
    let code = match &span.status {
        Some(status) => status.code,
        None => 0,
    };
    let status = match attribute_integer(&span.attributes, "http.response.status_code") {
        Some(status) => status,
        None => 0,
    };
    push_counted(output, span.name.as_str().as_bytes());
    push_u32(output, span.kind as u32);
    push_u32(output, code as u32);
    push_u128(output, span.resource_id().0);
    push_u128(output, span.scope_id().0);
    push_counted(output, attribute_string(&span.resource.attributes, "service.name"));
    push_counted(output, attribute_string(&span.resource.attributes, "deployment.environment"));
    push_counted(output, attribute_string(&span.attributes, "http.route"));
    push_u64(output, status as u64);
    push_counted(output, raw);
    proof {
        reveal(trace_tail);
        assert(output@ =~= old(output)@ + trace_tail(*span, raw@));
    }
}

/// Appends the row of a span.
pub fn write_trace_row(output: &mut Vec<u8>, span: &DurableSpan, raw: &[u8])
    ensures
        final(output)@ == old(output)@ + trace_row(*span, raw@),
{
    push_trace_head(output, span);
    push_trace_tail(output, span, raw);
    assert(output@ =~= old(output)@ + trace_row(*span, raw@));
}

/// The first trace that exemplars name.
pub open spec fn exemplar_trace(exemplars: Seq<MetricExemplar>) -> Option<TraceId>
    decreases exemplars.len(),
{
    if exemplars.len() == 0 {
        None
    } else if exemplars[0].trace_id is Some {
        exemplars[0].trace_id
    } else {
        exemplar_trace(exemplars.drop_first())
    }
}

fn find_exemplar_trace(exemplars: &Vec<MetricExemplar>) -> (trace: Option<TraceId>)
    ensures
        trace == exemplar_trace(exemplars@),
{
    let mut index: usize = 0;
    assert(exemplars@.skip(0) =~= exemplars@);
    while index < exemplars.len()
        invariant
            index <= exemplars@.len(),
            exemplar_trace(exemplars@) == exemplar_trace(exemplars@.skip(index as int)),
        decreases exemplars@.len() - index,
    {
        assert(exemplars@.skip(index as int)[0] == exemplars@[index as int]);
        assert(exemplars@.skip(index as int).drop_first() =~= exemplars@.skip(index + 1));
        if exemplars[index].trace_id.is_some() {
            return exemplars[index].trace_id;
        }
        index = index + 1;
    }
    assert(exemplars@.skip(index as int).len() == 0);
    None
}

/// Bits of the double that a gauge holds, given those of its integer.
pub open spec fn gauge_bits(value: MetricValue, integer_bits: u64) -> Option<u64> {
    match value {
        MetricValue::Gauge(NumberValue::DoubleBits(bits)) => Some(bits),
        MetricValue::Gauge(NumberValue::Integer(_)) => Some(integer_bits),
        _ => None,
    }
}

/// Identity and times of a point row.
#[verifier::opaque]
pub open spec fn metric_head(point: DurableMetricPoint) -> Seq<u8> {
    counted(encode_utf8(point.identity.tenant@)) + u128_le(point.identity.series().0)
        + spec_u64_to_le_bytes(point.record_ref.offset.0) + spec_u64_to_le_bytes(
        point.timestamp_unix_nanos,
    ) + spec_u64_to_le_bytes(point.start_time_unix_nanos) + counted(
        encode_utf8(point.identity.name@),
    ) + counted(encode_utf8(point.identity.unit@)) + counted(encode_utf8("gauge"@)) + u128_le(
        point.identity.resource.identity().0,
    ) + u128_le(point.identity.scope.identity().0)
}

/// Labels of a point row.
#[verifier::opaque]
pub open spec fn metric_labels(point: DurableMetricPoint) -> Seq<u8> {
    let resource = point.identity.resource.attributes@;
    let labels = point.identity.point_attributes@;
    counted(text_bytes(resource, "service.name"@)) + counted(
        text_bytes(resource, "deployment.environment"@),
    ) + counted(text_bytes(labels, "http.route"@)) + spec_u64_to_le_bytes(
        (match integer_of(labels, "http.response.status_code"@) {
            Some(status) => status,
            None => 0,
        }) as u64,
    ) + counted(text_bytes(labels, "instance"@))
}

/// The row of a point whose gauge has some bits.
pub open spec fn metric_row(point: DurableMetricPoint, bits: u64, raw: Seq<u8>) -> Seq<u8> {
    metric_head(point) + metric_labels(point) + spec_u64_to_le_bytes(bits) + nullable(
        match exemplar_trace(point.exemplars@) {
            Some(trace) => Some(be_bytes(trace.0 as nat, 16)),
            None => None,
        },
    ) + counted(raw)
}

fn push_metric_head(output: &mut Vec<u8>, point: &DurableMetricPoint)
    ensures
        final(output)@ == old(output)@ + metric_head(*point),
{
    push_counted(output, point.identity.tenant.as_str().as_bytes());
    push_u128(output, point.series_fingerprint().0);
    push_u64(output, point.record_ref.offset.0);
    push_u64(output, point.timestamp_unix_nanos);
    push_u64(output, point.start_time_unix_nanos);
    push_counted(output, point.identity.name.as_str().as_bytes());
    push_counted(output, point.identity.unit.as_str().as_bytes());
    push_counted(output, "gauge".as_bytes());
    push_u128(output, point.identity.resource_id().0);
    push_u128(output, point.identity.scope_id().0);
    proof {
        reveal(metric_head);
        assert(output@ =~= old(output)@ + metric_head(*point));
    }
}

fn push_metric_labels(output: &mut Vec<u8>, point: &DurableMetricPoint)
    ensures
        final(output)@ == old(output)@ + metric_labels(*point),
{
    let labels = &point.identity.point_attributes;
    let status = match attribute_integer(labels, "http.response.status_code") {
        Some(status) => status,
        None => 0,
    };
    push_counted(output, attribute_string(&point.identity.resource.attributes, "service.name"));
    push_counted(
        output,
        attribute_string(&point.identity.resource.attributes, "deployment.environment"),
    );
    push_counted(output, attribute_string(labels, "http.route"));
    push_u64(output, status as u64);
    push_counted(output, attribute_string(labels, "instance"));
    proof {
        reveal(metric_labels);
        assert(output@ =~= old(output)@ + metric_labels(*point));
    }
}

/// Appends the row of a point. `integer_bits` are the bits of an integer gauge as
/// a double.
pub fn write_metric_row(output: &mut Vec<u8>, point: &DurableMetricPoint, integer_bits: u64, raw: &[u8]) -> (written:
    Result<(), String>)
    ensures
        match written {
            Ok(_) => gauge_bits(point.value, integer_bits) is Some && final(output)@ == old(output)@
                + metric_row(*point, gauge_bits(point.value, integer_bits)->0, raw@),
            Err(text) => gauge_bits(point.value, integer_bits) is None && final(output)@ == old(
                output)@ && text@
                == "ClickHouse benchmark exporter currently expects gauge points"@,
        },
{
    let bits = match &point.value {
        MetricValue::Gauge(NumberValue::DoubleBits(bits)) => *bits,
        MetricValue::Gauge(NumberValue::Integer(_)) => integer_bits,
        _ => {
            return Err(
                "ClickHouse benchmark exporter currently expects gauge points".to_owned(),
            );
        },
    };
    push_metric_head(output, point);
    push_metric_labels(output, point);
    push_u64(output, bits);
    match find_exemplar_trace(&point.exemplars) {
        Some(trace) => {
            output.push(0);
            push_be(output, trace.0, 16);
        },
        None => {
            output.push(1);
        },
    }
    push_counted(output, raw);
    assert(output@ =~= old(output)@ + metric_row(*point, bits, raw@));
    Ok(())
}

/// Rows of one signal, and what a lookup should give back.
#[derive(Debug, PartialEq, Eq)]
pub struct SignalExport {
    /// All rows.
    pub rows: Vec<u8>,
    /// The records that the lookup selects, each with its length in front.
    pub expected: Vec<u8>,
    /// Bytes of all records.
    pub source_bytes: usize,
    /// Records that the lookup selects.
    pub expected_rows: usize,
}

/// The rows of spans.
pub open spec fn trace_rows(spans: Seq<DurableSpan>, raws: Seq<Vec<u8>>) -> Seq<u8>
    decreases spans.len(),
{
    if spans.len() == 0 || raws.len() != spans.len() {
        Seq::empty()
    } else {
        trace_rows(spans.drop_last(), raws.drop_last()) + trace_row(spans.last(), raws.last()@)
    }
}

/// The records of a trace.
pub open spec fn trace_answers(spans: Seq<DurableSpan>, raws: Seq<Vec<u8>>, trace: TraceId) -> Seq<u8>
    decreases spans.len(),
{
    if spans.len() == 0 || raws.len() != spans.len() {
        Seq::empty()
    } else {
        let earlier = trace_answers(spans.drop_last(), raws.drop_last(), trace);
        if spans.last().trace_id == trace {
            earlier + counted(raws.last()@)
        } else {
            earlier
        }
    }
}

/// Number of records of a trace.
pub open spec fn trace_count(spans: Seq<DurableSpan>, trace: TraceId) -> nat
    decreases spans.len(),
{
    if spans.len() == 0 {
        0
    } else if spans.last().trace_id == trace {
        trace_count(spans.drop_last(), trace) + 1
    } else {
        trace_count(spans.drop_last(), trace)
    }
}

/// Bytes of records, at most the largest count.
pub open spec fn total_bytes(raws: Seq<Vec<u8>>) -> int
    decreases raws.len(),
{
    if raws.len() == 0 {
        0
    } else {
        let sum = total_bytes(raws.drop_last()) + raws.last()@.len();
        if sum > usize::MAX {
            usize::MAX as int
        } else {
            sum
        }
    }
}

/// Exports spans, with the lookup of the trace in their middle.
pub fn export_traces(spans: &Vec<DurableSpan>, raws: &Vec<Vec<u8>>) -> (export: SignalExport)
    requires
        spans@.len() > 0,
        raws@.len() == spans@.len(),
    ensures
        export.rows@ == trace_rows(spans@, raws@),
        export.expected@ == trace_answers(spans@, raws@, spans@[spans@.len() as int / 2].trace_id),
        export.source_bytes == total_bytes(raws@),
        export.expected_rows == trace_count(spans@, spans@[spans@.len() as int / 2].trace_id),
{
    let selected = spans[spans.len() / 2].trace_id;
    let mut rows: Vec<u8> = Vec::new();
    let mut expected: Vec<u8> = Vec::new();
    let mut source_bytes: usize = 0;
    let mut expected_rows: usize = 0;
    let mut index: usize = 0;
    assert(rows@ =~= Seq::<u8>::empty() && expected@ =~= Seq::<u8>::empty());
    while index < spans.len()
        invariant
            index <= spans@.len(),
            raws@.len() == spans@.len(),
            rows@ == trace_rows(spans@.take(index as int), raws@.take(index as int)),
            expected@ == trace_answers(
                spans@.take(index as int),
                raws@.take(index as int),
                selected,
            ),
            source_bytes == total_bytes(raws@.take(index as int)),
            expected_rows == trace_count(spans@.take(index as int), selected),
            expected_rows <= index,
        decreases spans@.len() - index,
    {
        assert(spans@.take(index + 1).drop_last() =~= spans@.take(index as int));
        assert(raws@.take(index + 1).drop_last() =~= raws@.take(index as int));
        let raw = raws[index].as_slice();
        source_bytes = source_bytes.saturating_add(raw.len());
        write_trace_row(&mut rows, &spans[index], raw);
        if spans[index].trace_id == selected {
            push_counted(&mut expected, raw);
            expected_rows = expected_rows + 1;
        }
        index = index + 1;
    }
    assert(spans@.take(index as int) =~= spans@);
    assert(raws@.take(index as int) =~= raws@);
    SignalExport { rows, expected, source_bytes, expected_rows }
}

/// The rows of points.
pub open spec fn metric_rows(
    points: Seq<DurableMetricPoint>,
    integer_bits: Seq<u64>,
    raws: Seq<Vec<u8>>,
) -> Seq<u8>
    decreases points.len(),
{
    if points.len() == 0 || raws.len() != points.len() || integer_bits.len() != points.len() {
        Seq::empty()
    } else {
        metric_rows(points.drop_last(), integer_bits.drop_last(), raws.drop_last()) + metric_row(
            points.last(),
            gauge_bits(points.last().value, integer_bits.last())->0,
            raws.last()@,
        )
    }
}

/// The records of a series.
pub open spec fn series_answers(
    points: Seq<DurableMetricPoint>,
    raws: Seq<Vec<u8>>,
    series: SeriesFingerprint,
) -> Seq<u8>
    decreases points.len(),
{
    if points.len() == 0 || raws.len() != points.len() {
        Seq::empty()
    } else {
        let earlier = series_answers(points.drop_last(), raws.drop_last(), series);
        if points.last().identity.series() == series {
            earlier + counted(raws.last()@)
        } else {
            earlier
        }
    }
}

/// Number of records of a series.
pub open spec fn series_count(points: Seq<DurableMetricPoint>, series: SeriesFingerprint) -> nat
    decreases points.len(),
{
    if points.len() == 0 {
        0
    } else if points.last().identity.series() == series {
        series_count(points.drop_last(), series) + 1
    } else {
        series_count(points.drop_last(), series)
    }
}

/// Exports points, with the lookup of the series in their middle.
pub fn export_metrics(
    points: &Vec<DurableMetricPoint>,
    integer_bits: &Vec<u64>,
    raws: &Vec<Vec<u8>>,
) -> (export: Result<SignalExport, String>)
    requires
        points@.len() > 0,
        raws@.len() == points@.len(),
        integer_bits@.len() == points@.len(),
    ensures
        match export {
            Ok(export) => {
                let selected = points@[points@.len() as int / 2].identity.series();
                &&& forall|i: int|
                    0 <= i < points@.len() ==> gauge_bits(
                        (#[trigger] points@[i]).value,
                        integer_bits@[i],
                    ) is Some
                &&& export.rows@ == metric_rows(points@, integer_bits@, raws@)
                &&& export.expected@ == series_answers(points@, raws@, selected)
                &&& export.source_bytes == total_bytes(raws@)
                &&& export.expected_rows == series_count(points@, selected)
            },
            Err(text) => text@ == "ClickHouse benchmark exporter currently expects gauge points"@
                && exists|i: int|
                0 <= i < points@.len() && gauge_bits(
                    (#[trigger] points@[i]).value,
                    integer_bits@[i],
                ) is None,
        },
{
    let selected = points[points.len() / 2].series_fingerprint();
    let mut rows: Vec<u8> = Vec::new();
    let mut expected: Vec<u8> = Vec::new();
    let mut source_bytes: usize = 0;
    let mut expected_rows: usize = 0;
    let mut index: usize = 0;
    assert(rows@ =~= Seq::<u8>::empty() && expected@ =~= Seq::<u8>::empty());
    while index < points.len()
        invariant
            index <= points@.len(),
            raws@.len() == points@.len(),
            integer_bits@.len() == points@.len(),
            forall|i: int|
                0 <= i < index ==> gauge_bits((#[trigger] points@[i]).value, integer_bits@[i])
                    is Some,
            rows@ == metric_rows(
                points@.take(index as int),
                integer_bits@.take(index as int),
                raws@.take(index as int),
            ),
            expected@ == series_answers(
                points@.take(index as int),
                raws@.take(index as int),
                selected,
            ),
            source_bytes == total_bytes(raws@.take(index as int)),
            expected_rows == series_count(points@.take(index as int), selected),
            expected_rows <= index,
        decreases points@.len() - index,
    {
        assert(points@.take(index + 1).drop_last() =~= points@.take(index as int));
        assert(raws@.take(index + 1).drop_last() =~= raws@.take(index as int));
        assert(integer_bits@.take(index + 1).drop_last() =~= integer_bits@.take(index as int));
        let raw = raws[index].as_slice();
        source_bytes = source_bytes.saturating_add(raw.len());
        write_metric_row(&mut rows, &points[index], integer_bits[index], raw)?;
        if points[index].series_fingerprint() == selected {
            push_counted(&mut expected, raw);
            expected_rows = expected_rows + 1;
        }
        index = index + 1;
    }
    assert(points@.take(index as int) =~= points@);
    assert(raws@.take(index as int) =~= raws@);
    assert(integer_bits@.take(index as int) =~= integer_bits@);
    Ok(SignalExport { rows, expected, source_bytes, expected_rows })
}

/// The manifest of an export.
pub open spec fn export_manifest(
    records: nat,
    traces: SignalExport,
    metrics: SignalExport,
    trace: TraceId,
    series: SeriesFingerprint,
    resource: ResourceContextId,
) -> Seq<char> {
    report_line("records_per_signal="@, decimal(records)) + report_line(
        "trace_source_bytes="@,
        decimal(traces.source_bytes as nat),
    ) + report_line("metric_source_bytes="@, decimal(metrics.source_bytes as nat)) + report_line(
        "trace_id_hex="@,
        hex_fixed(trace.0 as nat, 32),
    ) + report_line("trace_lookup_rows="@, decimal(traces.expected_rows as nat)) + report_line(
        "series_id="@,
        decimal(series.0 as nat),
    ) + report_line("series_id_hex="@, hex_fixed(series.0 as nat, 32)) + report_line(
        "metric_lookup_rows="@,
        decimal(metrics.expected_rows as nat),
    ) + report_line("resource_id="@, decimal(resource.0 as nat)) + "service_name=checkout-api\n"@
}

fn push_wide(report: &mut String, label: &str, value: u128)
    ensures
        final(report)@ == old(report)@ + report_line(label@, decimal(value as nat)),
{
    report.append(label);
    push_decimal(report, value);
    report.append("\n");
    assert(report@ =~= old(report)@ + report_line(label@, decimal(value as nat)));
}

fn push_id(report: &mut String, label: &str, value: u128)
    ensures
        final(report)@ == old(report)@ + report_line(label@, hex_fixed(value as nat, 32)),
{
    report.append(label);
    push_hex(report, value, 32);
    report.append("\n");
    assert(report@ =~= old(report)@ + report_line(label@, hex_fixed(value as nat, 32)));
}

/// Writes the manifest of an export.
pub fn render_export_manifest(
    records: usize,
    traces: &SignalExport,
    metrics: &SignalExport,
    trace: TraceId,
    series: SeriesFingerprint,
    resource: ResourceContextId,
) -> (manifest: String)
    ensures
        manifest@ == export_manifest(records as nat, *traces, *metrics, trace, series, resource),
{
    let mut manifest = String::new();
    push_number(&mut manifest, "records_per_signal=", records as u64);
    push_number(&mut manifest, "trace_source_bytes=", traces.source_bytes as u64);
    push_number(&mut manifest, "metric_source_bytes=", metrics.source_bytes as u64);
    push_id(&mut manifest, "trace_id_hex=", trace.0);
    push_number(&mut manifest, "trace_lookup_rows=", traces.expected_rows as u64);
    push_wide(&mut manifest, "series_id=", series.0);
    push_id(&mut manifest, "series_id_hex=", series.0);
    push_number(&mut manifest, "metric_lookup_rows=", metrics.expected_rows as u64);
    push_wide(&mut manifest, "resource_id=", resource.0);
    manifest.append("service_name=checkout-api\n");
    assert(manifest@ =~= export_manifest(
        records as nat,
        *traces,
        *metrics,
        trace,
        series,
        resource,
    ));
    manifest
}

} // verus!
