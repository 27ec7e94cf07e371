//! Reading benchmark rows back.

use vstd::bytes::{
    spec_u32_from_le_bytes, spec_u32_to_le_bytes, spec_u64_from_le_bytes, spec_u64_to_le_bytes,
};
use vstd::prelude::*;
use vstd::utf8::encode_utf8;

use crate::attributes::TelemetryAttribute;
use crate::corpus_rows::{
    attribute_named, be_bytes, exemplar_trace, integer_of, metric_head, metric_labels, metric_row,
    nullable, text_bytes, trace_head, trace_row, trace_tail,
};
use crate::records::{be_limit, be_value, DurableMetricPoint, DurableSpan, MetricExemplar};
use crate::template_encoder::counted;
use crate::template_encoder_laws::{read_string, strings_read_back};
use crate::wire::{fields_read_back, u128_from_le, u128_le};

verus! {

/// A number written with its highest byte first is read back wherever it fits.
pub proof fn big_endian_numbers_read_back(value: nat, width: nat)
    ensures
        be_bytes(value, width).len() == width,
        value < be_limit(width) ==> be_value(be_bytes(value, width)) == value,
    decreases width,
{
    if width > 0 {
        big_endian_numbers_read_back(value / 256, (width - 1) as nat);
        assert(be_bytes(value, width).drop_last() =~= be_bytes(value / 256, (width - 1) as nat));
    }
}

proof fn lemma_limits()
    ensures
        be_limit(8) == 0x1_0000_0000_0000_0000,
        be_limit(16) == 0x1_0000_0000_0000_0000_0000_0000_0000_0000,
{
    reveal_with_fuel(be_limit, 17);
}

/// Reads a number of so many bytes, the highest first.
pub open spec fn take_be(bytes: Seq<u8>, width: nat) -> Option<(nat, Seq<u8>)> {
    if bytes.len() < width {
        None
    } else {
        Some((be_value(bytes.take(width as int)), bytes.skip(width as int)))
    }
}

/// Reads a 64-bit number, the lowest byte first.
pub open spec fn take_u64(bytes: Seq<u8>) -> Option<(u64, Seq<u8>)> {
    if bytes.len() < 8 {
        None
    } else {
        Some((spec_u64_from_le_bytes(bytes.take(8)), bytes.skip(8)))
    }
}

/// Reads a 32-bit number, the lowest byte first.
pub open spec fn take_u32(bytes: Seq<u8>) -> Option<(u32, Seq<u8>)> {
    if bytes.len() < 4 {
        None
    } else {
        Some((spec_u32_from_le_bytes(bytes.take(4)), bytes.skip(4)))
    }
}

/// Reads a 128-bit number, the lowest byte first.
pub open spec fn take_u128(bytes: Seq<u8>) -> Option<(u128, Seq<u8>)> {
    if bytes.len() < 16 {
        None
    } else {
        Some((u128_from_le(bytes.take(16)), bytes.skip(16)))
    }
}

/// Reads a mark, one for a missing number, and the number where it is there.
pub open spec fn take_optional_be(bytes: Seq<u8>, width: nat) -> Option<
    (Option<nat>, Seq<u8>),
> {
    if bytes.len() == 0 {
        None
    } else if bytes[0] == 1 {
        Some((None, bytes.skip(1)))
    } else if bytes[0] == 0 {
        match take_be(bytes.skip(1), width) {
            Some((number, rest)) => Some((Some(number), rest)),
            None => None,
        }
    } else {
        None
    }
}

proof fn lemma_be(value: nat, width: nat, rest: Seq<u8>)
    requires
        value < be_limit(width),
    ensures
        take_be(be_bytes(value, width) + rest, width) == Some((value, rest)),
{
    big_endian_numbers_read_back(value, width);
    let all = be_bytes(value, width) + rest;
    assert(all.take(width as int) =~= be_bytes(value, width));
    assert(all.skip(width as int) =~= rest);
}

proof fn lemma_u64(value: u64, rest: Seq<u8>)
    ensures
        take_u64(spec_u64_to_le_bytes(value) + rest) == Some((value, rest)),
{
    fields_read_back();
    let field = spec_u64_to_le_bytes(value);
    assert(field.len() == 8);
    assert((field + rest).take(8) =~= field);
    assert((field + rest).skip(8) =~= rest);
}

proof fn lemma_u32(value: u32, rest: Seq<u8>)
    ensures
        take_u32(spec_u32_to_le_bytes(value) + rest) == Some((value, rest)),
{
    fields_read_back();
    let field = spec_u32_to_le_bytes(value);
    assert(field.len() == 4);
    assert((field + rest).take(4) =~= field);
    assert((field + rest).skip(4) =~= rest);
}

proof fn lemma_u128(value: u128, rest: Seq<u8>)
    ensures
        take_u128(u128_le(value) + rest) == Some((value, rest)),
{
    fields_read_back();
    let field = u128_le(value);
    assert(field.len() == 16);
    assert((field + rest).take(16) =~= field);
    assert((field + rest).skip(16) =~= rest);
}

proof fn lemma_optional(value: Option<nat>, width: nat, rest: Seq<u8>)
    requires
        value matches Some(number) ==> number < be_limit(width),
    ensures
        take_optional_be(
            nullable(
                match value {
                    Some(number) => Some(be_bytes(number, width)),
                    None => None,
                },
            ) + rest,
            width,
        ) == Some((value, rest)),
{
    match value {
        Some(number) => {
            let all = nullable(Some(be_bytes(number, width))) + rest;
            assert(all[0] == 0);
            assert(all.skip(1) =~= be_bytes(number, width) + rest);
            lemma_be(number, width, rest);
        },
        None => {
            let all = nullable(None) + rest;
            assert(all[0] == 1);
            assert(all.skip(1) =~= rest);
        },
    }
}

/// Whether bytes start with the identity and the times of a span and go on with
/// `rest`.
pub open spec fn starts_with_span(bytes: Seq<u8>, span: DurableSpan, rest: Seq<u8>) -> bool {
    &&& read_string(bytes) matches Some((tenant, a))
    &&& tenant == encode_utf8(span.tenant@)
    &&& take_be(a, 16) matches Some((trace, b))
    &&& trace == span.trace_id.0
    &&& take_be(b, 8) matches Some((id, c))
    &&& id == span.span_id.0
    &&& take_optional_be(c, 8) matches Some((parent, d))
    &&& parent == (match span.parent_span_id {
        Some(id) => Some(id.0 as nat),
        None => None,
    })
    &&& take_u64(d) matches Some((offset, e))
    &&& offset == span.record_ref.offset.0
    &&& take_u64(e) matches Some((start, f))
    &&& start == span.start_time_unix_nanos
    &&& take_u64(f) matches Some((duration, g))
    &&& duration == span.duration_nanos
    &&& g == rest
}

/// A span row starts with its tenant, its trace, its own identity, that of its
/// parent, its place, its start and its duration.
pub proof fn span_rows_start_with_their_span(span: DurableSpan, rest: Seq<u8>)
    ensures
        starts_with_span(trace_head(span) + rest, span, rest),
{
    reveal(trace_head);
    lemma_limits();
    let duration = spec_u64_to_le_bytes(span.duration_nanos) + rest;
    let start = spec_u64_to_le_bytes(span.start_time_unix_nanos) + duration;
    let offset = spec_u64_to_le_bytes(span.record_ref.offset.0) + start;
    let parent_id = match span.parent_span_id {
        Some(id) => Some(id.0 as nat),
        None => None,
    };
    let parent = nullable(
        match parent_id {
            Some(number) => Some(be_bytes(number, 8)),
            None => None,
        },
    ) + offset;
    let own = be_bytes(span.span_id.0 as nat, 8) + parent;
    let trace = be_bytes(span.trace_id.0 as nat, 16) + own;
    let tenant = encode_utf8(span.tenant@);
    assert(trace_head(span) + rest =~= counted(tenant) + trace);
    strings_read_back(tenant, trace);
    lemma_be(span.trace_id.0 as nat, 16, own);
    lemma_be(span.span_id.0 as nat, 8, parent);
    lemma_optional(parent_id, 8, offset);
    lemma_u64(span.record_ref.offset.0, start);
    lemma_u64(span.start_time_unix_nanos, duration);
    lemma_u64(span.duration_nanos, rest);
}

/// The status of a span, or zero.
pub open spec fn shown_status(span: DurableSpan) -> i32 {
    match span.status {
        Some(status) => status.code,
        None => 0,
    }
}

/// A number, or zero.
pub open spec fn number_or_zero(number: Option<i64>) -> i64 {
    match number {
        Some(number) => number,
        None => 0,
    }
}

/// Whether bytes hold what a span says of itself and its context, then its record.
pub open spec fn ends_with_span(bytes: Seq<u8>, span: DurableSpan, raw: Seq<u8>) -> bool {
    let resource = span.resource.attributes@;
    &&& read_string(bytes) matches Some((name, a))
    &&& name == encode_utf8(span.name@)
    &&& take_u32(a) matches Some((kind, b))
    &&& kind as i32 == span.kind
    &&& take_u32(b) matches Some((status, c))
    &&& status as i32 == shown_status(span)
    &&& take_u128(c) matches Some((resource_id, d))
    &&& resource_id == span.resource.identity().0
    &&& take_u128(d) matches Some((scope_id, e))
    &&& scope_id == span.scope.identity().0
    &&& read_string(e) matches Some((service, f))
    &&& service == text_bytes(resource, "service.name"@)
    &&& read_string(f) matches Some((environment, g))
    &&& environment == text_bytes(resource, "deployment.environment"@)
    &&& read_string(g) matches Some((route, h))
    &&& route == text_bytes(span.attributes@, "http.route"@)
    &&& take_u64(h) matches Some((code, i))
    &&& code as i64 == number_or_zero(
        integer_of(span.attributes@, "http.response.status_code"@),
    )
    &&& read_string(i) matches Some((record, j))
    &&& record == raw
    &&& j.len() == 0
}

proof fn lemma_regrouped(
    a: Seq<u8>,
    b: Seq<u8>,
    c: Seq<u8>,
    d: Seq<u8>,
    rest: Seq<u8>,
    e: Seq<u8>,
    f: Seq<u8>,
    g: Seq<u8>,
    h: Seq<u8>,
    i: Seq<u8>,
    j: Seq<u8>,
    end: Seq<u8>,
)
    requires
        rest == e + (f + (g + (h + (i + (j + end))))),
    ensures
        a + b + c + d + e + f + g + h + i + j + end == a + (b + (c + (d + rest))),
{
    let front = a + b + c + d;
    assert(a + (b + (c + (d + rest))) =~= front + rest);
    let tail = e + f + g + h + i + j + end;
    assert(rest =~= tail);
    assert(front + e + f + g + h + i + j + end =~= front + tail);
}

/// A span row ends with the name, the kind and the status of the span, its resource
/// and its scope, its service, its environment, its route, its response code and its
/// record.
pub proof fn span_rows_end_with_their_record(span: DurableSpan, raw: Seq<u8>)
    ensures
        ends_with_span(trace_tail(span, raw), span, raw),
{
    reveal(trace_tail);
    let nothing = Seq::<u8>::empty();
    let resource = span.resource.attributes@;
    let code = number_or_zero(integer_of(span.attributes@, "http.response.status_code"@));
    let (kind, status) = (span.kind, shown_status(span));
    let record = counted(raw) + nothing;
    let coded = spec_u64_to_le_bytes(code as u64) + record;
    let route = counted(text_bytes(span.attributes@, "http.route"@)) + coded;
    let environment = counted(text_bytes(resource, "deployment.environment"@)) + route;
    let service = counted(text_bytes(resource, "service.name"@)) + environment;
    let scope = u128_le(span.scope.identity().0) + service;
    let producer = u128_le(span.resource.identity().0) + scope;
    let stated = spec_u32_to_le_bytes(status as u32) + producer;
    let kinded = spec_u32_to_le_bytes(kind as u32) + stated;
    lemma_regrouped(
        counted(encode_utf8(span.name@)),
        spec_u32_to_le_bytes(kind as u32),
        spec_u32_to_le_bytes(status as u32),
        u128_le(span.resource.identity().0),
        scope,
        u128_le(span.scope.identity().0),
        counted(text_bytes(resource, "service.name"@)),
        counted(text_bytes(resource, "deployment.environment"@)),
        counted(text_bytes(span.attributes@, "http.route"@)),
        spec_u64_to_le_bytes(code as u64),
        counted(raw),
        nothing,
    );
    assert(trace_tail(span, raw) =~= trace_tail(span, raw) + nothing);
    assert(trace_tail(span, raw) == counted(encode_utf8(span.name@)) + kinded);
    strings_read_back(encode_utf8(span.name@), kinded);
    lemma_u32(kind as u32, stated);
    lemma_u32(status as u32, producer);
    lemma_u128(span.resource.identity().0, scope);
    lemma_u128(span.scope.identity().0, service);
    strings_read_back(text_bytes(resource, "service.name"@), environment);
    strings_read_back(text_bytes(resource, "deployment.environment"@), route);
    strings_read_back(text_bytes(span.attributes@, "http.route"@), coded);
    lemma_u64(code as u64, record);
    strings_read_back(raw, nothing);
    assert((kind as u32) as i32 == kind) by (bit_vector);
    assert((status as u32) as i32 == status) by (bit_vector);
    assert((code as u64) as i64 == code) by (bit_vector);
}

/// A span row reads back as its span and its record.
pub proof fn span_rows_read_back(span: DurableSpan, raw: Seq<u8>)
    ensures
        exists|rest: Seq<u8>|
            starts_with_span(trace_row(span, raw), span, rest) && #[trigger] ends_with_span(
                rest,
                span,
                raw,
            ),
{
    span_rows_start_with_their_span(span, trace_tail(span, raw));
    span_rows_end_with_their_record(span, raw);
}

/// Whether bytes start with the series, the times, the names and the contexts of a
/// point and go on with `rest`.
pub open spec fn starts_with_point(bytes: Seq<u8>, point: DurableMetricPoint, rest: Seq<u8>) -> bool {
    &&& read_string(bytes) matches Some((tenant, a))
    &&& tenant == encode_utf8(point.identity.tenant@)
    &&& take_u128(a) matches Some((series, b))
    &&& series == point.identity.series().0
    &&& take_u64(b) matches Some((offset, c))
    &&& offset == point.record_ref.offset.0
    &&& take_u64(c) matches Some((time, d))
    &&& time == point.timestamp_unix_nanos
    &&& take_u64(d) matches Some((start, e))
    &&& start == point.start_time_unix_nanos
    &&& read_string(e) matches Some((name, f))
    &&& name == encode_utf8(point.identity.name@)
    &&& read_string(f) matches Some((unit, g))
    &&& unit == encode_utf8(point.identity.unit@)
    &&& read_string(g) matches Some((kind, h))
    &&& kind == encode_utf8("gauge"@)
    &&& take_u128(h) matches Some((resource, i))
    &&& resource == point.identity.resource.identity().0
    &&& take_u128(i) matches Some((scope, j))
    &&& scope == point.identity.scope.identity().0
    &&& j == rest
}

/// A point row starts with its tenant, its series, its place, its times, its name,
/// its unit, its kind, its resource and its scope.
pub proof fn point_rows_start_with_their_series(point: DurableMetricPoint, rest: Seq<u8>)
    ensures
        starts_with_point(metric_head(point) + rest, point, rest),
{
    reveal(metric_head);
    let scope = u128_le(point.identity.scope.identity().0) + rest;
    let resource = u128_le(point.identity.resource.identity().0) + scope;
    let kind = counted(encode_utf8("gauge"@)) + resource;
    let unit = counted(encode_utf8(point.identity.unit@)) + kind;
    let name = counted(encode_utf8(point.identity.name@)) + unit;
    let start = spec_u64_to_le_bytes(point.start_time_unix_nanos) + name;
    let time = spec_u64_to_le_bytes(point.timestamp_unix_nanos) + start;
    let offset = spec_u64_to_le_bytes(point.record_ref.offset.0) + time;
    let series = u128_le(point.identity.series().0) + offset;
    let tenant = encode_utf8(point.identity.tenant@);
    lemma_regrouped(
        counted(tenant),
        u128_le(point.identity.series().0),
        spec_u64_to_le_bytes(point.record_ref.offset.0),
        spec_u64_to_le_bytes(point.timestamp_unix_nanos),
        start,
        spec_u64_to_le_bytes(point.start_time_unix_nanos),
        counted(encode_utf8(point.identity.name@)),
        counted(encode_utf8(point.identity.unit@)),
        counted(encode_utf8("gauge"@)),
        u128_le(point.identity.resource.identity().0),
        u128_le(point.identity.scope.identity().0),
        rest,
    );
    assert(metric_head(point) + rest == counted(tenant) + series);
    strings_read_back(tenant, series);
    lemma_u128(point.identity.series().0, offset);
    lemma_u64(point.record_ref.offset.0, time);
    lemma_u64(point.timestamp_unix_nanos, start);
    lemma_u64(point.start_time_unix_nanos, name);
    strings_read_back(encode_utf8(point.identity.name@), unit);
    strings_read_back(encode_utf8(point.identity.unit@), kind);
    strings_read_back(encode_utf8("gauge"@), resource);
    lemma_u128(point.identity.resource.identity().0, scope);
    lemma_u128(point.identity.scope.identity().0, rest);
}

/// The value of a point row, its first exemplar's trace and its record stand behind
/// its series and its labels.
pub proof fn point_rows_end_with_their_record(
    point: DurableMetricPoint,
    bits: u64,
    raw: Seq<u8>,
)
    ensures
        ({
            let front = metric_head(point) + metric_labels(point);
            let row = metric_row(point, bits, raw);
            let trace = match exemplar_trace(point.exemplars@) {
                Some(id) => Some(id.0 as nat),
                None => None,
            };
            &&& row.take(front.len() as int) == front
            &&& take_u64(row.skip(front.len() as int)) matches Some((value, a))
            &&& value == bits
            &&& take_optional_be(a, 16) matches Some((linked, b))
            &&& linked == trace
            &&& read_string(b) matches Some((record, c))
            &&& record == raw
            &&& c.len() == 0
        }),
{
    let nothing = Seq::<u8>::empty();
    let front = metric_head(point) + metric_labels(point);
    let row = metric_row(point, bits, raw);
    let trace = match exemplar_trace(point.exemplars@) {
        Some(id) => Some(id.0 as nat),
        None => None,
    };
    let record = counted(raw) + nothing;
    let linked = nullable(
        match trace {
            Some(number) => Some(be_bytes(number, 16)),
            None => None,
        },
    ) + record;
    lemma_limits();
    assert(row =~= front + (spec_u64_to_le_bytes(bits) + linked));
    assert(row.take(front.len() as int) =~= front);
    assert(row.skip(front.len() as int) =~= spec_u64_to_le_bytes(bits) + linked);
    lemma_u64(bits, linked);
    lemma_optional(trace, 16, record);
    strings_read_back(raw, nothing);
}

/// Whether bytes hold the labels of a point.
pub open spec fn holds_labels(bytes: Seq<u8>, point: DurableMetricPoint, rest: Seq<u8>) -> bool {
    let resource = point.identity.resource.attributes@;
    let labels = point.identity.point_attributes@;
    &&& read_string(bytes) matches Some((service, a))
    &&& service == text_bytes(resource, "service.name"@)
    &&& read_string(a) matches Some((environment, b))
    &&& environment == text_bytes(resource, "deployment.environment"@)
    &&& read_string(b) matches Some((route, c))
    &&& route == text_bytes(labels, "http.route"@)
    &&& take_u64(c) matches Some((code, d))
    &&& code as i64 == number_or_zero(integer_of(labels, "http.response.status_code"@))
    &&& read_string(d) matches Some((instance, e))
    &&& instance == text_bytes(labels, "instance"@)
    &&& e == rest
}

/// The labels of a point row are its service, its environment, its route, its
/// response code and its instance.
pub proof fn point_labels_read_back(point: DurableMetricPoint, rest: Seq<u8>)
    ensures
        holds_labels(metric_labels(point) + rest, point, rest),
{
    reveal(metric_labels);
    let resource = point.identity.resource.attributes@;
    let labels = point.identity.point_attributes@;
    let code = number_or_zero(integer_of(labels, "http.response.status_code"@));
    let instance = counted(text_bytes(labels, "instance"@)) + rest;
    let coded = spec_u64_to_le_bytes(code as u64) + instance;
    let route = counted(text_bytes(labels, "http.route"@)) + coded;
    let environment = counted(text_bytes(resource, "deployment.environment"@)) + route;
    assert(metric_labels(point) + rest =~= counted(text_bytes(resource, "service.name"@))
        + environment);
    strings_read_back(text_bytes(resource, "service.name"@), environment);
    strings_read_back(text_bytes(resource, "deployment.environment"@), route);
    strings_read_back(text_bytes(labels, "http.route"@), coded);
    lemma_u64(code as u64, instance);
    strings_read_back(text_bytes(labels, "instance"@), rest);
    assert((code as u64) as i64 == code) by (bit_vector);
}

/// An attribute is found by its key: the first that has it, and none exactly where
/// none has it.
pub proof fn first_attributes_are_found(attributes: Seq<TelemetryAttribute>, key: Seq<char>)
    ensures
        match attribute_named(attributes, key) {
            Some(value) => exists|i: int|
                0 <= i < attributes.len() && (#[trigger] attributes[i]).key@ == key
                    && attributes[i].value == value && forall|j: int|
                    0 <= j < i ==> (#[trigger] attributes[j]).key@ != key,
            None => forall|i: int|
                0 <= i < attributes.len() ==> (#[trigger] attributes[i]).key@ != key,
        },
    decreases attributes.len(),
{
    if attributes.len() > 0 {
        if attributes[0].key@ == key {
            assert(attributes[0].value == attribute_named(attributes, key)->0);
        } else {
            let later = attributes.drop_first();
            first_attributes_are_found(later, key);
            assert(forall|i: int| 0 <= i < later.len() ==> #[trigger] later[i] == attributes[i + 1]);
            if let Some(value) = attribute_named(later, key) {
                let i = choose|i: int|
                    0 <= i < later.len() && (#[trigger] later[i]).key@ == key && later[i].value
                        == value && forall|j: int|
                        0 <= j < i ==> (#[trigger] later[j]).key@ != key;
                assert(attributes[i + 1].key@ == key);
                assert forall|j: int| 0 <= j < i + 1 implies (#[trigger] attributes[j]).key@
                    != key by {
                    if j > 0 {
                        assert(later[j - 1] == attributes[j]);
                    }
                }
            } else {
                assert forall|i: int| 0 <= i < attributes.len() implies (
                #[trigger] attributes[i]).key@ != key by {
                    if i > 0 {
                        assert(later[i - 1] == attributes[i]);
                    }
                }
            }
        }
    }
}

/// The trace of a point is that of the first exemplar that names one.
pub proof fn first_exemplar_traces_are_found(exemplars: Seq<MetricExemplar>)
    ensures
        match exemplar_trace(exemplars) {
            Some(trace) => exists|i: int|
                0 <= i < exemplars.len() && (#[trigger] exemplars[i]).trace_id == Some(trace)
                    && forall|j: int|
                    0 <= j < i ==> (#[trigger] exemplars[j]).trace_id is None,
            None => forall|i: int|
                0 <= i < exemplars.len() ==> (#[trigger] exemplars[i]).trace_id is None,
        },
    decreases exemplars.len(),
{
    if exemplars.len() > 0 {
        if exemplars[0].trace_id is Some {
            assert(exemplars[0].trace_id == exemplar_trace(exemplars));
        } else {
            let later = exemplars.drop_first();
            first_exemplar_traces_are_found(later);
            if let Some(trace) = exemplar_trace(later) {
                let i = choose|i: int|
                    0 <= i < later.len() && (#[trigger] later[i]).trace_id == Some(trace)
                        && forall|j: int|
                        0 <= j < i ==> (#[trigger] later[j]).trace_id is None;
                assert(exemplars[i + 1].trace_id == Some(trace));
                assert forall|j: int| 0 <= j < i + 1 implies (
                #[trigger] exemplars[j]).trace_id is None by {
                    if j > 0 {
                        assert(later[j - 1] == exemplars[j]);
                    }
                }
            } else {
                assert forall|i: int| 0 <= i < exemplars.len() implies (
                #[trigger] exemplars[i]).trace_id is None by {
                    if i > 0 {
                        assert(later[i - 1] == exemplars[i]);
                    }
                }
            }
        }
    }
}

} // verus!
