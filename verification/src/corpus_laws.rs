//! How the records of a corpus belong together.

use vstd::prelude::*;

use crate::corpus::{
    mixed, route_of, series_status, span_name_of, span_of, status_of, trace_of, Corpus,
};
use crate::correlation_filter_laws::{mixed_numbers_are_had_back, unmixed};
use crate::records::{DurableSpan, ScopeContext};

verus! {

/// The spreading of a number's bits can be undone.
pub proof fn spread_numbers_are_had_back(value: u64)
    ensures
        unmixed(mixed(value)) == value,
{
    mixed_numbers_are_had_back(value);
}

/// Eight spans after each other make a trace: the first is its root, and each other
/// one is the child of the one before; no span has the identity of another.
pub proof fn spans_make_traces(
    corpus: Corpus,
    count: nat,
    scope: ScopeContext,
    gauge_bits: Seq<u64>,
    i: int,
    j: int,
)
    requires
        corpus.generated(count, scope, gauge_bits),
        count < u64::MAX,
        0 <= i < j < count,
    ensures
        corpus.spans@[i].trace_id == corpus.spans@[j].trace_id <==> i / 8 == j / 8,
        corpus.spans@[i].span_id != corpus.spans@[j].span_id,
        corpus.spans@[i].trace_id.0 != 0 && corpus.spans@[i].span_id.0 != 0,
        corpus.spans@[0].parent_span_id is None,
        j % 8 == 0 ==> corpus.spans@[j].parent_span_id is None,
        j % 8 != 0 ==> corpus.spans@[j].parent_span_id == Some(corpus.spans@[j - 1].span_id)
            && corpus.spans@[j].trace_id == corpus.spans@[j - 1].trace_id,
{
    let (a, b, c, d) = (
        corpus.spans@[i],
        corpus.spans@[j],
        corpus.spans@[j - 1],
        corpus.spans@[0],
    );
    assert(a.trace_id.0 == i / 8 + 1 && b.trace_id.0 == j / 8 + 1 && c.trace_id.0 == (j - 1) / 8
        + 1);
    assert(a.span_id.0 == i + 1 && b.span_id.0 == j + 1 && c.span_id.0 == j);
    assert(d.parent_span_id is None);
}

/// The log and the span at one place belong to each other: they have their trace,
/// their span, their time and their producer in common, and both tell a failure or
/// neither.
pub proof fn logs_belong_to_their_span(
    corpus: Corpus,
    count: nat,
    scope: ScopeContext,
    gauge_bits: Seq<u64>,
    i: int,
)
    requires
        corpus.generated(count, scope, gauge_bits),
        0 <= i < count,
    ensures
        ({
            let (log, span) = (corpus.durable_logs@[i], corpus.spans@[i]);
            &&& log.trace_id == Some(span.trace_id)
            &&& log.span_id == Some(span.span_id)
            &&& log.timestamp_unix_nanos == span.start_time_unix_nanos
            &&& log.observed_timestamp_unix_nanos > log.timestamp_unix_nanos
            &&& *log.resource == *span.resource && *log.scope == *span.scope
            &&& *log.resource == *corpus.points@[i].identity.resource
            &&& log.record_ref.offset == span.record_ref.offset
            &&& (log.severity_text@ == "ERROR"@) == (log.severity_number == 17)
            &&& (log.severity_number == 17) == (failed(span))
        }),
{
    reveal_strlit("ERROR");
    reveal_strlit("INFO");
    let (log, span, point) = (corpus.durable_logs@[i], corpus.spans@[i], corpus.points@[i]);
    assert("ERROR"@.len() != "INFO"@.len());
    assert(span.status is Some);
    assert(*point.identity.resource == *corpus.resource);
}

/// Whether a span tells a failure.
pub open spec fn failed(span: DurableSpan) -> bool {
    span.status matches Some(status) && status.code == 2
}

/// Logs and spans follow each other by a millisecond.
pub proof fn records_follow_each_other(
    corpus: Corpus,
    count: nat,
    scope: ScopeContext,
    gauge_bits: Seq<u64>,
    i: int,
)
    requires
        corpus.generated(count, scope, gauge_bits),
        0 < i < count,
    ensures
        ({
            let (later, earlier) = (corpus.durable_logs@[i], corpus.durable_logs@[i - 1]);
            later.timestamp_unix_nanos - earlier.timestamp_unix_nanos == 1_000_000
        }),
        corpus.spans@[i].start_time_unix_nanos - corpus.spans@[i - 1].start_time_unix_nanos
            == 1_000_000,
        corpus.durable_logs@[i].record_ref.offset.0 == i as u64,
        corpus.points@[i].record_ref.offset.0 == i as u64,
{
    let (a, b) = (corpus.durable_logs@[i], corpus.durable_logs@[i - 1]);
    let (c, d) = (corpus.spans@[i], corpus.spans@[i - 1]);
    let e = corpus.points@[i];
    assert(a.record_ref.offset.0 == i as u64 && e.record_ref.offset.0 == i as u64);
    assert(a.timestamp_unix_nanos - b.timestamp_unix_nanos == 1_000_000);
    assert(c.start_time_unix_nanos - d.start_time_unix_nanos == 1_000_000);
}

/// The name of a span is a method and the route of its record.
pub proof fn span_names_end_with_their_route(ordinal: nat)
    ensures
        span_name_of(ordinal).len() == route_of(ordinal).len() + 5 || span_name_of(ordinal).len()
            == route_of(ordinal).len() + 4,
        span_name_of(ordinal).skip(span_name_of(ordinal).len() - route_of(ordinal).len())
            == route_of(ordinal),
        route_of(ordinal + 4) == route_of(ordinal),
        status_of(ordinal + 8) == status_of(ordinal),
{
    reveal_strlit("/checkout");
    reveal_strlit("/cart");
    reveal_strlit("/products");
    reveal_strlit("/payment");
    reveal_strlit("POST /checkout");
    reveal_strlit("GET /cart");
    reveal_strlit("GET /products");
    reveal_strlit("POST /payment");
    assert(span_name_of(ordinal).skip(span_name_of(ordinal).len() - route_of(ordinal).len())
        =~= route_of(ordinal));
    assert((ordinal + 4) % 4 == ordinal % 4);
    assert((ordinal + 8) % 8 == ordinal % 8);
}

/// Of eight records in a row three fail and five do not; a series that follows another
/// by sixteen has its status.
pub proof fn statuses_come_round(ordinal: nat)
    ensures
        status_of(ordinal) >= 500 <==> ordinal % 8 >= 5,
        status_of(ordinal) == 200 <==> ordinal % 8 < 3,
        200 <= status_of(ordinal) < 600,
        series_status(ordinal + 16) == series_status(ordinal),
        series_status(4 * ordinal) == series_status(4 * ordinal + 3),
        trace_of(8 * ordinal) == trace_of(8 * ordinal + 7),
        span_of(ordinal).0 == (ordinal + 1) as u64,
{
    assert((ordinal + 16) / 4 == ordinal / 4 + 4);
    assert((4 * ordinal) / 4 == (4 * ordinal + 3) / 4);
    assert((8 * ordinal) / 8 == (8 * ordinal + 7) / 8);
}

} // verus!
