//! Which records a correlation key reaches.

use vstd::prelude::*;

use crate::attributes::{attribute_identity, AttributeFingerprint, TelemetryAttribute};
use crate::correlation::{
    kept_list, kept_postings, CorrelationConfig, CorrelationPosting, IndexState, Slot,
};
use crate::correlation_history::{
    carries, in_reach, log_step, metric_step, one_time_each, queries_give_back_what_was_indexed,
    span_step, state_after, IndexingStep,
};
use crate::correlation_query::{
    attribute_keys, event_keys, exemplar_keys, lemma_contains_sum, link_keys, log_index_keys,
    metric_index_keys, metric_keys, metric_satisfies, offers, span_index_keys, span_keys,
    span_satisfies, CorrelationKey, CorrelationQuery,
};
use crate::model::TelemetryRecordRef;
use crate::records::{
    DurableLog, DurableMetricPoint, DurableSpan, MetricExemplar, ResourceContextId, ScopeContextId,
    SpanEvent, SpanLink, TraceId,
};

verus! {

/// Whether a typed pair stands among others.
pub open spec fn stands_among(
    attributes: Seq<TelemetryAttribute>,
    id: AttributeFingerprint,
) -> bool {
    exists|i: int| 0 <= i < attributes.len() && attribute_identity(#[trigger] attributes[i]) == id
}

/// Whether a log has what a key identifies.
pub open spec fn log_has(log: DurableLog, key: CorrelationKey) -> bool {
    match key {
        CorrelationKey::Trace(id) => log.trace_id == Some(id),
        CorrelationKey::Resource(id) => log.resource.identity() == id,
        CorrelationKey::Scope(id) => log.scope.identity() == id,
        CorrelationKey::Attribute(id) => {
            ||| stands_among(log.resource.attributes@, id)
            ||| stands_among(log.scope.attributes@, id)
            ||| stands_among(log.attributes@, id)
        },
    }
}

/// Whether a span has what a key identifies, in itself, an event or a link.
pub open spec fn span_has(span: DurableSpan, key: CorrelationKey) -> bool {
    match key {
        CorrelationKey::Trace(id) => {
            ||| span.trace_id == id
            ||| exists|i: int| 0 <= i < span.links@.len() && (#[trigger] span.links@[i]).trace_id == id
        },
        CorrelationKey::Resource(id) => span.resource.identity() == id,
        CorrelationKey::Scope(id) => span.scope.identity() == id,
        CorrelationKey::Attribute(id) => {
            ||| stands_among(span.resource.attributes@, id)
            ||| stands_among(span.scope.attributes@, id)
            ||| stands_among(span.attributes@, id)
            ||| exists|i: int|
                0 <= i < span.events@.len() && stands_among(
                    (#[trigger] span.events@[i]).attributes@,
                    id,
                )
            ||| exists|i: int|
                0 <= i < span.links@.len() && stands_among(
                    (#[trigger] span.links@[i]).attributes@,
                    id,
                )
        },
    }
}

/// Whether a metric point has what a key identifies, in itself or an exemplar.
pub open spec fn metric_has(point: DurableMetricPoint, key: CorrelationKey) -> bool {
    match key {
        CorrelationKey::Trace(id) => exists|i: int|
            0 <= i < point.exemplars@.len() && (#[trigger] point.exemplars@[i]).trace_id == Some(id),
        CorrelationKey::Resource(id) => point.identity.resource.identity() == id,
        CorrelationKey::Scope(id) => point.identity.scope.identity() == id,
        CorrelationKey::Attribute(id) => {
            ||| stands_among(point.identity.resource.attributes@, id)
            ||| stands_among(point.identity.scope.attributes@, id)
            ||| stands_among(point.identity.point_attributes@, id)
            ||| stands_among(point.metadata@, id)
            ||| exists|i: int|
                0 <= i < point.exemplars@.len() && stands_among(
                    (#[trigger] point.exemplars@[i]).filtered_attributes@,
                    id,
                )
        },
    }
}

proof fn lemma_attribute_keys(attributes: Seq<TelemetryAttribute>, key: CorrelationKey)
    ensures
        attribute_keys(attributes).contains(key) <==> (key matches CorrelationKey::Attribute(id)
            && stands_among(attributes, id)),
{
    let keys = attribute_keys(attributes);
    if keys.contains(key) {
        let i = choose|i: int| 0 <= i < keys.len() && keys[i] == key;
        assert(key == CorrelationKey::Attribute(attribute_identity(attributes[i])));
    }
    if let CorrelationKey::Attribute(id) = key {
        if stands_among(attributes, id) {
            let i = choose|i: int|
                0 <= i < attributes.len() && attribute_identity(#[trigger] attributes[i]) == id;
            assert(keys[i] == key);
        }
    }
}

proof fn lemma_event_keys(events: Seq<SpanEvent>, key: CorrelationKey)
    ensures
        event_keys(events).contains(key) <==> (key matches CorrelationKey::Attribute(id)
            && exists|i: int|
            0 <= i < events.len() && stands_among((#[trigger] events[i]).attributes@, id)),
    decreases events.len(),
{
    if events.len() > 0 {
        let rest = events.drop_last();
        lemma_event_keys(rest, key);
        lemma_attribute_keys(events.last().attributes@, key);
        lemma_contains_sum(event_keys(rest), attribute_keys(events.last().attributes@), key);
        if let CorrelationKey::Attribute(id) = key {
            if event_keys(events).contains(key) {
                if event_keys(rest).contains(key) {
                    let i = choose|i: int|
                        0 <= i < rest.len() && stands_among((#[trigger] rest[i]).attributes@, id);
                    assert(stands_among(events[i].attributes@, id));
                } else {
                    assert(stands_among(events[events.len() - 1].attributes@, id));
                }
            }
            if exists|i: int|
                0 <= i < events.len() && stands_among((#[trigger] events[i]).attributes@, id) {
                let i = choose|i: int|
                    0 <= i < events.len() && stands_among((#[trigger] events[i]).attributes@, id);
                if i < rest.len() {
                    assert(stands_among(rest[i].attributes@, id));
                }
            }
        }
    }
}

/// Whether links have what a key identifies.
spec fn links_have(links: Seq<SpanLink>, key: CorrelationKey) -> bool {
    match key {
        CorrelationKey::Trace(id) => exists|i: int|
            0 <= i < links.len() && (#[trigger] links[i]).trace_id == id,
        CorrelationKey::Attribute(id) => exists|i: int|
            0 <= i < links.len() && stands_among((#[trigger] links[i]).attributes@, id),
        _ => false,
    }
}

proof fn lemma_link_keys(links: Seq<SpanLink>, key: CorrelationKey)
    ensures
        link_keys(links).contains(key) <==> links_have(links, key),
    decreases links.len(),
{
    if links.len() > 0 {
        let rest = links.drop_last();
        let last = links.last();
        let trace = seq![CorrelationKey::Trace(last.trace_id)];
        lemma_link_keys(rest, key);
        lemma_attribute_keys(last.attributes@, key);
        lemma_contains_sum(link_keys(rest) + trace, attribute_keys(last.attributes@), key);
        lemma_contains_sum(link_keys(rest), trace, key);
        assert(trace.contains(key) <==> key == CorrelationKey::Trace(last.trace_id)) by {
            assert(trace[0] == CorrelationKey::Trace(last.trace_id));
        }
        assert(links[links.len() - 1] == last);
        assert(forall|i: int| 0 <= i < rest.len() ==> #[trigger] rest[i] == links[i]);
        assert(links_have(rest, key) ==> links_have(links, key));
        assert(links_have(links, key) ==> links_have(rest, key) || trace.contains(key)
            || attribute_keys(last.attributes@).contains(key)) by {
            assert(forall|i: int| 0 <= i < rest.len() ==> #[trigger] links[i] == rest[i]);
        }
    }
}

/// Whether exemplars have what a key identifies.
spec fn exemplars_have(exemplars: Seq<MetricExemplar>, key: CorrelationKey) -> bool {
    match key {
        CorrelationKey::Trace(id) => exists|i: int|
            0 <= i < exemplars.len() && (#[trigger] exemplars[i]).trace_id == Some(id),
        CorrelationKey::Attribute(id) => exists|i: int|
            0 <= i < exemplars.len() && stands_among(
                (#[trigger] exemplars[i]).filtered_attributes@,
                id,
            ),
        _ => false,
    }
}

proof fn lemma_exemplar_keys(exemplars: Seq<MetricExemplar>, key: CorrelationKey)
    ensures
        exemplar_keys(exemplars).contains(key) <==> exemplars_have(exemplars, key),
    decreases exemplars.len(),
{
    if exemplars.len() > 0 {
        let rest = exemplars.drop_last();
        let last = exemplars.last();
        let trace = match last.trace_id {
            Some(id) => seq![CorrelationKey::Trace(id)],
            None => Seq::empty(),
        };
        let removed = attribute_keys(last.filtered_attributes@);
        lemma_exemplar_keys(rest, key);
        lemma_attribute_keys(last.filtered_attributes@, key);
        lemma_contains_sum(exemplar_keys(rest) + trace, removed, key);
        lemma_contains_sum(exemplar_keys(rest), trace, key);
        assert(trace.contains(key) <==> (key matches CorrelationKey::Trace(id) && last.trace_id
            == Some(id))) by {
            if let Some(id) = last.trace_id {
                assert(trace[0] == CorrelationKey::Trace(id));
            }
        }
        assert(exemplars[exemplars.len() - 1] == last);
        assert(forall|i: int| 0 <= i < rest.len() ==> #[trigger] rest[i] == exemplars[i]);
        assert(exemplars_have(rest, key) ==> exemplars_have(exemplars, key));
        assert(exemplars_have(exemplars, key) ==> exemplars_have(rest, key) || trace.contains(key)
            || removed.contains(key)) by {
            assert(forall|i: int| 0 <= i < rest.len() ==> #[trigger] exemplars[i] == rest[i]);
        }
    }
}

proof fn lemma_contexts(
    resource: ResourceContextId,
    scope: ScopeContextId,
    key: CorrelationKey,
)
    ensures
        seq![CorrelationKey::Resource(resource), CorrelationKey::Scope(scope)].contains(key)
            <==> key == CorrelationKey::Resource(resource) || key == CorrelationKey::Scope(scope),
{
    let heads = seq![CorrelationKey::Resource(resource), CorrelationKey::Scope(scope)];
    assert(heads[0] == CorrelationKey::Resource(resource));
    assert(heads[1] == CorrelationKey::Scope(scope));
}

/// A log is indexed under its trace, its resource, its scope and every pair of
/// its resource, its scope and itself, and under nothing else.
pub proof fn logs_are_indexed_under_what_they_have(log: DurableLog, key: CorrelationKey)
    ensures
        log_index_keys(log).contains(key) <==> log_has(log, key),
{
    let trace = match log.trace_id {
        Some(id) => seq![CorrelationKey::Trace(id)],
        None => Seq::empty(),
    };
    let heads = seq![
        CorrelationKey::Resource(log.resource.identity()),
        CorrelationKey::Scope(log.scope.identity()),
    ];
    let (resource, scope, own) = (
        attribute_keys(log.resource.attributes@),
        attribute_keys(log.scope.attributes@),
        attribute_keys(log.attributes@),
    );
    lemma_contains_sum(trace + heads + resource + scope, own, key);
    lemma_contains_sum(trace + heads + resource, scope, key);
    lemma_contains_sum(trace + heads, resource, key);
    lemma_contains_sum(trace, heads, key);
    lemma_contexts(log.resource.identity(), log.scope.identity(), key);
    lemma_attribute_keys(log.resource.attributes@, key);
    lemma_attribute_keys(log.scope.attributes@, key);
    lemma_attribute_keys(log.attributes@, key);
    assert(trace.contains(key) <==> (key matches CorrelationKey::Trace(id) && log.trace_id == Some(
        id,
    ))) by {
        if let Some(id) = log.trace_id {
            assert(trace[0] == CorrelationKey::Trace(id));
        }
    }
}

/// A span is indexed under, and offers, its trace and those that it links, its
/// resource, its scope and every pair of its resource, its scope, itself, its
/// events and its links, and nothing else.
pub proof fn spans_are_indexed_under_what_they_have(span: DurableSpan, key: CorrelationKey)
    ensures
        span_index_keys(span).contains(key) <==> span_has(span, key),
        span_keys(span).contains(key) <==> span_has(span, key),
{
    let trace = seq![CorrelationKey::Trace(span.trace_id)];
    let heads = seq![
        CorrelationKey::Resource(span.resource.identity()),
        CorrelationKey::Scope(span.scope.identity()),
    ];
    let (resource, scope, own) = (
        attribute_keys(span.resource.attributes@),
        attribute_keys(span.scope.attributes@),
        attribute_keys(span.attributes@),
    );
    let (events, links) = (event_keys(span.events@), link_keys(span.links@));
    lemma_contains_sum(trace + links + heads + resource + scope + own, events, key);
    lemma_contains_sum(trace + links + heads + resource + scope, own, key);
    lemma_contains_sum(trace + links + heads + resource, scope, key);
    lemma_contains_sum(trace + links + heads, resource, key);
    lemma_contains_sum(trace + links, heads, key);
    lemma_contains_sum(trace, links, key);
    lemma_contexts(span.resource.identity(), span.scope.identity(), key);
    lemma_attribute_keys(span.resource.attributes@, key);
    lemma_attribute_keys(span.scope.attributes@, key);
    lemma_attribute_keys(span.attributes@, key);
    lemma_event_keys(span.events@, key);
    lemma_link_keys(span.links@, key);
    assert(trace.contains(key) <==> key == CorrelationKey::Trace(span.trace_id)) by {
        assert(trace[0] == CorrelationKey::Trace(span.trace_id));
    }
    crate::correlation_query::spans_are_indexed_under_their_keys(span, key);
}

/// A metric point is indexed under, and offers, the trace of every exemplar, its
/// resource, its scope and every pair of its resource, its scope, its series, its
/// metadata and its exemplars, and nothing else.
pub proof fn metrics_are_indexed_under_what_they_have(
    point: DurableMetricPoint,
    key: CorrelationKey,
)
    ensures
        metric_index_keys(point).contains(key) <==> metric_has(point, key),
        metric_keys(point).contains(key) <==> metric_has(point, key),
{
    let identity = point.identity;
    let heads = seq![
        CorrelationKey::Resource(identity.resource.identity()),
        CorrelationKey::Scope(identity.scope.identity()),
    ];
    let (resource, scope, own) = (
        attribute_keys(identity.resource.attributes@),
        attribute_keys(identity.scope.attributes@),
        attribute_keys(identity.point_attributes@),
    );
    let (metadata, exemplars) = (
        attribute_keys(point.metadata@),
        exemplar_keys(point.exemplars@),
    );
    lemma_contains_sum(exemplars + heads + resource + scope + own, metadata, key);
    lemma_contains_sum(exemplars + heads + resource + scope, own, key);
    lemma_contains_sum(exemplars + heads + resource, scope, key);
    lemma_contains_sum(exemplars + heads, resource, key);
    lemma_contains_sum(exemplars, heads, key);
    lemma_contains_sum(heads + resource + scope + own + metadata, exemplars, key);
    lemma_contains_sum(heads + resource + scope + own, metadata, key);
    lemma_contains_sum(heads + resource + scope, own, key);
    lemma_contains_sum(heads + resource, scope, key);
    lemma_contains_sum(heads, resource, key);
    lemma_contexts(identity.resource.identity(), identity.scope.identity(), key);
    lemma_attribute_keys(identity.resource.attributes@, key);
    lemma_attribute_keys(identity.scope.attributes@, key);
    lemma_attribute_keys(identity.point_attributes@, key);
    lemma_attribute_keys(point.metadata@, key);
    lemma_exemplar_keys(point.exemplars@, key);
}

/// The trace of every exemplar of a metric point is among the keys under which
/// the point is indexed, and among those that it offers.
pub proof fn exemplar_traces_reach_their_point(
    point: DurableMetricPoint,
    exemplar: int,
    trace_id: TraceId,
)
    requires
        0 <= exemplar < point.exemplars@.len(),
        point.exemplars@[exemplar].trace_id == Some(trace_id),
    ensures
        metric_index_keys(point).contains(CorrelationKey::Trace(trace_id)),
        metric_keys(point).contains(CorrelationKey::Trace(trace_id)),
{
    metrics_are_indexed_under_what_they_have(point, CorrelationKey::Trace(trace_id));
}

/// Whether a query asks for a key.
pub open spec fn asks(query: CorrelationQuery, key: CorrelationKey) -> bool {
    match key {
        CorrelationKey::Trace(id) => query.trace_id == Some(id),
        CorrelationKey::Resource(id) => query.resource_id == Some(id),
        CorrelationKey::Scope(id) => query.scope_id == Some(id),
        CorrelationKey::Attribute(id) => query.attributes@.contains(id),
    }
}

/// The keys of a query are the trace, the resource, the scope and the pairs that
/// it asks for, and nothing else.
pub proof fn queries_ask_for_what_they_name(query: CorrelationQuery, key: CorrelationKey)
    ensures
        query.keys().contains(key) <==> asks(query, key),
{
    let trace = match query.trace_id {
        Some(id) => seq![CorrelationKey::Trace(id)],
        None => Seq::empty(),
    };
    let resource = match query.resource_id {
        Some(id) => seq![CorrelationKey::Resource(id)],
        None => Seq::empty(),
    };
    let scope = match query.scope_id {
        Some(id) => seq![CorrelationKey::Scope(id)],
        None => Seq::empty(),
    };
    let pairs = query.attributes@.map_values(
        |id: AttributeFingerprint| CorrelationKey::Attribute(id),
    );
    lemma_contains_sum(trace + resource + scope, pairs, key);
    lemma_contains_sum(trace + resource, scope, key);
    lemma_contains_sum(trace, resource, key);
    assert(trace.contains(key) <==> (key matches CorrelationKey::Trace(id) && query.trace_id
        == Some(id))) by {
        if let Some(id) = query.trace_id {
            assert(trace[0] == CorrelationKey::Trace(id));
        }
    }
    assert(resource.contains(key) <==> (key matches CorrelationKey::Resource(id)
        && query.resource_id == Some(id))) by {
        if let Some(id) = query.resource_id {
            assert(resource[0] == CorrelationKey::Resource(id));
        }
    }
    assert(scope.contains(key) <==> (key matches CorrelationKey::Scope(id) && query.scope_id
        == Some(id))) by {
        if let Some(id) = query.scope_id {
            assert(scope[0] == CorrelationKey::Scope(id));
        }
    }
    assert(pairs.contains(key) <==> (key matches CorrelationKey::Attribute(id)
        && query.attributes@.contains(id))) by {
        if pairs.contains(key) {
            let i = choose|i: int| 0 <= i < pairs.len() && pairs[i] == key;
            assert(key == CorrelationKey::Attribute(query.attributes@[i]));
        }
        if let CorrelationKey::Attribute(id) = key {
            if query.attributes@.contains(id) {
                let i = choose|i: int|
                    0 <= i < query.attributes@.len() && query.attributes@[i] == id;
                assert(pairs[i] == key);
            }
        }
    }
}

proof fn lemma_offers(
    query: CorrelationQuery,
    offered: Seq<CorrelationKey>,
    has: spec_fn(CorrelationKey) -> bool,
)
    requires
        forall|key: CorrelationKey| #[trigger] offered.contains(key) <==> has(key),
    ensures
        offers(offered, query.keys()) <==> forall|key: CorrelationKey|
            asks(query, key) ==> #[trigger] has(key),
{
    let wanted = query.keys();
    if offers(offered, wanted) {
        assert forall|key: CorrelationKey| asks(query, key) implies #[trigger] has(key) by {
            queries_ask_for_what_they_name(query, key);
            let i = choose|i: int| 0 <= i < wanted.len() && wanted[i] == key;
            assert(offered.contains(wanted[i]));
        }
    }
    if forall|key: CorrelationKey| asks(query, key) ==> #[trigger] has(key) {
        assert forall|i: int| 0 <= i < wanted.len() implies offered.contains(
            #[trigger] wanted[i],
        ) by {
            queries_ask_for_what_they_name(query, wanted[i]);
            assert(wanted.contains(wanted[i]));
            assert(has(wanted[i]));
        }
    }
}

/// A span satisfies a query exactly where it is of the tenant and has everything
/// that the query asks for.
pub proof fn spans_satisfy_by_what_they_have(query: CorrelationQuery, span: DurableSpan)
    ensures
        span_satisfies(query, span) <==> span.tenant@ == query.tenant@ && forall|
            key: CorrelationKey,
        |
            asks(query, key) ==> #[trigger] span_has(span, key),
{
    let has = |key: CorrelationKey| span_has(span, key);
    assert forall|key: CorrelationKey| #[trigger] span_keys(span).contains(key) <==> has(key) by {
        spans_are_indexed_under_what_they_have(span, key);
    }
    lemma_offers(query, span_keys(span), has);
    assert(forall|key: CorrelationKey| #[trigger] has(key) <==> span_has(span, key));
    assert(forall|key: CorrelationKey| #[trigger] span_has(span, key) <==> has(key));
}

/// A metric point satisfies a query exactly where it is of the tenant and has
/// everything that the query asks for.
pub proof fn metrics_satisfy_by_what_they_have(query: CorrelationQuery, point: DurableMetricPoint)
    ensures
        metric_satisfies(query, point) <==> point.identity.tenant@ == query.tenant@ && forall|
            key: CorrelationKey,
        |
            asks(query, key) ==> #[trigger] metric_has(point, key),
{
    let has = |key: CorrelationKey| metric_has(point, key);
    assert forall|key: CorrelationKey| #[trigger] metric_keys(point).contains(key) <==> has(
        key,
    ) by {
        metrics_are_indexed_under_what_they_have(point, key);
    }
    lemma_offers(query, metric_keys(point), has);
    assert(forall|key: CorrelationKey| #[trigger] has(key) <==> metric_has(point, key));
    assert(forall|key: CorrelationKey| #[trigger] metric_has(point, key) <==> has(key));
}

/// Whether a query reaches a record by its reference and its event time.
pub open spec fn reaches(query: CorrelationQuery, record: TelemetryRecordRef, time: u64) -> bool {
    &&& query.after matches Some(after) ==> after.precedes(record)
    &&& query.signal matches Some(signal) ==> signal == record.signal
    &&& query.start_time_unix_nanos matches Some(start) ==> start <= time
    &&& query.end_time_unix_nanos matches Some(end) ==> time <= end
}

/// Whether a query finds a record, or its limit is taken by earlier ones.
pub open spec fn finds(
    state: IndexState,
    query: CorrelationQuery,
    record: TelemetryRecordRef,
) -> bool {
    let found = state.found(query);
    found.contains(record) || found.len() == query.limit && forall|i: int|
        0 <= i < found.len() ==> (#[trigger] found[i]).precedes(record)
}

/// What is known of an index from which nothing was dropped and of a query of a
/// tenant that it knows.
pub open spec fn complete_for(
    config: CorrelationConfig,
    steps: Seq<IndexingStep>,
    query: CorrelationQuery,
) -> bool {
    &&& state_after(config, steps).dropped_postings == 0
    &&& one_time_each(steps)
    &&& state_after(config, steps).tenant_number(query.tenant@) is Some
    &&& exists|key: CorrelationKey| #[trigger] asks(query, key)
}

proof fn lemma_step_is_found(
    config: CorrelationConfig,
    steps: Seq<IndexingStep>,
    at: int,
    query: CorrelationQuery,
)
    requires
        complete_for(config, steps, query),
        0 <= at < steps.len(),
        steps[at].tenant == query.tenant@,
        in_reach(query, steps[at].posting),
        forall|key: CorrelationKey| asks(query, key) ==> #[trigger] steps[at].keys.contains(key),
    ensures
        finds(state_after(config, steps), query, steps[at].posting.record_ref),
{
    let record = steps[at].posting.record_ref;
    let key = choose|key: CorrelationKey| #[trigger] asks(query, key);
    queries_ask_for_what_they_name(query, key);
    assert(query.keys().len() > 0);
    assert forall|i: int| 0 <= i < query.keys().len() implies carries(
        steps,
        query.tenant@,
        #[trigger] query.keys()[i],
        record,
    ) by {
        assert(query.keys().contains(query.keys()[i]));
        queries_ask_for_what_they_name(query, query.keys()[i]);
        assert(steps[at].keys.contains(query.keys()[i]));
    }
    queries_give_back_what_was_indexed(config, steps, query);
    assert(crate::correlation_history::answers(steps, query, record));
}

/// Once a log was indexed and nothing was dropped, a query of its tenant for what
/// the log has finds it by its record, at its event time.
pub proof fn indexed_logs_are_found(
    config: CorrelationConfig,
    steps: Seq<IndexingStep>,
    at: int,
    log: DurableLog,
    query: CorrelationQuery,
)
    requires
        complete_for(config, steps, query),
        0 <= at < steps.len(),
        steps[at] == log_step(query.tenant@, log),
        reaches(query, log.record_ref, log.timestamp_unix_nanos),
        forall|key: CorrelationKey| asks(query, key) ==> #[trigger] log_has(log, key),
    ensures
        finds(state_after(config, steps), query, log.record_ref),
{
    assert forall|key: CorrelationKey| asks(query, key) implies #[trigger] steps[at].keys.contains(
        key,
    ) by {
        assert(log_has(log, key));
        logs_are_indexed_under_what_they_have(log, key);
    }
    lemma_step_is_found(config, steps, at, query);
}

/// Once a span was indexed and nothing was dropped, a query of its tenant for what
/// the span has finds it by its record, at its start time.
pub proof fn indexed_spans_are_found(
    config: CorrelationConfig,
    steps: Seq<IndexingStep>,
    at: int,
    span: DurableSpan,
    query: CorrelationQuery,
)
    requires
        complete_for(config, steps, query),
        0 <= at < steps.len(),
        steps[at] == span_step(span),
        span.tenant@ == query.tenant@,
        reaches(query, span.record_ref, span.start_time_unix_nanos),
        forall|key: CorrelationKey| asks(query, key) ==> #[trigger] span_has(span, key),
    ensures
        finds(state_after(config, steps), query, span.record_ref),
{
    assert forall|key: CorrelationKey| asks(query, key) implies #[trigger] steps[at].keys.contains(
        key,
    ) by {
        assert(span_has(span, key));
        spans_are_indexed_under_what_they_have(span, key);
    }
    lemma_step_is_found(config, steps, at, query);
}

/// Once a metric point was indexed and nothing was dropped, a query of its tenant
/// for what the point has finds it by its record, at its event time.
pub proof fn indexed_metrics_are_found(
    config: CorrelationConfig,
    steps: Seq<IndexingStep>,
    at: int,
    point: DurableMetricPoint,
    query: CorrelationQuery,
)
    requires
        complete_for(config, steps, query),
        0 <= at < steps.len(),
        steps[at] == metric_step(point),
        point.identity.tenant@ == query.tenant@,
        reaches(query, point.record_ref, point.timestamp_unix_nanos),
        forall|key: CorrelationKey| asks(query, key) ==> #[trigger] metric_has(point, key),
    ensures
        finds(state_after(config, steps), query, point.record_ref),
{
    assert forall|key: CorrelationKey| asks(query, key) implies #[trigger] steps[at].keys.contains(
        key,
    ) by {
        assert(metric_has(point, key));
        metrics_are_indexed_under_what_they_have(point, key);
    }
    lemma_step_is_found(config, steps, at, query);
}

/// Once a metric point was indexed and nothing was dropped, a query of its tenant
/// for nothing but the trace of one of its exemplars finds the point.
pub proof fn exemplar_traces_find_their_point(
    config: CorrelationConfig,
    steps: Seq<IndexingStep>,
    at: int,
    point: DurableMetricPoint,
    exemplar: int,
    query: CorrelationQuery,
)
    requires
        state_after(config, steps).dropped_postings == 0,
        one_time_each(steps),
        state_after(config, steps).tenant_number(query.tenant@) is Some,
        0 <= at < steps.len(),
        steps[at] == metric_step(point),
        point.identity.tenant@ == query.tenant@,
        0 <= exemplar < point.exemplars@.len(),
        query.trace_id is Some,
        query.trace_id == point.exemplars@[exemplar].trace_id,
        query.resource_id is None,
        query.scope_id is None,
        query.attributes@.len() == 0,
        reaches(query, point.record_ref, point.timestamp_unix_nanos),
    ensures
        finds(state_after(config, steps), query, point.record_ref),
{
    assert(asks(query, CorrelationKey::Trace(query.trace_id->0)));
    assert forall|key: CorrelationKey| asks(query, key) implies #[trigger] metric_has(
        point,
        key,
    ) by {
        assert(key == CorrelationKey::Trace(query.trace_id->0));
    }
    indexed_metrics_are_found(config, steps, at, point, query);
}

proof fn lemma_kept_list(list: Seq<CorrelationPosting>, cutoff: u64, posting: CorrelationPosting)
    ensures
        kept_list(list, cutoff).contains(posting) <==> list.contains(posting)
            && posting.timestamp_unix_nanos >= cutoff,
        kept_list(list, cutoff).len() <= list.len(),
    decreases list.len(),
{
    if list.len() > 0 {
        let rest = list.drop_last();
        let kept = kept_list(rest, cutoff);
        lemma_kept_list(rest, cutoff, posting);
        assert(list[list.len() - 1] == list.last());
        assert(list.contains(posting) <==> rest.contains(posting) || list.last() == posting) by {
            if list.contains(posting) {
                let i = choose|i: int| 0 <= i < list.len() && list[i] == posting;
                if i < rest.len() {
                    assert(rest[i] == posting);
                }
            }
            if rest.contains(posting) {
                let i = choose|i: int| 0 <= i < rest.len() && rest[i] == posting;
                assert(list[i] == posting);
            }
        }
        let grown = kept.push(list.last());
        assert(grown[kept.len() as int] == list.last());
        assert(grown.contains(posting) <==> kept.contains(posting) || list.last() == posting) by {
            if grown.contains(posting) {
                let i = choose|i: int| 0 <= i < grown.len() && grown[i] == posting;
                if i < kept.len() {
                    assert(kept[i] == posting);
                }
            }
            if kept.contains(posting) {
                let i = choose|i: int| 0 <= i < kept.len() && kept[i] == posting;
                assert(grown[i] == posting);
            }
        }
    }
}

/// Retention keeps a posting exactly where it is not older than the cutoff, keeps
/// no empty list, and leaves tenants and the count of omitted postings alone.
pub proof fn retention_keeps_what_is_recent(
    state: IndexState,
    cutoff: u64,
    slot: Slot,
    posting: CorrelationPosting,
)
    ensures
        ({
            let kept = state.retaining(cutoff);
            &&& (kept.postings.contains_key(slot) && kept.postings[slot].contains(posting))
                <==> (state.postings.contains_key(slot) && state.postings[slot].contains(posting)
                && posting.timestamp_unix_nanos >= cutoff)
            &&& kept.postings.contains_key(slot) ==> kept.postings[slot].len() > 0
            &&& kept.tenants == state.tenants
            &&& kept.dropped_postings == state.dropped_postings
        }),
{
    if state.postings.contains_key(slot) {
        lemma_kept_list(state.postings[slot], cutoff, posting);
        if kept_list(state.postings[slot], cutoff).contains(posting) {
            assert(kept_list(state.postings[slot], cutoff).len() > 0);
            assert(kept_postings(state.postings, cutoff).contains_key(slot));
        }
    }
}

} // verus!
