//! Cross-signal lookup constraints and the keys that records offer to them.

use vstd::prelude::*;

use crate::attributes::{
    attribute_identity, text_identity, AttributeFingerprint, TelemetryAttribute, TelemetryValue,
};
use crate::model::{TelemetryRecordRef, TelemetrySignal};
use crate::records::{
    DurableLog, DurableMetricPoint, DurableSpan, MetricExemplar, ResourceContextId, ScopeContextId,
    SpanEvent, SpanLink, TraceId,
};
use crate::text::same_str;

verus! {

/// One identity by which records are connected.
#[derive(Debug, Clone, Copy, PartialEq, Eq, PartialOrd, Ord, Hash, Structural)]
pub enum CorrelationKey {
    /// Shared trace.
    Trace(TraceId),
    /// Shared producing entity.
    Resource(ResourceContextId),
    /// Shared emitting scope.
    Scope(ScopeContextId),
    /// Shared typed key/value pair.
    Attribute(AttributeFingerprint),
}

impl CorrelationKey {
    /// Number of the kind of identity.
    pub open spec fn kind(self) -> u8 {
        match self {
            CorrelationKey::Trace(_) => 0,
            CorrelationKey::Resource(_) => 1,
            CorrelationKey::Scope(_) => 2,
            CorrelationKey::Attribute(_) => 3,
        }
    }

    /// The identity itself.
    pub open spec fn number(self) -> u128 {
        match self {
            CorrelationKey::Trace(id) => id.0,
            CorrelationKey::Resource(id) => id.0,
            CorrelationKey::Scope(id) => id.0,
            CorrelationKey::Attribute(id) => id.0,
        }
    }

    /// Kind and identity as integers.
    pub fn parts(self) -> (parts: (u8, u128))
        ensures
            parts == (self.kind(), self.number()),
    {
        match self {
            CorrelationKey::Trace(id) => (0, id.0),
            CorrelationKey::Resource(id) => (1, id.0),
            CorrelationKey::Scope(id) => (2, id.0),
            CorrelationKey::Attribute(id) => (3, id.0),
        }
    }
}

/// Different keys differ in kind or in identity.
pub proof fn key_parts_identify_the_key(left: CorrelationKey, right: CorrelationKey)
    requires
        left.kind() == right.kind(),
        left.number() == right.number(),
    ensures
        left == right,
{
}

/// Cross-signal lookup constraints combined with AND semantics.
#[derive(Debug, PartialEq, Eq)]
pub struct CorrelationQuery {
    /// Authenticated tenant.
    pub tenant: String,
    /// Optional trace link shared by spans, logs, and metric exemplars.
    pub trace_id: Option<TraceId>,
    /// Optional exact resource context.
    pub resource_id: Option<ResourceContextId>,
    /// Optional exact instrumentation scope.
    pub scope_id: Option<ScopeContextId>,
    /// Exact typed metadata key/value identities.
    pub attributes: Vec<AttributeFingerprint>,
    /// String labels rendered by compatibility APIs and matched across signal scopes.
    pub labels: Vec<(String, String)>,
    /// Optional signal restriction.
    pub signal: Option<TelemetrySignal>,
    /// Inclusive lower event-time bound.
    pub start_time_unix_nanos: Option<u64>,
    /// Inclusive upper event-time bound.
    pub end_time_unix_nanos: Option<u64>,
    /// Exclusive stable continuation point.
    pub after: Option<TelemetryRecordRef>,
    /// Maximum record references returned.
    pub limit: usize,
}

impl CorrelationQuery {
    /// Creates an unconstrained, bounded query for one tenant.
    #[must_use]
    pub fn new(tenant: &str) -> (query: Self)
        ensures
            query.tenant@ == tenant@,
            query.trace_id is None,
            query.resource_id is None,
            query.scope_id is None,
            query.attributes@ == Seq::<AttributeFingerprint>::empty(),
            query.labels@ == Seq::<(String, String)>::empty(),
            query.signal is None,
            query.start_time_unix_nanos is None,
            query.end_time_unix_nanos is None,
            query.after is None,
            query.limit == 1_000,
    {
        Self {
            tenant: tenant.to_owned(),
            trace_id: None,
            resource_id: None,
            scope_id: None,
            attributes: Vec::new(),
            labels: Vec::new(),
            signal: None,
            start_time_unix_nanos: None,
            end_time_unix_nanos: None,
            after: None,
            limit: 1_000,
        }
    }

    /// Requires an exact trace link.
    #[must_use]
    pub fn with_trace_id(self, trace_id: TraceId) -> (query: Self)
        ensures
            query == (Self { trace_id: Some(trace_id), ..self }),
    {
        let mut query = self;
        query.trace_id = Some(trace_id);
        query
    }

    /// Requires an exact resource context.
    #[must_use]
    pub fn with_resource_id(self, resource_id: ResourceContextId) -> (query: Self)
        ensures
            query == (Self { resource_id: Some(resource_id), ..self }),
    {
        let mut query = self;
        query.resource_id = Some(resource_id);
        query
    }

    /// Requires an exact instrumentation scope.
    #[must_use]
    pub fn with_scope_id(self, scope_id: ScopeContextId) -> (query: Self)
        ensures
            query == (Self { scope_id: Some(scope_id), ..self }),
    {
        let mut query = self;
        query.scope_id = Some(scope_id);
        query
    }

    /// Requires one exact typed metadata key/value.
    #[must_use]
    pub fn with_attribute(self, attribute: &TelemetryAttribute) -> (query: Self)
        ensures
            query.attributes@ == self.attributes@.push(attribute_identity(*attribute)),
            query == (Self { attributes: query.attributes, ..self }),
    {
        let mut query = self;
        query.attributes.push(attribute.fingerprint());
        query
    }

    /// Requires one exact string label wherever that key/value is attached.
    #[must_use]
    pub fn with_label(self, key: &str, value: &str) -> (query: Self)
        ensures
            query == (Self { attributes: query.attributes, labels: query.labels, ..self }),
            query.attributes@ == self.attributes@.push(text_identity(key@, value@)),
            query.labels@.len() == self.labels@.len() + 1,
            query.labels@.drop_last() == self.labels@,
            query.labels@.last().0@ == key@,
            query.labels@.last().1@ == value@,
    {
        let mut query = self;
        let attribute = TelemetryAttribute::new(key, TelemetryValue::String(value.to_owned()));
        query.attributes.push(attribute.fingerprint());
        query.labels.push((key.to_owned(), value.to_owned()));
        assert(query.labels@.drop_last() =~= self.labels@);
        query
    }

    /// Restricts results to one signal.
    #[must_use]
    pub fn for_signal(self, signal: TelemetrySignal) -> (query: Self)
        ensures
            query == (Self { signal: Some(signal), ..self }),
    {
        let mut query = self;
        query.signal = Some(signal);
        query
    }

    /// Continues strictly after a record reference returned by a prior page.
    #[must_use]
    pub fn after(self, record_ref: TelemetryRecordRef) -> (query: Self)
        ensures
            query == (Self { after: Some(record_ref), ..self }),
    {
        let mut query = self;
        query.after = Some(record_ref);
        query
    }

    /// Sets the bounded result count.
    #[must_use]
    pub fn with_limit(self, limit: usize) -> (query: Self)
        ensures
            query == (Self { limit, ..self }),
    {
        let mut query = self;
        query.limit = limit;
        query
    }

    /// Every key that a matching record must offer.
    pub open spec fn keys(self) -> Seq<CorrelationKey> {
        (match self.trace_id {
            Some(id) => seq![CorrelationKey::Trace(id)],
            None => Seq::empty(),
        }) + (match self.resource_id {
            Some(id) => seq![CorrelationKey::Resource(id)],
            None => Seq::empty(),
        }) + (match self.scope_id {
            Some(id) => seq![CorrelationKey::Scope(id)],
            None => Seq::empty(),
        }) + self.attributes@.map_values(|id: AttributeFingerprint| CorrelationKey::Attribute(id))
    }
}

/// Lists every key that a matching record must offer.
pub fn query_keys(query: &CorrelationQuery) -> (keys: Vec<CorrelationKey>)
    ensures
        keys@ == query.keys(),
{
    let mut keys: Vec<CorrelationKey> = Vec::new();
    if let Some(id) = query.trace_id {
        keys.push(CorrelationKey::Trace(id));
    }
    if let Some(id) = query.resource_id {
        keys.push(CorrelationKey::Resource(id));
    }
    if let Some(id) = query.scope_id {
        keys.push(CorrelationKey::Scope(id));
    }
    let ghost contexts = keys@;
    let ghost all = query.attributes@.map_values(
        |id: AttributeFingerprint| CorrelationKey::Attribute(id),
    );
    let mut index: usize = 0;
    assert(keys@ =~= contexts + all.take(0));
    while index < query.attributes.len()
        invariant
            index <= query.attributes@.len(),
            all == query.attributes@.map_values(
                |id: AttributeFingerprint| CorrelationKey::Attribute(id),
            ),
            keys@ == contexts + all.take(index as int),
        decreases query.attributes@.len() - index,
    {
        keys.push(CorrelationKey::Attribute(query.attributes[index]));
        index = index + 1;
        assert(keys@ =~= contexts + all.take(index as int));
    }
    assert(all.take(index as int) =~= all);
    assert(keys@ =~= query.keys());
    keys
}

/// The keys of typed pairs.
pub open spec fn attribute_keys(attributes: Seq<TelemetryAttribute>) -> Seq<CorrelationKey> {
    attributes.map_values(
        |attribute: TelemetryAttribute| CorrelationKey::Attribute(attribute_identity(attribute)),
    )
}

/// Appends the keys of typed pairs.
pub fn push_attribute_keys(keys: &mut Vec<CorrelationKey>, attributes: &Vec<TelemetryAttribute>)
    ensures
        final(keys)@ == old(keys)@ + attribute_keys(attributes@),
{
    let ghost all = attribute_keys(attributes@);
    let mut index: usize = 0;
    assert(keys@ =~= old(keys)@ + all.take(0));
    while index < attributes.len()
        invariant
            index <= attributes@.len(),
            all == attribute_keys(attributes@),
            keys@ == old(keys)@ + all.take(index as int),
        decreases attributes@.len() - index,
    {
        keys.push(CorrelationKey::Attribute(attributes[index].fingerprint()));
        index = index + 1;
        assert(keys@ =~= old(keys)@ + all.take(index as int));
    }
    assert(all.take(index as int) =~= all);
}

/// The keys of span events.
pub open spec fn event_keys(events: Seq<SpanEvent>) -> Seq<CorrelationKey>
    decreases events.len(),
{
    if events.len() == 0 {
        Seq::empty()
    } else {
        event_keys(events.drop_last()) + attribute_keys(events.last().attributes@)
    }
}

/// Appends the keys of span events.
pub fn push_event_keys(keys: &mut Vec<CorrelationKey>, events: &Vec<SpanEvent>)
    ensures
        final(keys)@ == old(keys)@ + event_keys(events@),
{
    let mut index: usize = 0;
    assert(events@.take(0) =~= Seq::<SpanEvent>::empty());
    assert(keys@ =~= old(keys)@ + event_keys(events@.take(0)));
    while index < events.len()
        invariant
            index <= events@.len(),
            keys@ == old(keys)@ + event_keys(events@.take(index as int)),
        decreases events@.len() - index,
    {
        push_attribute_keys(keys, &events[index].attributes);
        proof {
            let longer = events@.take(index + 1);
            assert(longer.drop_last() =~= events@.take(index as int));
            assert(keys@ =~= old(keys)@ + event_keys(longer));
        }
        index = index + 1;
    }
    assert(events@.take(index as int) =~= events@);
}

/// The keys of span links: each linked trace, then the link's pairs.
pub open spec fn link_keys(links: Seq<SpanLink>) -> Seq<CorrelationKey>
    decreases links.len(),
{
    if links.len() == 0 {
        Seq::empty()
    } else {
        link_keys(links.drop_last()) + seq![CorrelationKey::Trace(links.last().trace_id)]
            + attribute_keys(links.last().attributes@)
    }
}

/// Appends the keys of span links.
pub fn push_link_keys(keys: &mut Vec<CorrelationKey>, links: &Vec<SpanLink>)
    ensures
        final(keys)@ == old(keys)@ + link_keys(links@),
{
    let mut index: usize = 0;
    assert(links@.take(0) =~= Seq::<SpanLink>::empty());
    assert(keys@ =~= old(keys)@ + link_keys(links@.take(0)));
    while index < links.len()
        invariant
            index <= links@.len(),
            keys@ == old(keys)@ + link_keys(links@.take(index as int)),
        decreases links@.len() - index,
    {
        keys.push(CorrelationKey::Trace(links[index].trace_id));
        push_attribute_keys(keys, &links[index].attributes);
        proof {
            let longer = links@.take(index + 1);
            assert(longer.drop_last() =~= links@.take(index as int));
            assert(keys@ =~= old(keys)@ + link_keys(longer));
        }
        index = index + 1;
    }
    assert(links@.take(index as int) =~= links@);
}

/// The keys of exemplars: each linked trace, then the removed pairs.
pub open spec fn exemplar_keys(exemplars: Seq<MetricExemplar>) -> Seq<CorrelationKey>
    decreases exemplars.len(),
{
    if exemplars.len() == 0 {
        Seq::empty()
    } else {
        exemplar_keys(exemplars.drop_last()) + (match exemplars.last().trace_id {
            Some(id) => seq![CorrelationKey::Trace(id)],
            None => Seq::empty(),
        }) + attribute_keys(exemplars.last().filtered_attributes@)
    }
}

/// Appends the keys of exemplars.
pub fn push_exemplar_keys(keys: &mut Vec<CorrelationKey>, exemplars: &Vec<MetricExemplar>)
    ensures
        final(keys)@ == old(keys)@ + exemplar_keys(exemplars@),
{
    let mut index: usize = 0;
    assert(exemplars@.take(0) =~= Seq::<MetricExemplar>::empty());
    assert(keys@ =~= old(keys)@ + exemplar_keys(exemplars@.take(0)));
    while index < exemplars.len()
        invariant
            index <= exemplars@.len(),
            keys@ == old(keys)@ + exemplar_keys(exemplars@.take(index as int)),
        decreases exemplars@.len() - index,
    {
        if let Some(id) = exemplars[index].trace_id {
            keys.push(CorrelationKey::Trace(id));
        }
        push_attribute_keys(keys, &exemplars[index].filtered_attributes);
        proof {
            let longer = exemplars@.take(index + 1);
            assert(longer.drop_last() =~= exemplars@.take(index as int));
            assert(keys@ =~= old(keys)@ + exemplar_keys(longer));
        }
        index = index + 1;
    }
    assert(exemplars@.take(index as int) =~= exemplars@);
}

/// Every key that a span offers.
pub open spec fn span_keys(span: DurableSpan) -> Seq<CorrelationKey> {
    seq![
        CorrelationKey::Trace(span.trace_id),
        CorrelationKey::Resource(span.resource.identity()),
        CorrelationKey::Scope(span.scope.identity()),
    ] + attribute_keys(span.resource.attributes@) + attribute_keys(span.scope.attributes@)
        + attribute_keys(span.attributes@) + event_keys(span.events@) + link_keys(span.links@)
}

/// Lists every key that a span offers.
pub fn visit_span_keys(span: &DurableSpan) -> (keys: Vec<CorrelationKey>)
    ensures
        keys@ == span_keys(*span),
{
    let mut keys: Vec<CorrelationKey> = Vec::new();
    keys.push(CorrelationKey::Trace(span.trace_id));
    keys.push(CorrelationKey::Resource(span.resource_id()));
    keys.push(CorrelationKey::Scope(span.scope_id()));
    push_attribute_keys(&mut keys, &span.resource.attributes);
    push_attribute_keys(&mut keys, &span.scope.attributes);
    push_attribute_keys(&mut keys, &span.attributes);
    push_event_keys(&mut keys, &span.events);
    push_link_keys(&mut keys, &span.links);
    assert(keys@ =~= span_keys(*span));
    keys
}

/// Every key that a metric point offers.
pub open spec fn metric_keys(point: DurableMetricPoint) -> Seq<CorrelationKey> {
    seq![
        CorrelationKey::Resource(point.identity.resource.identity()),
        CorrelationKey::Scope(point.identity.scope.identity()),
    ] + attribute_keys(point.identity.resource.attributes@) + attribute_keys(
        point.identity.scope.attributes@,
    ) + attribute_keys(point.identity.point_attributes@) + attribute_keys(point.metadata@)
        + exemplar_keys(point.exemplars@)
}

/// Lists every key that a metric point offers.
pub fn visit_metric_keys(point: &DurableMetricPoint) -> (keys: Vec<CorrelationKey>)
    ensures
        keys@ == metric_keys(*point),
{
    let mut keys: Vec<CorrelationKey> = Vec::new();
    keys.push(CorrelationKey::Resource(point.identity.resource_id()));
    keys.push(CorrelationKey::Scope(point.identity.scope_id()));
    push_attribute_keys(&mut keys, &point.identity.resource.attributes);
    push_attribute_keys(&mut keys, &point.identity.scope.attributes);
    push_attribute_keys(&mut keys, &point.identity.point_attributes);
    push_attribute_keys(&mut keys, &point.metadata);
    push_exemplar_keys(&mut keys, &point.exemplars);
    assert(keys@ =~= metric_keys(*point));
    keys
}

/// Whether every wanted key is offered.
pub open spec fn offers(observed: Seq<CorrelationKey>, wanted: Seq<CorrelationKey>) -> bool {
    forall|i: int| 0 <= i < wanted.len() ==> observed.contains(#[trigger] wanted[i])
}

fn offers_all(observed: &Vec<CorrelationKey>, wanted: &Vec<CorrelationKey>) -> (all: bool)
    ensures
        all == offers(observed@, wanted@),
{
    let mut index: usize = 0;
    while index < wanted.len()
        invariant
            forall|i: int| 0 <= i < index ==> observed@.contains(#[trigger] wanted@[i]),
        decreases wanted@.len() - index,
    {
        let mut found = false;
        let mut position: usize = 0;
        while position < observed.len()
            invariant
                index < wanted@.len(),
                found ==> observed@.contains(wanted@[index as int]),
                !found ==> forall|i: int| 0 <= i < position ==> observed@[i] != wanted@[index as int],
            decreases observed@.len() - position,
        {
            if observed[position] == wanted[index] {
                assert(observed@[position as int] == wanted@[index as int]);
                found = true;
            }
            position = position + 1;
        }
        if !found {
            assert(!observed@.contains(wanted@[index as int]));
            return false;
        }
        index = index + 1;
    }
    true
}

/// Whether a span satisfies every identity of a query.
pub open spec fn span_satisfies(query: CorrelationQuery, span: DurableSpan) -> bool {
    span.tenant@ == query.tenant@ && offers(span_keys(span), query.keys())
}

/// Returns whether a span satisfies every identity of a query.
pub fn span_matches_correlation(query: &CorrelationQuery, span: &DurableSpan) -> (matches: bool)
    ensures
        matches == span_satisfies(*query, *span),
{
    if !same_str(span.tenant.as_str(), query.tenant.as_str()) {
        return false;
    }
    offers_all(&visit_span_keys(span), &query_keys(query))
}

/// Whether a metric point satisfies every identity of a query.
pub open spec fn metric_satisfies(query: CorrelationQuery, point: DurableMetricPoint) -> bool {
    point.identity.tenant@ == query.tenant@ && offers(metric_keys(point), query.keys())
}

/// Returns whether a metric point satisfies every identity of a query.
pub fn metric_matches_correlation(query: &CorrelationQuery, point: &DurableMetricPoint) -> (matches:
    bool)
    ensures
        matches == metric_satisfies(*query, *point),
{
    if !same_str(point.identity.tenant.as_str(), query.tenant.as_str()) {
        return false;
    }
    offers_all(&visit_metric_keys(point), &query_keys(query))
}

/// The keys under which a log is indexed, in the order of indexing.
pub open spec fn log_index_keys(log: DurableLog) -> Seq<CorrelationKey> {
    (match log.trace_id {
        Some(id) => seq![CorrelationKey::Trace(id)],
        None => Seq::empty(),
    }) + seq![
        CorrelationKey::Resource(log.resource.identity()),
        CorrelationKey::Scope(log.scope.identity()),
    ] + attribute_keys(log.resource.attributes@) + attribute_keys(log.scope.attributes@)
        + attribute_keys(log.attributes@)
}

/// The keys under which a span is indexed, in the order of indexing.
pub open spec fn span_index_keys(span: DurableSpan) -> Seq<CorrelationKey> {
    seq![CorrelationKey::Trace(span.trace_id)] + link_keys(span.links@) + seq![
        CorrelationKey::Resource(span.resource.identity()),
        CorrelationKey::Scope(span.scope.identity()),
    ] + attribute_keys(span.resource.attributes@) + attribute_keys(span.scope.attributes@)
        + attribute_keys(span.attributes@) + event_keys(span.events@)
}

/// The keys under which a metric point is indexed, in the order of indexing.
pub open spec fn metric_index_keys(point: DurableMetricPoint) -> Seq<CorrelationKey> {
    exemplar_keys(point.exemplars@) + seq![
        CorrelationKey::Resource(point.identity.resource.identity()),
        CorrelationKey::Scope(point.identity.scope.identity()),
    ] + attribute_keys(point.identity.resource.attributes@) + attribute_keys(
        point.identity.scope.attributes@,
    ) + attribute_keys(point.identity.point_attributes@) + attribute_keys(point.metadata@)
}

/// A span is indexed under every key that it offers, and under no other.
pub proof fn spans_are_indexed_under_their_keys(span: DurableSpan, key: CorrelationKey)
    ensures
        span_index_keys(span).contains(key) <==> span_keys(span).contains(key),
{
    let heads = seq![
        CorrelationKey::Resource(span.resource.identity()),
        CorrelationKey::Scope(span.scope.identity()),
    ];
    let trace = seq![CorrelationKey::Trace(span.trace_id)];
    let (resource, scope) = (
        attribute_keys(span.resource.attributes@),
        attribute_keys(span.scope.attributes@),
    );
    let (own, events, links) = (
        attribute_keys(span.attributes@),
        event_keys(span.events@),
        link_keys(span.links@),
    );
    assert(span_keys(span) =~= trace + heads + resource + scope + own + events + links);
    lemma_contains_sum(trace + heads + resource + scope + own + events, links, key);
    lemma_contains_sum(trace + heads + resource + scope + own, events, key);
    lemma_contains_sum(trace + heads + resource + scope, own, key);
    lemma_contains_sum(trace + heads + resource, scope, key);
    lemma_contains_sum(trace + heads, resource, key);
    lemma_contains_sum(trace, heads, key);
    lemma_contains_sum(trace + links + heads + resource + scope + own, events, key);
    lemma_contains_sum(trace + links + heads + resource + scope, own, key);
    lemma_contains_sum(trace + links + heads + resource, scope, key);
    lemma_contains_sum(trace + links + heads, resource, key);
    lemma_contains_sum(trace + links, heads, key);
    lemma_contains_sum(trace, links, key);
}

/// What two joined key lists contain.
pub proof fn lemma_contains_sum(
    left: Seq<CorrelationKey>,
    right: Seq<CorrelationKey>,
    key: CorrelationKey,
)
    ensures
        (left + right).contains(key) <==> left.contains(key) || right.contains(key),
{
    let sum = left + right;
    if left.contains(key) {
        let i = choose|i: int| 0 <= i < left.len() && left[i] == key;
        assert(sum[i] == key);
    }
    if right.contains(key) {
        let i = choose|i: int| 0 <= i < right.len() && right[i] == key;
        assert(sum[left.len() + i] == key);
    }
    if sum.contains(key) {
        let i = choose|i: int| 0 <= i < sum.len() && sum[i] == key;
        if i < left.len() {
            assert(left[i] == key);
        } else {
            assert(right[i - left.len()] == key);
        }
    }
}

} // verus!
