//! Compact block filters over correlation keys.

use vstd::prelude::*;
use vstd::utf8::encode_utf8;

use crate::checksum::{fnv1a64, fnv1a64_of};
use crate::correlation_query::{
    attribute_keys, event_keys, exemplar_keys, lemma_contains_sum, link_keys, metric_satisfies,
    offers, push_attribute_keys, push_event_keys, push_exemplar_keys, push_link_keys, query_keys,
    span_keys, metric_keys, span_satisfies, CorrelationKey, CorrelationQuery,
};
use crate::records::{DurableMetricPoint, DurableSpan};

verus! {

/// Bits of one filter.
pub const CORRELATION_FILTER_BITS: u64 = 1_024;

/// Scatters the bits of a hash input.
pub open spec fn mixed(value: u64) -> u64 {
    let first = (value ^ (value >> 30)).wrapping_mul(0xbf58_476d_1ce4_e5b9);
    let second = (first ^ (first >> 27)).wrapping_mul(0x94d0_49bb_1331_11eb);
    second ^ (second >> 31)
}

fn mix_filter_hash(value: u64) -> (hash: u64)
    ensures
        hash == mixed(value),
{
    let first = (value ^ (value >> 30)).wrapping_mul(0xbf58_476d_1ce4_e5b9);
    let second = (first ^ (first >> 27)).wrapping_mul(0x94d0_49bb_1331_11eb);
    second ^ (second >> 31)
}

/// Where a key starts to probe.
pub open spec fn probe_start(tenant: Seq<char>, key: CorrelationKey) -> u64 {
    let tenant_hash = fnv1a64_of(encode_utf8(tenant));
    mixed(
        (key.number() as u64) ^ tenant_hash ^ (key.kind() as u64).wrapping_mul(
            0x9e37_79b9_7f4a_7c15,
        ),
    )
}

/// How far apart the probes of a key are, always odd.
pub open spec fn probe_stride(tenant: Seq<char>, key: CorrelationKey) -> u64 {
    let tenant_hash = fnv1a64_of(encode_utf8(tenant));
    let rotated = (tenant_hash << 29) | (tenant_hash >> 35);
    mixed(
        ((key.number() >> 64) as u64) ^ rotated ^ (key.kind() as u64).wrapping_mul(
            0xd6e8_feb8_6659_fd93,
        ),
    ) | 1
}

/// The filter bit of the `index`-th probe of a key.
pub open spec fn probe(tenant: Seq<char>, key: CorrelationKey, index: u64) -> u64 {
    probe_start(tenant, key).wrapping_add(index.wrapping_mul(probe_stride(tenant, key))) % 1_024
}

/// The filter bits of a key.
pub open spec fn key_bits(tenant: Seq<char>, key: CorrelationKey) -> Set<u64> {
    set![probe(tenant, key, 0), probe(tenant, key, 1), probe(tenant, key, 2), probe(tenant, key, 3)]
}

/// Computes the four filter bits of a key.
pub fn correlation_filter_bits(tenant: &str, key: CorrelationKey) -> (bits: Vec<u64>)
    ensures
        bits@.len() == 4,
        forall|i: int| 0 <= i < 4 ==> #[trigger] bits@[i] == probe(tenant@, key, i as u64),
{
    let (kind, number) = key.parts();
    let tenant_hash = fnv1a64(tenant.as_bytes());
    let first = mix_filter_hash(
        (#[verifier::truncate] (number as u64)) ^ tenant_hash ^ (kind as u64).wrapping_mul(
            0x9e37_79b9_7f4a_7c15,
        ),
    );
    let rotated = (tenant_hash << 29) | (tenant_hash >> 35);
    let stride = mix_filter_hash(
        (#[verifier::truncate] ((number >> 64) as u64)) ^ rotated ^ (kind as u64).wrapping_mul(
            0xd6e8_feb8_6659_fd93,
        ),
    ) | 1;
    let mut bits: Vec<u64> = Vec::new();
    let mut index: u64 = 0;
    while index < 4
        invariant
            index <= 4,
            bits@.len() == index,
            first == probe_start(tenant@, key),
            stride == probe_stride(tenant@, key),
            forall|i: int| 0 <= i < index ==> #[trigger] bits@[i] == probe(tenant@, key, i as u64),
        decreases 4 - index,
    {
        bits.push(first.wrapping_add(index.wrapping_mul(stride)) % CORRELATION_FILTER_BITS);
        index = index + 1;
    }
    bits
}

/// Compact immutable filter used to prune cold signal blocks by shared
/// telemetry identity. False positives are possible; false negatives are not.
#[derive(Debug, PartialEq, Eq)]
pub struct CorrelationBlockFilter {
    bits: [u64; 16],
}

/// Whether bit `bit` of a word is set.
pub open spec fn word_has(word: u64, bit: u64) -> bool {
    word & (1u64 << bit) != 0
}

impl CorrelationBlockFilter {
    /// The bits that are set.
    pub closed spec fn set_bits(&self) -> Set<u64> {
        Set::new(|bit: u64| bit < 1_024 && word_has(self.bits@[(bit / 64) as int], bit % 64))
    }

    /// Whether every bit of a key is set.
    pub open spec fn admits(&self, tenant: Seq<char>, key: CorrelationKey) -> bool {
        key_bits(tenant, key).subset_of(self.set_bits())
    }

    /// A filter that admits only what shares no bit: nothing is set.
    pub fn new() -> (filter: Self)
        ensures
            filter.set_bits() == Set::<u64>::empty(),
    {
        let filter = Self { bits: [0;16] };
        proof {
            assert forall|bit: u64| !filter.set_bits().contains(bit) by {
                if bit < 1_024 {
                    let position = bit % 64;
                    assert(0u64 & (1u64 << position) == 0) by (bit_vector);
                }
            }
            assert(filter.set_bits() =~= Set::<u64>::empty());
        }
        filter
    }

    /// The filter of the keys of a query.
    pub fn from_query(query: &CorrelationQuery) -> (filter: Self)
        ensures
            filter.set_bits() == bits_of(query.tenant@, query.keys()),
    {
        let mut filter = Self::new();
        filter.insert_keys(query.tenant.as_str(), &query_keys(query));
        assert(filter.set_bits() =~= bits_of(query.tenant@, query.keys()));
        filter
    }

    /// Merges another immutable filter into this one without introducing
    /// false negatives. Used to summarize blocks into catalog groups/pages.
    pub fn union_assign(&mut self, other: &Self)
        ensures
            final(self).set_bits() == old(self).set_bits().union(other.set_bits()),
    {
        let mut index: usize = 0;
        while index < 16
            invariant
                index <= 16,
                forall|i: int|
                    0 <= i < 16 ==> #[trigger] self.bits@[i] == (if i < index {
                        old(self).bits@[i] | other.bits@[i]
                    } else {
                        old(self).bits@[i]
                    }),
            decreases 16 - index,
        {
            let merged = self.bits[index] | other.bits[index];
            self.bits[index] = merged;
            index = index + 1;
        }
        proof {
            assert forall|bit: u64| #[trigger]
                self.set_bits().contains(bit) == old(self).set_bits().union(
                    other.set_bits(),
                ).contains(bit) by {
                if bit < 1_024 {
                    let word = (bit / 64) as int;
                    lemma_or_word(old(self).bits@[word], other.bits@[word], bit % 64);
                }
            }
            assert(self.set_bits() =~= old(self).set_bits().union(other.set_bits()));
        }
    }

    /// Builds a filter for one immutable trace block.
    #[must_use]
    pub fn for_spans(spans: &[DurableSpan]) -> (filter: Self)
        ensures
            filter.set_bits() == span_block_bits(spans@),
    {
        let mut filter = Self::new();
        let mut index: usize = 0;
        assert(spans@.take(0) =~= Seq::<DurableSpan>::empty());
        while index < spans.len()
            invariant
                index <= spans@.len(),
                filter.set_bits() == span_block_bits(spans@.take(index as int)),
            decreases spans@.len() - index,
        {
            let span = &spans[index];
            let mut keys: Vec<CorrelationKey> = Vec::new();
            keys.push(CorrelationKey::Resource(span.resource_id()));
            push_attribute_keys(&mut keys, &span.resource.attributes);
            keys.push(CorrelationKey::Scope(span.scope_id()));
            push_attribute_keys(&mut keys, &span.scope.attributes);
            push_attribute_keys(&mut keys, &span.attributes);
            push_event_keys(&mut keys, &span.events);
            push_link_keys(&mut keys, &span.links);
            assert(keys@ =~= span_filter_keys(*span));
            filter.insert_keys(span.tenant.as_str(), &keys);
            proof {
                let longer = spans@.take(index + 1);
                assert(longer.drop_last() =~= spans@.take(index as int));
            }
            index = index + 1;
        }
        assert(spans@.take(index as int) =~= spans@);
        filter
    }

    /// Builds a filter for one immutable metric chunk, whose points share one
    /// series identity.
    #[must_use]
    pub fn for_metrics(points: &[DurableMetricPoint]) -> (filter: Self)
        ensures
            filter.set_bits() == metric_chunk_bits(points@),
    {
        let mut filter = Self::new();
        if points.len() > 0 {
            let identity = &points[0].identity;
            let mut keys: Vec<CorrelationKey> = Vec::new();
            keys.push(CorrelationKey::Resource(identity.resource_id()));
            keys.push(CorrelationKey::Scope(identity.scope_id()));
            push_attribute_keys(&mut keys, &identity.resource.attributes);
            push_attribute_keys(&mut keys, &identity.scope.attributes);
            push_attribute_keys(&mut keys, &identity.point_attributes);
            assert(keys@ =~= series_keys(points@[0]));
            filter.insert_keys(identity.tenant.as_str(), &keys);
        }
        let ghost head = series_bits(points@);
        let mut index: usize = 0;
        assert(points@.take(0) =~= Seq::<DurableMetricPoint>::empty());
        assert(filter.set_bits() =~= head.union(point_bits(points@.take(0))));
        while index < points.len()
            invariant
                index <= points@.len(),
                filter.set_bits() == head.union(point_bits(points@.take(index as int))),
            decreases points@.len() - index,
        {
            let point = &points[index];
            let mut keys: Vec<CorrelationKey> = Vec::new();
            push_attribute_keys(&mut keys, &point.metadata);
            push_exemplar_keys(&mut keys, &point.exemplars);
            assert(keys@ =~= attribute_keys(point.metadata@) + exemplar_keys(point.exemplars@));
            filter.insert_keys(point.identity.tenant.as_str(), &keys);
            proof {
                let longer = points@.take(index + 1);
                assert(longer.drop_last() =~= points@.take(index as int));
                assert(filter.set_bits() =~= head.union(point_bits(longer)));
            }
            index = index + 1;
        }
        assert(points@.take(index as int) =~= points@);
        filter
    }

    /// Returns whether this block can satisfy all exact identities in a query.
    #[must_use]
    pub fn may_match(&self, query: &CorrelationQuery) -> (possible: bool)
        ensures
            possible == (forall|i: int|
                0 <= i < query.keys().len() ==> #[trigger] self.admits(
                    query.tenant@,
                    query.keys()[i],
                )),
    {
        let keys = query_keys(query);
        let mut index: usize = 0;
        while index < keys.len()
            invariant
                keys@ == query.keys(),
                forall|i: int|
                    0 <= i < index ==> #[trigger] self.admits(query.tenant@, query.keys()[i]),
            decreases keys@.len() - index,
        {
            if !self.contains(query.tenant.as_str(), keys[index]) {
                assert(!self.admits(query.tenant@, query.keys()[index as int]));
                return false;
            }
            index = index + 1;
        }
        true
    }

    /// Tests a trace block whose primary trace IDs are represented exactly by
    /// the catalog range. The filter only needs linked trace IDs.
    #[must_use]
    pub fn may_match_trace_block(
        &self,
        query: &CorrelationQuery,
        min_trace_id: u128,
        max_trace_id: u128,
    ) -> (possible: bool)
        ensures
            possible == (forall|i: int|
                0 <= i < query.keys().len() ==> #[trigger] self.admits_in_range(
                    query.tenant@,
                    query.keys()[i],
                    min_trace_id,
                    max_trace_id,
                )),
    {
        let keys = query_keys(query);
        let mut index: usize = 0;
        while index < keys.len()
            invariant
                keys@ == query.keys(),
                forall|i: int|
                    0 <= i < index ==> #[trigger] self.admits_in_range(
                        query.tenant@,
                        query.keys()[i],
                        min_trace_id,
                        max_trace_id,
                    ),
            decreases keys@.len() - index,
        {
            let in_range = match keys[index] {
                CorrelationKey::Trace(id) => id.0 >= min_trace_id && id.0 <= max_trace_id,
                _ => false,
            };
            if !in_range && !self.contains(query.tenant.as_str(), keys[index]) {
                assert(!self.admits_in_range(
                    query.tenant@,
                    query.keys()[index as int],
                    min_trace_id,
                    max_trace_id,
                ));
                return false;
            }
            index = index + 1;
        }
        true
    }

    /// Whether a trace block may hold a key: its trace lies in the block's
    /// range, or every bit of the key is set.
    pub open spec fn admits_in_range(
        &self,
        tenant: Seq<char>,
        key: CorrelationKey,
        min_trace_id: u128,
        max_trace_id: u128,
    ) -> bool {
        (key matches CorrelationKey::Trace(id) && min_trace_id <= id.0 <= max_trace_id)
            || self.admits(tenant, key)
    }

    fn insert(&mut self, tenant: &str, key: CorrelationKey)
        ensures
            final(self).set_bits() == old(self).set_bits().union(key_bits(tenant@, key)),
    {
        let bits = correlation_filter_bits(tenant, key);
        self.set_bit(bits[0]);
        self.set_bit(bits[1]);
        self.set_bit(bits[2]);
        self.set_bit(bits[3]);
        proof {
            assert(bits@[0] == probe(tenant@, key, 0));
            assert(bits@[1] == probe(tenant@, key, 1));
            assert(bits@[2] == probe(tenant@, key, 2));
            assert(bits@[3] == probe(tenant@, key, 3));
            assert(self.set_bits() =~= old(self).set_bits().union(key_bits(tenant@, key)));
        }
    }

    fn set_bit(&mut self, bit: u64)
        requires
            bit < 1_024,
        ensures
            final(self).set_bits() == old(self).set_bits().insert(bit),
    {
        let word = (bit / 64) as usize;
        let shift = bit % 64;
        let updated = self.bits[word] | (1u64 << shift);
        self.bits[word] = updated;
        proof {
            assert forall|other: u64| #[trigger]
                self.set_bits().contains(other) == old(self).set_bits().insert(bit).contains(
                    other,
                ) by {
                if other < 1_024 && other / 64 == word {
                    lemma_set_bit(old(self).bits@[word as int], shift, other % 64);
                }
            }
            assert(self.set_bits() =~= old(self).set_bits().insert(bit));
        }
    }

    fn contains(&self, tenant: &str, key: CorrelationKey) -> (held: bool)
        ensures
            held == self.admits(tenant@, key),
    {
        let bits = correlation_filter_bits(tenant, key);
        let held = self.has_bit(bits[0]) && self.has_bit(bits[1]) && self.has_bit(bits[2])
            && self.has_bit(bits[3]);
        proof {
            assert(bits@[0] == probe(tenant@, key, 0));
            assert(bits@[1] == probe(tenant@, key, 1));
            assert(bits@[2] == probe(tenant@, key, 2));
            assert(bits@[3] == probe(tenant@, key, 3));
            let all = key_bits(tenant@, key);
            assert(all.contains(bits@[0]) && all.contains(bits@[1]) && all.contains(bits@[2])
                && all.contains(bits@[3]));
        }
        held
    }

    fn has_bit(&self, bit: u64) -> (set: bool)
        requires
            bit < 1_024,
        ensures
            set == self.set_bits().contains(bit),
    {
        self.bits[(bit / 64) as usize] & (1u64 << (bit % 64)) != 0
    }

    fn insert_keys(&mut self, tenant: &str, keys: &Vec<CorrelationKey>)
        ensures
            final(self).set_bits() == old(self).set_bits().union(bits_of(tenant@, keys@)),
    {
        let mut index: usize = 0;
        assert(keys@.take(0) =~= Seq::<CorrelationKey>::empty());
        assert(self.set_bits() =~= old(self).set_bits().union(bits_of(tenant@, keys@.take(0))));
        while index < keys.len()
            invariant
                index <= keys@.len(),
                self.set_bits() == old(self).set_bits().union(
                    bits_of(tenant@, keys@.take(index as int)),
                ),
            decreases keys@.len() - index,
        {
            self.insert(tenant, keys[index]);
            proof {
                let longer = keys@.take(index + 1);
                assert(longer.drop_last() =~= keys@.take(index as int));
                assert(self.set_bits() =~= old(self).set_bits().union(bits_of(tenant@, longer)));
            }
            index = index + 1;
        }
        assert(keys@.take(index as int) =~= keys@);
    }
}

proof fn lemma_or_word(left: u64, right: u64, bit: u64)
    requires
        bit < 64,
    ensures
        word_has(left | right, bit) == (word_has(left, bit) || word_has(right, bit)),
{
    assert((left | right) & (1u64 << bit) != 0 <==> left & (1u64 << bit) != 0 || right & (1u64
        << bit) != 0) by (bit_vector);
}

proof fn lemma_set_bit(word: u64, set: u64, bit: u64)
    requires
        set < 64,
        bit < 64,
    ensures
        word_has(word | (1u64 << set), bit) == (bit == set || word_has(word, bit)),
{
    assert((word | (1u64 << set)) & (1u64 << bit) != 0 <==> bit == set || word & (1u64 << bit) != 0)
        by (bit_vector)
        requires
            set < 64,
            bit < 64,
    ;
}

/// The bits of a list of keys.
pub open spec fn bits_of(tenant: Seq<char>, keys: Seq<CorrelationKey>) -> Set<u64>
    decreases keys.len(),
{
    if keys.len() == 0 {
        Set::empty()
    } else {
        bits_of(tenant, keys.drop_last()).union(key_bits(tenant, keys.last()))
    }
}

/// The keys of a span that a block filter holds: all but its own trace, which
/// the catalog range represents.
pub open spec fn span_filter_keys(span: DurableSpan) -> Seq<CorrelationKey> {
    seq![CorrelationKey::Resource(span.resource.identity())] + attribute_keys(
        span.resource.attributes@,
    ) + seq![CorrelationKey::Scope(span.scope.identity())] + attribute_keys(span.scope.attributes@)
        + attribute_keys(span.attributes@) + event_keys(span.events@) + link_keys(span.links@)
}

/// The bits of a trace block.
pub open spec fn span_block_bits(spans: Seq<DurableSpan>) -> Set<u64>
    decreases spans.len(),
{
    if spans.len() == 0 {
        Set::empty()
    } else {
        span_block_bits(spans.drop_last()).union(
            bits_of(spans.last().tenant@, span_filter_keys(spans.last())),
        )
    }
}

/// The keys that all points of a series share.
pub open spec fn series_keys(point: DurableMetricPoint) -> Seq<CorrelationKey> {
    seq![
        CorrelationKey::Resource(point.identity.resource.identity()),
        CorrelationKey::Scope(point.identity.scope.identity()),
    ] + attribute_keys(point.identity.resource.attributes@) + attribute_keys(
        point.identity.scope.attributes@,
    ) + attribute_keys(point.identity.point_attributes@)
}

/// The bits of the first point's series.
pub open spec fn series_bits(points: Seq<DurableMetricPoint>) -> Set<u64> {
    if points.len() == 0 {
        Set::empty()
    } else {
        bits_of(points[0].identity.tenant@, series_keys(points[0]))
    }
}

/// The bits of what distinguishes the points.
pub open spec fn point_bits(points: Seq<DurableMetricPoint>) -> Set<u64>
    decreases points.len(),
{
    if points.len() == 0 {
        Set::empty()
    } else {
        point_bits(points.drop_last()).union(
            bits_of(
                points.last().identity.tenant@,
                attribute_keys(points.last().metadata@) + exemplar_keys(points.last().exemplars@),
            ),
        )
    }
}

/// The bits of a metric chunk.
pub open spec fn metric_chunk_bits(points: Seq<DurableMetricPoint>) -> Set<u64> {
    series_bits(points).union(point_bits(points))
}

proof fn lemma_key_in_bits(tenant: Seq<char>, keys: Seq<CorrelationKey>, key: CorrelationKey)
    requires
        keys.contains(key),
    ensures
        key_bits(tenant, key).subset_of(bits_of(tenant, keys)),
    decreases keys.len(),
{
    let i = choose|i: int| 0 <= i < keys.len() && keys[i] == key;
    if i < keys.len() - 1 {
        assert(keys.drop_last()[i] == key);
        lemma_key_in_bits(tenant, keys.drop_last(), key);
    }
}

proof fn lemma_span_in_block(spans: Seq<DurableSpan>, at: int)
    requires
        0 <= at < spans.len(),
    ensures
        bits_of(spans[at].tenant@, span_filter_keys(spans[at])).subset_of(span_block_bits(spans)),
    decreases spans.len(),
{
    if at < spans.len() - 1 {
        assert(spans.drop_last()[at] == spans[at]);
        lemma_span_in_block(spans.drop_last(), at);
    }
}

proof fn lemma_point_in_chunk(points: Seq<DurableMetricPoint>, at: int)
    requires
        0 <= at < points.len(),
    ensures
        bits_of(
            points[at].identity.tenant@,
            attribute_keys(points[at].metadata@) + exemplar_keys(points[at].exemplars@),
        ).subset_of(point_bits(points)),
    decreases points.len(),
{
    if at < points.len() - 1 {
        assert(points.drop_last()[at] == points[at]);
        lemma_point_in_chunk(points.drop_last(), at);
    }
}

/// A trace block is never pruned while one of its spans satisfies the query:
/// the span's trace lies in the block's range and every other identity is in
/// the filter.
pub proof fn trace_blocks_have_no_false_negatives(
    filter: CorrelationBlockFilter,
    spans: Seq<DurableSpan>,
    at: int,
    query: CorrelationQuery,
    min_trace_id: u128,
    max_trace_id: u128,
)
    requires
        span_block_bits(spans).subset_of(filter.set_bits()),
        0 <= at < spans.len(),
        min_trace_id <= spans[at].trace_id.0 <= max_trace_id,
        span_satisfies(query, spans[at]),
    ensures
        forall|i: int|
            0 <= i < query.keys().len() ==> #[trigger] filter.admits_in_range(
                query.tenant@,
                query.keys()[i],
                min_trace_id,
                max_trace_id,
            ),
{
    let span = spans[at];
    assert forall|i: int| 0 <= i < query.keys().len() implies #[trigger] filter.admits_in_range(
        query.tenant@,
        query.keys()[i],
        min_trace_id,
        max_trace_id,
    ) by {
        let key = query.keys()[i];
        assert(offers(span_keys(span), query.keys()));
        assert(span_keys(span).contains(key));
        lemma_span_key_kinds(span, key);
        if span_filter_keys(span).contains(key) {
            lemma_key_in_bits(span.tenant@, span_filter_keys(span), key);
            lemma_span_in_block(spans, at);
        }
    }
}

proof fn lemma_span_key_kinds(span: DurableSpan, key: CorrelationKey)
    requires
        span_keys(span).contains(key),
    ensures
        key == CorrelationKey::Trace(span.trace_id) || span_filter_keys(span).contains(key),
{
    let resource_head = seq![CorrelationKey::Resource(span.resource.identity())];
    let scope_head = seq![CorrelationKey::Scope(span.scope.identity())];
    let trace = seq![CorrelationKey::Trace(span.trace_id)];
    let (resource, scope) = (
        attribute_keys(span.resource.attributes@),
        attribute_keys(span.scope.attributes@),
    );
    let (own, events, links) = (
        attribute_keys(span.attributes@),
        event_keys(span.events@),
        link_keys(span.links@),
    );
    assert(span_keys(span) =~= trace + resource_head + scope_head + resource + scope + own + events
        + links);
    lemma_contains_sum(
        trace + resource_head + scope_head + resource + scope + own + events,
        links,
        key,
    );
    lemma_contains_sum(trace + resource_head + scope_head + resource + scope + own, events, key);
    lemma_contains_sum(trace + resource_head + scope_head + resource + scope, own, key);
    lemma_contains_sum(trace + resource_head + scope_head + resource, scope, key);
    lemma_contains_sum(trace + resource_head + scope_head, resource, key);
    lemma_contains_sum(trace + resource_head, scope_head, key);
    lemma_contains_sum(trace, resource_head, key);
    lemma_contains_sum(
        resource_head + resource + scope_head + scope + own + events,
        links,
        key,
    );
    lemma_contains_sum(resource_head + resource + scope_head + scope + own, events, key);
    lemma_contains_sum(resource_head + resource + scope_head + scope, own, key);
    lemma_contains_sum(resource_head + resource + scope_head, scope, key);
    lemma_contains_sum(resource_head + resource, scope_head, key);
    lemma_contains_sum(resource_head, resource, key);
}

/// A metric chunk is never pruned while one of its points satisfies the query,
/// its points sharing one series.
pub proof fn metric_chunks_have_no_false_negatives(
    filter: CorrelationBlockFilter,
    points: Seq<DurableMetricPoint>,
    at: int,
    query: CorrelationQuery,
)
    requires
        metric_chunk_bits(points).subset_of(filter.set_bits()),
        0 <= at < points.len(),
        points[at].identity == points[0].identity,
        metric_satisfies(query, points[at]),
    ensures
        forall|i: int|
            0 <= i < query.keys().len() ==> #[trigger] filter.admits(
                query.tenant@,
                query.keys()[i],
            ),
{
    let point = points[at];
    let own = attribute_keys(point.metadata@) + exemplar_keys(point.exemplars@);
    assert(metric_keys(point) =~= series_keys(point) + own);
    assert forall|i: int| 0 <= i < query.keys().len() implies #[trigger] filter.admits(
        query.tenant@,
        query.keys()[i],
    ) by {
        let key = query.keys()[i];
        assert(metric_keys(point).contains(key));
        lemma_contains_sum(series_keys(point), own, key);
        if own.contains(key) {
            lemma_key_in_bits(point.identity.tenant@, own, key);
            lemma_point_in_chunk(points, at);
        } else {
            lemma_key_in_bits(point.identity.tenant@, series_keys(point), key);
        }
    }
}

/// Merging filters keeps what each of them admits.
pub proof fn union_keeps_what_is_admitted(
    part: CorrelationBlockFilter,
    whole: CorrelationBlockFilter,
    tenant: Seq<char>,
    key: CorrelationKey,
)
    requires
        part.set_bits().subset_of(whole.set_bits()),
        part.admits(tenant, key),
    ensures
        whole.admits(tenant, key),
{
}

} // verus!
